pub mod address_set;
pub mod api;
pub mod config;
pub mod coverage;
pub mod db;
pub mod rearrange;
pub mod sync;
