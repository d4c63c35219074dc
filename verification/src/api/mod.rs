pub mod auth;
pub mod error;
pub mod registration;
