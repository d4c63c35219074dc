pub mod jwt;
pub mod signature;
