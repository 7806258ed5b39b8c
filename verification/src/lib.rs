pub mod configuration;
pub mod connection;
pub mod security;
