//! Time-boxed blocking of distracting sites through the hosts file.
pub mod time;
pub mod hosts;
pub mod common;
pub mod config;
pub mod messages;
pub mod server;
pub mod client;
