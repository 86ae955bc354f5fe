//! The wire protocol and the server's command handling.

pub mod client;
pub mod codec;
pub mod command_type;
pub mod connection;
pub mod identity;
pub mod rate_limiter;
pub mod server;
pub mod update;
