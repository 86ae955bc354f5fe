//! What an agent and a server keep between runs.

pub mod client;
pub mod server;
