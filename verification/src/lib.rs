//! Fleet telemetry collector: the connection protocol of the server and the
//! resampling of stored metrics into chart-ready series.

pub mod config;
pub mod constants;
pub mod json_handler;
pub mod json_path;
pub mod socket_handling;
pub mod stats_handling;
pub mod tui;
