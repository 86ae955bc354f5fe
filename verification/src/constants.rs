//! Fixed parameters of the agent and of the dashboard.

use vstd::prelude::*;
use vstd::string::StringExecFns;

verus! {

/// Seconds between two samples that an agent sends.
pub const LOOP_TIME_SECONDS: u64 = 120;

/// Least number of seconds between two accepted samples of one device.
pub const MIN_INPUT_INTERVAL: i64 = 110;

/// Ceiling on the size of a frame, in bytes.
pub const FRAME_CEILING: usize = 1024;

/// Most points that a downsampled series holds.
pub const DOWN_SAMPLE_POINTS: u16 = 40;

/// Whether the dashboard interpolates between downsampled points.
pub const DO_INTERPOLATION: bool = true;

/// Points drawn for each segment between two downsampled points.
pub const INTERPOLATION_STEPS: u16 = 64;

/// Where an agent's configuration lies: `client-config.json` in the
/// directory `config_dir`.
pub fn get_client_config_path(config_dir: &str) -> (path: String)
    ensures
        path@ == config_dir@ + "/client-config.json"@,
{
    String::from_str(config_dir).concat("/client-config.json")
}

/// Where a server's configuration lies: `server-config.json` in the
/// directory `config_dir`.
pub fn get_server_config_path(config_dir: &str) -> (path: String)
    ensures
        path@ == config_dir@ + "/server-config.json"@,
{
    String::from_str(config_dir).concat("/server-config.json")
}

/// Where the store lies: `database.sqlite` in the directory `data_dir`.
pub fn get_db_path(data_dir: &str) -> (path: String)
    ensures
        path@ == data_dir@ + "/database.sqlite"@,
{
    String::from_str(data_dir).concat("/database.sqlite")
}

} // verus!
