//! One sample of a device's metrics.

use vstd::prelude::*;

verus! {

/// One timestamped row of metrics, as a device reported it.
///
/// The CPU load is held in fixed point so that every field is an integer:
/// `cpu_usage` counts millionths of full load, `1_000_000` being 100%.
#[derive(Clone, Debug, PartialEq, Eq)]
pub struct Device {
    /// Identifier of the device, stable per agent
    pub device_id: String,
    /// Display name of the device
    pub device_name: String,
    /// RAM in use, in bytes
    pub ram_used: i64,
    /// RAM installed, in bytes
    pub ram_total: i64,
    /// CPU load in millionths of full load
    pub cpu_usage: i64,
    /// Number of running processes; zero where unset
    pub processes: i32,
    /// Bytes received
    pub network_in: i64,
    /// Bytes sent
    pub network_out: i64,
    /// Unix time of the sample, in seconds
    pub time: i64,
}

impl Device {
    /// Builds a sample from its nine fields.
    pub fn new(
        device_id: String,
        device_name: String,
        ram_used: i64,
        ram_total: i64,
        cpu_usage: i64,
        processes: i32,
        network_in: i64,
        network_out: i64,
        time: i64,
    ) -> (device: Device)
        ensures
            device.device_id == device_id,
            device.device_name == device_name,
            device.ram_used == ram_used,
            device.ram_total == ram_total,
            device.cpu_usage == cpu_usage,
            device.processes == processes,
            device.network_in == network_in,
            device.network_out == network_out,
            device.time == time,
    {
        Device {
            device_id,
            device_name,
            ram_used,
            ram_total,
            cpu_usage,
            processes,
            network_in,
            network_out,
            time,
        }
    }
}

} // verus!
