//! Device samples and the units their values are shown in.

pub mod conversions;
pub mod device_info;
pub mod fixed_point;
pub mod resampler;
pub mod stats_getter;
