//! Units and the choice among them.

use rlsd::stats_handling::conversions::{get_byte_unit, get_time_unit, Unit};

#[test]
fn unit_sizes() {
    assert_eq!(Unit::BYTE.to_uint(), 1);
    assert_eq!(Unit::KIBIBYTE.to_uint(), 1 << 10);
    assert_eq!(Unit::MEBIBYTE.to_uint(), 1 << 20);
    assert_eq!(Unit::GIBIBYTE.to_uint(), 1 << 30);
    assert_eq!(Unit::TEBIBYTE.to_uint(), 1 << 40);
    assert_eq!(Unit::PEBIBYTE.to_uint(), 1 << 50);
    assert_eq!(Unit::Percentage.to_uint(), 100);
    assert_eq!(Unit::SECOND.to_uint(), 1);
    assert_eq!(Unit::MINUTE.to_uint(), 60);
    assert_eq!(Unit::HOUR.to_uint(), 3_600);
    assert_eq!(Unit::DAY.to_uint(), 86_400);
    assert_eq!(Unit::WEEK.to_uint(), 604_800);
    assert_eq!(Unit::YEAR.to_uint(), 31_449_600);
    assert_eq!(Unit::DECADE.to_uint(), 314_496_000);
}

#[test]
fn unit_chain() {
    assert_eq!(Unit::BYTE.next(), Unit::KIBIBYTE);
    assert_eq!(Unit::TEBIBYTE.next(), Unit::PEBIBYTE);
    assert_eq!(Unit::PEBIBYTE.next(), Unit::PEBIBYTE);
    assert_eq!(Unit::Percentage.next(), Unit::Percentage);
    assert_eq!(Unit::SECOND.next(), Unit::MINUTE);
    assert_eq!(Unit::YEAR.next(), Unit::DECADE);
    assert_eq!(Unit::DECADE.next(), Unit::DECADE);
}

#[test]
fn unit_symbols() {
    assert_eq!(Unit::BYTE.to_str(), "B");
    assert_eq!(Unit::KIBIBYTE.to_str(), "KiB");
    assert_eq!(Unit::MEBIBYTE.to_str(), "MiB");
    assert_eq!(Unit::GIBIBYTE.to_str(), "GiB");
    assert_eq!(Unit::TEBIBYTE.to_str(), "TiB");
    assert_eq!(Unit::PEBIBYTE.to_str(), "PiB");
    assert_eq!(Unit::Percentage.to_str(), "%");
    assert_eq!(Unit::SECOND.to_str(), "s");
    assert_eq!(Unit::MINUTE.to_str(), "minutes");
    assert_eq!(Unit::HOUR.to_str(), "hours");
    assert_eq!(Unit::DAY.to_str(), "days");
    assert_eq!(Unit::WEEK.to_str(), "weeks");
    assert_eq!(Unit::YEAR.to_str(), "years");
    assert_eq!(Unit::DECADE.to_str(), "decades");
}

#[test]
fn byte_unit_of_small_and_large_counts() {
    assert_eq!(get_byte_unit(0, Unit::BYTE), Unit::BYTE);
    assert_eq!(get_byte_unit(1023, Unit::BYTE), Unit::BYTE);
    assert_eq!(get_byte_unit(1024, Unit::BYTE), Unit::KIBIBYTE);
    assert_eq!(get_byte_unit(1_048_575, Unit::BYTE), Unit::KIBIBYTE);
    assert_eq!(get_byte_unit(1_048_576, Unit::BYTE), Unit::MEBIBYTE);
    assert_eq!(get_byte_unit(8 << 30, Unit::BYTE), Unit::GIBIBYTE);
    assert_eq!(get_byte_unit(usize::MAX, Unit::BYTE), Unit::PEBIBYTE);
}

#[test]
fn byte_unit_from_a_coarser_start() {
    assert_eq!(get_byte_unit(2048, Unit::KIBIBYTE), Unit::MEBIBYTE);
    assert_eq!(get_byte_unit(5, Unit::GIBIBYTE), Unit::GIBIBYTE);
}

#[test]
fn time_unit_thresholds() {
    assert_eq!(get_time_unit(0, Unit::SECOND), Unit::SECOND);
    assert_eq!(get_time_unit(59, Unit::SECOND), Unit::SECOND);
    assert_eq!(get_time_unit(60, Unit::SECOND), Unit::MINUTE);
    assert_eq!(get_time_unit(3_599, Unit::SECOND), Unit::MINUTE);
    assert_eq!(get_time_unit(3_600, Unit::SECOND), Unit::HOUR);
    assert_eq!(get_time_unit(86_400, Unit::SECOND), Unit::DAY);
    assert_eq!(get_time_unit(604_800, Unit::SECOND), Unit::WEEK);
    assert_eq!(get_time_unit(31_536_000, Unit::SECOND), Unit::YEAR);
    assert_eq!(get_time_unit(314_496_000, Unit::SECOND), Unit::DECADE);
    assert_eq!(get_time_unit(u128::MAX, Unit::SECOND), Unit::DECADE);
}

#[test]
fn time_unit_never_goes_below_its_start() {
    assert_eq!(get_time_unit(5, Unit::HOUR), Unit::HOUR);
    assert_eq!(get_time_unit(1_000, Unit::Percentage), Unit::Percentage);
}
