//! The resampling pipeline on concrete series.

use rlsd::stats_handling::device_info::Device;
use rlsd::stats_handling::conversions::Unit;
use rlsd::stats_handling::conversions::coarser_of;
use rlsd::stats_handling::resampler::{
    axis_range, down_sample, filter, find_min_max, interpolate, shared_axis_range,
};
use rlsd::tui::{
    channel_peak, channel_points, channel_unit, make_dataset, network_unit, Channel,
};

fn sample(time: i64, cpu: i64, ram: i64, net_in: i64, net_out: i64) -> Device {
    Device::new(
        String::from("dev"),
        String::from("Device"),
        ram,
        16_000,
        cpu,
        7,
        net_in,
        net_out,
        time,
    )
}

#[test]
fn min_excludes_zero_entries_and_max_includes_them() {
    let series: Vec<(u64, i64)> = vec![(0, 0), (1, 5), (2, 0), (3, 10)];
    assert_eq!(find_min_max(&series), (5, 10));
}

#[test]
fn empty_series_has_zero_range() {
    let series: Vec<(u64, i64)> = vec![];
    assert_eq!(find_min_max(&series), (0, 0));
}

#[test]
fn series_of_zeros_has_no_least_value() {
    let series: Vec<(u64, i64)> = vec![(0, 0), (1, 0)];
    assert_eq!(find_min_max(&series), (i64::MAX, 0));
}

#[test]
fn greatest_value_is_never_below_zero() {
    let series: Vec<(u64, i64)> = vec![(0, -4), (1, -9)];
    assert_eq!(find_min_max(&series), (-9, 0));
}

#[test]
fn down_sample_of_nothing_is_nothing() {
    let series: Vec<(u64, i64)> = vec![];
    assert_eq!(down_sample(&series, 40), vec![]);
}

#[test]
fn down_sample_to_no_points_is_nothing() {
    let series: Vec<(u64, i64)> = vec![(0, 1), (1, 2)];
    assert_eq!(down_sample(&series, 0), vec![]);
}

#[test]
fn down_sample_keeps_a_short_series() {
    let series: Vec<(u64, i64)> = vec![(0, 1), (10, 2), (20, 3)];
    assert_eq!(down_sample(&series, 40), series);
}

#[test]
fn down_sample_means_each_chunk() {
    // Five points for two: chunks of three, the last one shorter.
    let series: Vec<(u64, i64)> = vec![(0, 10), (2, 20), (4, 30), (6, 5), (9, -8)];
    assert_eq!(down_sample(&series, 2), vec![(2, 20), (7, -2)]);
}

#[test]
fn down_sample_rounds_means_down() {
    let series: Vec<(u64, i64)> = vec![(0, -1), (1, -2)];
    assert_eq!(down_sample(&series, 1), vec![(0, -2)]);
}

#[test]
fn down_sample_never_exceeds_the_target() {
    for n in 0..200u64 {
        let series: Vec<(u64, i64)> = (0..n).map(|i| (i, i as i64)).collect();
        let reduced = down_sample(&series, 40);
        assert!(reduced.len() <= 40);
        assert_eq!(reduced.is_empty(), n == 0);
    }
}

#[test]
fn down_sample_of_eighty_one_points() {
    // ceil(81 / 40) = 3 points in each chunk, so 27 chunks.
    let series: Vec<(u64, i64)> = (0..81u64).map(|i| (i, 3 * i as i64)).collect();
    let reduced = down_sample(&series, 40);
    assert_eq!(reduced.len(), 27);
    assert_eq!(reduced[0], (1, 3));
    assert_eq!(reduced[26], (79, 237));
}

#[test]
fn interpolation_of_two_points() {
    let series: Vec<(u64, i64)> = vec![(0, 0), (4, -8)];
    assert_eq!(
        interpolate(&series, 4),
        vec![(0, 0), (1, -2), (2, -4), (3, -6), (4, -8)]
    );
}

#[test]
fn interpolation_rounds_toward_the_segment_start() {
    let series: Vec<(u64, i64)> = vec![(10, 10), (7, 13)];
    assert_eq!(
        interpolate(&series, 2),
        vec![(10, 10), (9, 11), (7, 13)]
    );
}

#[test]
fn interpolation_length() {
    for k in 0..6usize {
        for steps in 0..5u16 {
            let series: Vec<(u64, i64)> = (0..k).map(|i| (i as u64 * 10, i as i64)).collect();
            let expected = if k == 0 { 0 } else { (k - 1) * steps as usize + 1 };
            assert_eq!(interpolate(&series, steps).len(), expected);
        }
    }
}

#[test]
fn interpolation_of_one_point_is_the_point() {
    let series: Vec<(u64, i64)> = vec![(3, 9)];
    assert_eq!(interpolate(&series, 64), vec![(3, 9)]);
}

#[test]
fn interpolation_without_steps_keeps_the_last_point() {
    let series: Vec<(u64, i64)> = vec![(0, 1), (5, 2), (9, 3)];
    assert_eq!(interpolate(&series, 0), vec![(9, 3)]);
}

#[test]
fn filter_downsamples_then_interpolates() {
    let series: Vec<(u64, i64)> = vec![(0, 0), (64, 128)];
    let plain = filter(&series, false);
    assert_eq!(plain, series);
    let smooth = filter(&series, true);
    assert_eq!(smooth.len(), 65);
    assert_eq!(smooth[0], (0, 0));
    assert_eq!(smooth[1], (1, 2));
    assert_eq!(smooth[32], (32, 64));
    assert_eq!(smooth[64], (64, 128));
}

#[test]
fn window_keeps_samples_from_its_start_on() {
    let data = vec![
        sample(90, 100_000, 1_000, 10, 20),
        sample(100, 200_000, 2_000, 30, 40),
        sample(160, 300_000, 3_000, 50, 60),
    ];
    assert_eq!(
        channel_points(100, &data, Channel::Cpu),
        vec![(0, 200_000), (60, 300_000)]
    );
    assert_eq!(
        channel_points(100, &data, Channel::Ram),
        vec![(0, 2_000), (60, 3_000)]
    );
    assert_eq!(
        channel_points(100, &data, Channel::NetworkIn),
        vec![(0, 30), (60, 50)]
    );
    assert_eq!(
        channel_points(100, &data, Channel::NetworkOut),
        vec![(0, 40), (60, 60)]
    );
}

#[test]
fn window_over_the_whole_range_of_time() {
    let data = vec![sample(i64::MAX, 1, 2, 3, 4)];
    assert_eq!(
        channel_points(i64::MIN, &data, Channel::Ram),
        vec![(u64::MAX, 2)]
    );
}

#[test]
fn dataset_has_four_channels() {
    let data = vec![
        sample(100, 200_000, 2_000, 30, 40),
        sample(164, 300_000, 3_280, 94, 40),
    ];
    let datasets = make_dataset(100, &data);
    assert_eq!(datasets.len(), 4);
    for channel in &datasets {
        assert_eq!(channel.len(), 65);
    }
    assert_eq!(datasets[0][64], (64, 300_000));
    assert_eq!(datasets[1][1], (1, 2_020));
    assert_eq!(datasets[2][32], (32, 62));
    assert_eq!(datasets[3][10], (10, 40));
}

#[test]
fn dataset_of_no_samples_is_empty() {
    let datasets = make_dataset(0, &Vec::new());
    assert_eq!(datasets, vec![vec![], vec![], vec![], vec![]]);
}

#[test]
fn unit_of_a_channel_goes_by_its_peak_in_the_window() {
    let data = vec![
        sample(90, 990_000, 5 << 30, 10, 20),
        sample(100, 200_000, 2_000_000, 300, 40),
        sample(160, 300_000, 3_000, 50_000, 60),
    ];
    // The sample before the window does not count.
    assert_eq!(channel_peak(100, &data, Channel::Ram), 2_000_000);
    assert_eq!(channel_peak(100, &data, Channel::Cpu), 300_000);
    assert_eq!(channel_peak(100, &data, Channel::NetworkIn), 50_000);
    assert_eq!(channel_peak(100, &data, Channel::NetworkOut), 60);
    assert_eq!(channel_peak(200, &data, Channel::Ram), 0);
    assert_eq!(channel_unit(100, &data, Channel::Ram), Unit::MEBIBYTE);
    assert_eq!(channel_unit(0, &data, Channel::Ram), Unit::GIBIBYTE);
    assert_eq!(channel_unit(100, &data, Channel::NetworkIn), Unit::KIBIBYTE);
    assert_eq!(channel_unit(100, &data, Channel::NetworkOut), Unit::BYTE);
    assert_eq!(channel_unit(100, &data, Channel::Cpu), Unit::Percentage);
    assert_eq!(channel_unit(0, &Vec::new(), Channel::Ram), Unit::BYTE);
}

#[test]
fn a_channel_of_negative_values_peaks_at_zero() {
    let data = vec![sample(100, -1, -5, -6, -7)];
    assert_eq!(channel_peak(0, &data, Channel::Ram), 0);
    assert_eq!(channel_unit(0, &data, Channel::Ram), Unit::BYTE);
}

#[test]
fn axis_of_a_series() {
    assert_eq!(axis_range(&[(0, 0), (1, 5), (2, 0), (3, 10)]), (5, 10));
    assert_eq!(axis_range(&[]), (0, 0));
    // Without a value other than zero the axis starts at zero.
    assert_eq!(axis_range(&[(0, 0), (1, 0)]), (0, 0));
    assert_eq!(axis_range(&[(0, -3), (1, -7)]), (-7, 0));
    assert_eq!(axis_range(&[(0, i64::MAX)]), (i64::MAX, i64::MAX));
}

#[test]
fn axis_that_two_series_share() {
    let received: Vec<(u64, i64)> = vec![(0, 0), (1, 40), (2, 900)];
    let sent: Vec<(u64, i64)> = vec![(0, 7), (1, 0), (2, 300)];
    assert_eq!(shared_axis_range(&received, &sent), (7, 900));
    assert_eq!(shared_axis_range(&sent, &received), (7, 900));
    // A series of zeros leaves the least value to the other one.
    let silent: Vec<(u64, i64)> = vec![(0, 0), (1, 0)];
    assert_eq!(shared_axis_range(&received, &silent), (40, 900));
    assert_eq!(shared_axis_range(&silent, &sent), (7, 300));
    assert_eq!(shared_axis_range(&silent, &silent), (0, 0));
    assert_eq!(shared_axis_range(&[], &[]), (0, 0));
    assert_eq!(shared_axis_range(&[], &sent), (7, 300));
}

#[test]
fn network_channels_share_the_coarser_unit() {
    let data = vec![
        sample(100, 0, 0, 300, 5_000_000),
        sample(160, 0, 0, 50_000, 60),
    ];
    assert_eq!(channel_unit(0, &data, Channel::NetworkIn), Unit::KIBIBYTE);
    assert_eq!(channel_unit(0, &data, Channel::NetworkOut), Unit::MEBIBYTE);
    assert_eq!(network_unit(0, &data), Unit::MEBIBYTE);
    assert_eq!(network_unit(150, &data), Unit::KIBIBYTE);
    assert_eq!(network_unit(0, &Vec::new()), Unit::BYTE);
    assert_eq!(coarser_of(Unit::GIBIBYTE, Unit::KIBIBYTE), Unit::GIBIBYTE);
    assert_eq!(coarser_of(Unit::BYTE, Unit::SECOND), Unit::SECOND);
}
