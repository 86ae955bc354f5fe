//! What the dashboard shows: the series of a device over a window of time,
//! the units of their axes, and the selection that the keys move.

use vstd::prelude::*;
use vstd::utf8::encode_utf8;
use crate::constants::DO_INTERPOLATION;
use crate::stats_handling::conversions::{byte_unit, coarser_of, kibi_steps, Unit};
use crate::stats_handling::device_info::Device;
use crate::stats_handling::resampler::{filter, filtered};

verus! {

/// The metric channels that the dashboard charts.
#[derive(Clone, Copy, Debug, PartialEq, Eq, Structural)]
pub enum Channel {
    /// CPU load, in millionths of full load
    Cpu,
    /// RAM in use, in bytes
    Ram,
    /// Bytes received
    NetworkIn,
    /// Bytes sent
    NetworkOut,
}

/// The value of `device` on `channel`.
pub open spec fn metric(device: Device, channel: Channel) -> i64 {
    match channel {
        Channel::Cpu => device.cpu_usage,
        Channel::Ram => device.ram_used,
        Channel::NetworkIn => device.network_in,
        Channel::NetworkOut => device.network_out,
    }
}

/// The samples of `data` taken at `time_min` or later, in their order, each
/// as the point of its seconds since `time_min` and its value on `channel`.
pub open spec fn windowed(data: Seq<Device>, time_min: i64, channel: Channel) -> Seq<(u64, i64)>
    decreases data.len(),
{
    if data.len() == 0 {
        Seq::empty()
    } else {
        let earlier = windowed(data.drop_last(), time_min, channel);
        let device = data.last();
        if device.time >= time_min {
            earlier.push(((device.time - time_min) as u64, metric(device, channel)))
        } else {
            earlier
        }
    }
}

/// Keeps the samples of the window that starts at `time_min` and maps them
/// to points of `channel`.
pub fn channel_points(time_min: i64, data: &Vec<Device>, channel: Channel) -> (points: Vec<
    (u64, i64),
>)
    ensures
        points@ == windowed(data@, time_min, channel),
{
    let mut points: Vec<(u64, i64)> = Vec::new();
    let mut j: usize = 0;
    while j < data.len()
        invariant
            j <= data.len(),
            points@ == windowed(data@.take(j as int), time_min, channel),
        decreases data.len() - j,
    {
        proof {
            assert(data@.take(j + 1).drop_last() =~= data@.take(j as int));
            assert(data@.take(j + 1).last() == data@[j as int]);
        }
        let device = &data[j];
        if device.time >= time_min {
            let x: u64 = (device.time as i128 - time_min as i128) as u64;
            let y: i64 = match channel {
                Channel::Cpu => device.cpu_usage,
                Channel::Ram => device.ram_used,
                Channel::NetworkIn => device.network_in,
                Channel::NetworkOut => device.network_out,
            };
            points.push((x, y));
        }
        j = j + 1;
    }
    assert(data@.take(data.len() as int) =~= data@);
    points
}

/// The greatest value on `channel` among the samples of `data` taken at
/// `time_min` or later; zero where there is none above zero.
pub open spec fn peak(data: Seq<Device>, time_min: i64, channel: Channel) -> i64
    decreases data.len(),
{
    if data.len() == 0 {
        0
    } else {
        let earlier = peak(data.drop_last(), time_min, channel);
        let device = data.last();
        if device.time >= time_min && metric(device, channel) > earlier {
            metric(device, channel)
        } else {
            earlier
        }
    }
}

/// The unit in which `channel` is shown for the window that starts at
/// `time_min`: the percentage for the CPU load and, for a count of bytes,
/// the unit that fits the peak of the channel in the window, so that one
/// unit scales every value of the channel.
pub open spec fn unit_of(data: Seq<Device>, time_min: i64, channel: Channel) -> Unit {
    match channel {
        Channel::Cpu => Unit::Percentage,
        _ => Unit::BYTE.advanced(kibi_steps(peak(data, time_min, channel) as nat)),
    }
}

/// Finds the peak of `channel` in the window that starts at `time_min`.
pub fn channel_peak(time_min: i64, data: &Vec<Device>, channel: Channel) -> (greatest: i64)
    ensures
        greatest == peak(data@, time_min, channel),
        greatest >= 0,
{
    let mut greatest: i64 = 0;
    let mut j: usize = 0;
    while j < data.len()
        invariant
            j <= data.len(),
            greatest >= 0,
            greatest == peak(data@.take(j as int), time_min, channel),
        decreases data.len() - j,
    {
        proof {
            assert(data@.take(j + 1).drop_last() =~= data@.take(j as int));
            assert(data@.take(j + 1).last() == data@[j as int]);
        }
        let device = &data[j];
        let value: i64 = match channel {
            Channel::Cpu => device.cpu_usage,
            Channel::Ram => device.ram_used,
            Channel::NetworkIn => device.network_in,
            Channel::NetworkOut => device.network_out,
        };
        if device.time >= time_min && value > greatest {
            greatest = value;
        }
        j = j + 1;
    }
    assert(data@.take(data.len() as int) =~= data@);
    greatest
}

/// Chooses the unit in which `channel` is shown for the window that starts
/// at `time_min`.
pub fn channel_unit(time_min: i64, data: &Vec<Device>, channel: Channel) -> (unit: Unit)
    ensures
        unit == unit_of(data@, time_min, channel),
{
    match channel {
        Channel::Cpu => Unit::Percentage,
        _ => byte_unit(channel_peak(time_min, data, channel) as u64, Unit::BYTE),
    }
}

/// The unit of the axis that the two network channels share: the coarser
/// of the units of bytes received and of bytes sent.
pub fn network_unit(time_min: i64, data: &Vec<Device>) -> (unit: Unit)
    ensures
        unit == if unit_of(data@, time_min, Channel::NetworkIn).value() > unit_of(
            data@,
            time_min,
            Channel::NetworkOut,
        ).value() {
            unit_of(data@, time_min, Channel::NetworkIn)
        } else {
            unit_of(data@, time_min, Channel::NetworkOut)
        },
{
    coarser_of(
        channel_unit(time_min, data, Channel::NetworkIn),
        channel_unit(time_min, data, Channel::NetworkOut),
    )
}

/// The four series that the dashboard charts for the window that starts at
/// `time_min`: CPU load, RAM in use, bytes received and bytes sent, in this
/// order, each filtered as `filtered` says.
pub fn make_dataset(time_min: i64, data: &Vec<Device>) -> (datasets: Vec<Vec<(u64, i64)>>)
    ensures
        datasets.len() == 4,
        datasets[0]@ == filtered(windowed(data@, time_min, Channel::Cpu), DO_INTERPOLATION),
        datasets[1]@ == filtered(windowed(data@, time_min, Channel::Ram), DO_INTERPOLATION),
        datasets[2]@ == filtered(windowed(data@, time_min, Channel::NetworkIn), DO_INTERPOLATION),
        datasets[3]@ == filtered(
            windowed(data@, time_min, Channel::NetworkOut),
            DO_INTERPOLATION,
        ),
{
    let cpu = channel_points(time_min, data, Channel::Cpu);
    let ram = channel_points(time_min, data, Channel::Ram);
    let network_in = channel_points(time_min, data, Channel::NetworkIn);
    let network_out = channel_points(time_min, data, Channel::NetworkOut);
    let mut datasets: Vec<Vec<(u64, i64)>> = Vec::new();
    datasets.push(filter(cpu.as_slice(), DO_INTERPOLATION));
    datasets.push(filter(ram.as_slice(), DO_INTERPOLATION));
    datasets.push(filter(network_in.as_slice(), DO_INTERPOLATION));
    datasets.push(filter(network_out.as_slice(), DO_INTERPOLATION));
    datasets
}

/// The windows of time that the dashboard offers.
#[derive(Clone, Copy, Debug, PartialEq, Eq, Structural)]
pub enum TimeRange {
    /// The last hour
    Last1Hour,
    /// The last day
    Last1Day,
    /// The last week
    Last1Week,
    /// The last 30 days
    Last1Month,
    /// The last 365 days
    Last1Year,
}

impl TimeRange {
    /// The windows from the shortest to the longest.
    pub open spec fn ranges() -> Seq<TimeRange> {
        seq![
            TimeRange::Last1Hour,
            TimeRange::Last1Day,
            TimeRange::Last1Week,
            TimeRange::Last1Month,
            TimeRange::Last1Year,
        ]
    }

    /// Length of the window in seconds.
    pub open spec fn seconds(self) -> int {
        match self {
            TimeRange::Last1Hour => 3_600,
            TimeRange::Last1Day => 86_400,
            TimeRange::Last1Week => 604_800,
            TimeRange::Last1Month => 2_592_000,
            TimeRange::Last1Year => 31_536_000,
        }
    }

    /// The window's label.
    pub open spec fn label(self) -> Seq<char> {
        match self {
            TimeRange::Last1Hour => "1 hour"@,
            TimeRange::Last1Day => "1 day"@,
            TimeRange::Last1Week => "1 week"@,
            TimeRange::Last1Month => "1 month"@,
            TimeRange::Last1Year => "1 year"@,
        }
    }

    /// The windows from the shortest to the longest.
    pub fn all() -> (ranges: Vec<TimeRange>)
        ensures
            ranges@ == TimeRange::ranges(),
    {
        let mut ranges: Vec<TimeRange> = Vec::new();
        ranges.push(TimeRange::Last1Hour);
        ranges.push(TimeRange::Last1Day);
        ranges.push(TimeRange::Last1Week);
        ranges.push(TimeRange::Last1Month);
        ranges.push(TimeRange::Last1Year);
        assert(ranges@ =~= TimeRange::ranges());
        ranges
    }

    /// The window's label.
    pub fn as_str(&self) -> (text: &'static str)
        ensures
            text@ == self.label(),
    {
        match self {
            TimeRange::Last1Hour => "1 hour",
            TimeRange::Last1Day => "1 day",
            TimeRange::Last1Week => "1 week",
            TimeRange::Last1Month => "1 month",
            TimeRange::Last1Year => "1 year",
        }
    }

    /// Length of the window in seconds.
    pub fn duration_secs(&self) -> (seconds: i64)
        ensures
            seconds == self.seconds(),
    {
        match self {
            TimeRange::Last1Hour => 60 * 60,
            TimeRange::Last1Day => 24 * 60 * 60,
            TimeRange::Last1Week => 7 * 24 * 60 * 60,
            TimeRange::Last1Month => 30 * 24 * 60 * 60,
            TimeRange::Last1Year => 365 * 24 * 60 * 60,
        }
    }
}

/// Number of windows that the dashboard offers.
pub const TIME_RANGES: usize = 5;

/// Seconds after which the dashboard reads the store again.
pub const REFRESH_SECONDS: u64 = 10;

/// The keys that the dashboard acts on.
#[derive(Clone, Copy, Debug, PartialEq, Eq, Structural)]
pub enum Key {
    /// `q`: leave the dashboard
    Quit,
    /// Tab: the next device
    Tab,
    /// Shift and Tab: the device before
    BackTab,
    /// Left arrow: the device before
    Left,
    /// Right arrow: the next device
    Right,
    /// Up arrow: the next longer window
    Up,
    /// Down arrow: the next shorter window
    Down,
    /// Any other key
    Other,
}

/// What the dashboard does after a key.
#[derive(Clone, Copy, Debug, PartialEq, Eq, Structural)]
pub enum KeyOutcome {
    /// Leave the dashboard
    Quit,
    /// Read the store again for what is now selected
    Refresh,
    /// Go on as before
    Ignore,
}

/// The place after `index` among `count` places in a circle; zero where
/// there is no place.
pub open spec fn place_after(index: nat, count: nat) -> nat {
    if count == 0 || index + 1 >= count {
        0
    } else {
        index + 1
    }
}

/// The place before `index` among `count` places in a circle; zero where
/// there is no place.
pub open spec fn place_before(index: nat, count: nat) -> nat {
    if count == 0 {
        0
    } else if index == 0 || index > count {
        (count - 1) as nat
    } else {
        (index - 1) as nat
    }
}

/// What the dashboard has selected.
#[derive(Clone, Debug)]
pub struct App {
    /// Display names of the devices, in the order of their tabs
    pub device_names: Vec<String>,
    /// Identifiers of the devices, in the order of their tabs
    pub device_ids: Vec<String>,
    /// Which tab is selected
    pub selected_device: usize,
    /// Which window is selected, as its place in `TimeRange::all`
    pub time_range_index: usize,
}

impl App {
    /// A dashboard for `device_names` and `device_ids`, with the first
    /// device and the shortest window selected.
    pub fn new(device_names: Vec<String>, device_ids: Vec<String>) -> (app: App)
        ensures
            app.device_names == device_names,
            app.device_ids == device_ids,
            app.selected_device == 0,
            app.time_range_index == 0,
    {
        App { device_names, device_ids, selected_device: 0, time_range_index: 0 }
    }

    /// Identifier of the selected device, if the selection names one.
    pub fn selected_device_id(&self) -> (id: Option<&String>)
        ensures
            self.selected_device < self.device_ids@.len() ==> id == Some(
                &self.device_ids@[self.selected_device as int],
            ),
            self.selected_device >= self.device_ids@.len() ==> id is None,
    {
        if self.selected_device < self.device_ids.len() {
            Some(&self.device_ids[self.selected_device])
        } else {
            None
        }
    }

    /// The selected window; the longest one where the selection lies
    /// beyond the last.
    pub fn selected_time_range(&self) -> (range: TimeRange)
        ensures
            self.time_range_index < TIME_RANGES ==> range == TimeRange::ranges()[self.time_range_index as int],
            self.time_range_index >= TIME_RANGES ==> range == TimeRange::Last1Year,
    {
        match self.time_range_index {
            0 => TimeRange::Last1Hour,
            1 => TimeRange::Last1Day,
            2 => TimeRange::Last1Week,
            3 => TimeRange::Last1Month,
            _ => TimeRange::Last1Year,
        }
    }

    /// Where the selected window starts for a dashboard that is looked at
    /// at `now`; the earliest time there is where the start lies before it.
    pub fn window_start(&self, now: i64) -> (time_min: i64)
        ensures
            time_min == if now - self.selected_seconds() < i64::MIN {
                i64::MIN as int
            } else {
                now - self.selected_seconds()
            },
    {
        let seconds = self.selected_time_range().duration_secs();
        if now < i64::MIN + seconds {
            i64::MIN
        } else {
            now - seconds
        }
    }

    /// Length in seconds of the selected window.
    pub open spec fn selected_seconds(&self) -> int {
        if self.time_range_index < TIME_RANGES {
            TimeRange::ranges()[self.time_range_index as int].seconds()
        } else {
            TimeRange::Last1Year.seconds()
        }
    }

    /// Acts on a key: Tab and the right arrow select the next device,
    /// Shift-Tab and the left arrow the one before, the up and down arrows
    /// the next longer and the next shorter window, each going round in a
    /// circle; `q` leaves. A key that changes the selection asks for the
    /// store to be read again.
    pub fn on_key(&mut self, key: Key) -> (outcome: KeyOutcome)
        ensures
            final(self).device_names == old(self).device_names,
            final(self).device_ids == old(self).device_ids,
            final(self).selected_device == match key {
                Key::Tab | Key::Right => place_after(
                    old(self).selected_device as nat,
                    old(self).device_names@.len(),
                ),
                Key::BackTab | Key::Left => place_before(
                    old(self).selected_device as nat,
                    old(self).device_names@.len(),
                ),
                _ => old(self).selected_device as nat,
            },
            final(self).time_range_index == match key {
                Key::Up => place_after(old(self).time_range_index as nat, TIME_RANGES as nat),
                Key::Down => place_before(old(self).time_range_index as nat, TIME_RANGES as nat),
                _ => old(self).time_range_index as nat,
            },
            outcome == match key {
                Key::Quit => KeyOutcome::Quit,
                Key::Other => KeyOutcome::Ignore,
                _ => KeyOutcome::Refresh,
            },
    {
        let devices = self.device_names.len();
        match key {
            Key::Quit => KeyOutcome::Quit,
            Key::Tab | Key::Right => {
                self.selected_device = after(self.selected_device, devices);
                KeyOutcome::Refresh
            },
            Key::BackTab | Key::Left => {
                self.selected_device = before(self.selected_device, devices);
                KeyOutcome::Refresh
            },
            Key::Up => {
                self.time_range_index = after(self.time_range_index, TIME_RANGES);
                KeyOutcome::Refresh
            },
            Key::Down => {
                self.time_range_index = before(self.time_range_index, TIME_RANGES);
                KeyOutcome::Refresh
            },
            Key::Other => KeyOutcome::Ignore,
        }
    }
}

/// Computes `place_after`.
fn after(index: usize, count: usize) -> (place: usize)
    ensures
        place == place_after(index as nat, count as nat),
{
    if count == 0 || index >= count - 1 {
        0
    } else {
        index + 1
    }
}

/// Computes `place_before`.
fn before(index: usize, count: usize) -> (place: usize)
    ensures
        place == place_before(index as nat, count as nat),
{
    if count == 0 {
        0
    } else if index == 0 || index > count {
        count - 1
    } else {
        index - 1
    }
}

/// Whether the dashboard is to read the store again, `elapsed` seconds
/// after it last did.
pub fn refresh_due(elapsed: u64) -> (due: bool)
    ensures
        due == (elapsed > REFRESH_SECONDS),
{
    elapsed > REFRESH_SECONDS
}

/// Whether `left` comes after `right` in the order of texts: the first
/// byte in which they differ decides, and a text comes before those that
/// it begins.
pub open spec fn comes_after(left: Seq<u8>, right: Seq<u8>) -> bool
    decreases left.len(),
{
    if left.len() == 0 {
        false
    } else if right.len() == 0 {
        true
    } else if left[0] != right[0] {
        left[0] > right[0]
    } else {
        comes_after(left.drop_first(), right.drop_first())
    }
}

/// Whether the texts `names` stand in rising order.
pub open spec fn in_order(names: Seq<String>) -> bool {
    forall|i: int, j: int|
        0 <= i < j < names.len() ==> !comes_after(
            #[trigger] encode_utf8(names[i]@),
            #[trigger] encode_utf8(names[j]@),
        )
}

/// The devices as pairs of what their names and identifiers read.
pub open spec fn paired(names: Seq<String>, ids: Seq<String>) -> Seq<(Seq<char>, Seq<char>)>
    recommends
        names.len() == ids.len(),
{
    Seq::new(names.len(), |i: int| (names[i]@, ids[i]@))
}

/// The order of texts is one: of two texts at most one comes after the
/// other, and what does not come after a text that does not come after a
/// third does not come after the third.
proof fn lemma_order(a: Seq<u8>, b: Seq<u8>, c: Seq<u8>)
    ensures
        !(comes_after(a, b) && comes_after(b, a)),
        !comes_after(a, b) && !comes_after(b, c) ==> !comes_after(a, c),
    decreases a.len(),
{
    if a.len() > 0 && b.len() > 0 && a[0] == b[0] {
        if c.len() > 0 && b[0] == c[0] {
            lemma_order(a.drop_first(), b.drop_first(), c.drop_first());
        } else {
            lemma_order(a.drop_first(), b.drop_first(), b.drop_first());
        }
    }
}

/// Decides `comes_after` for the bytes of two texts.
fn text_after(left: &String, right: &String) -> (after: bool)
    ensures
        after == comes_after(encode_utf8(left@), encode_utf8(right@)),
{
    let a = left.as_str().as_bytes();
    let b = right.as_str().as_bytes();
    let mut i: usize = 0;
    proof {
        assert(a@.skip(0) =~= a@);
        assert(b@.skip(0) =~= b@);
    }
    while i < a.len() && i < b.len()
        invariant
            i <= a.len(),
            i <= b.len(),
            a@ == encode_utf8(left@),
            b@ == encode_utf8(right@),
            comes_after(a@, b@) == comes_after(a@.skip(i as int), b@.skip(i as int)),
        decreases a.len() - i,
    {
        proof {
            assert(a@.skip(i as int).drop_first() =~= a@.skip(i + 1));
            assert(b@.skip(i as int).drop_first() =~= b@.skip(i + 1));
            assert(a@.skip(i as int)[0] == a@[i as int]);
            assert(b@.skip(i as int)[0] == b@[i as int]);
        }
        if a[i] != b[i] {
            return a[i] > b[i];
        }
        i = i + 1;
    }
    i < a.len()
}

/// Exchanges the texts at `j` and `j + 1`.
fn exchange(texts: &mut Vec<String>, j: usize)
    requires
        j + 1 < old(texts).len(),
    ensures
        final(texts)@ == old(texts)@.update(j as int, old(texts)@[j + 1]).update(
            j + 1,
            old(texts)@[j as int],
        ),
{
    let first = texts[j].clone();
    let second = texts[j + 1].clone();
    texts.set(j, second);
    texts.set(j + 1, first);
}

/// The identifiers of the devices among `devices` whose name reads `name`,
/// in their order.
pub open spec fn named(devices: Seq<(Seq<char>, Seq<char>)>, name: Seq<char>) -> Seq<Seq<char>>
    decreases devices.len(),
{
    if devices.len() == 0 {
        Seq::empty()
    } else {
        let earlier = named(devices.drop_last(), name);
        if devices.last().0 == name {
            earlier.push(devices.last().1)
        } else {
            earlier
        }
    }
}

/// Whether the devices of one name stand in `after` in the order in which
/// they stand in `before`, for every name.
pub open spec fn keeps_order_of_equals(
    before: Seq<(Seq<char>, Seq<char>)>,
    after: Seq<(Seq<char>, Seq<char>)>,
) -> bool {
    forall|name: Seq<char>| #[trigger] named(after, name) == named(before, name)
}

/// Exchanging two neighbours of different names leaves the devices of
/// every name in their order.
proof fn lemma_exchange_keeps_named(devices: Seq<(Seq<char>, Seq<char>)>, j: int, name: Seq<char>)
    requires
        0 <= j,
        j + 1 < devices.len(),
        devices[j].0 != devices[j + 1].0,
    ensures
        named(devices.update(j, devices[j + 1]).update(j + 1, devices[j]), name) == named(
            devices,
            name,
        ),
    decreases devices.len(),
{
    let exchanged = devices.update(j, devices[j + 1]).update(j + 1, devices[j]);
    reveal_with_fuel(named, 3);
    if j + 1 == devices.len() - 1 {
        let rest = devices.drop_last().drop_last();
        assert(exchanged.drop_last().drop_last() =~= rest);
        assert(exchanged.last() == devices[j]);
        assert(exchanged.drop_last().last() == devices[j + 1]);
        assert(devices.drop_last().last() == devices[j]);
        assert(devices.last() == devices[j + 1]);
    } else {
        let shorter = devices.drop_last();
        lemma_exchange_keeps_named(shorter, j, name);
        assert(exchanged.drop_last() =~= shorter.update(j, shorter[j + 1]).update(
            j + 1,
            shorter[j],
        ));
        assert(exchanged.last() == devices.last());
    }
}

/// Sorts the devices by their names, in the order of texts. The
/// identifiers move with the names: the devices are the same as before,
/// each as often as before, and devices of one name keep their order.
pub fn device_bubble_sort(device_names: &mut Vec<String>, device_ids: &mut Vec<String>)
    requires
        old(device_names).len() == old(device_ids).len(),
    ensures
        final(device_names).len() == old(device_names).len(),
        final(device_ids).len() == old(device_ids).len(),
        in_order(final(device_names)@),
        paired(final(device_names)@, final(device_ids)@).to_multiset() == paired(
            old(device_names)@,
            old(device_ids)@,
        ).to_multiset(),
        keeps_order_of_equals(
            paired(old(device_names)@, old(device_ids)@),
            paired(final(device_names)@, final(device_ids)@),
        ),
{
    let n: usize = device_names.len();
    let ghost devices = paired(device_names@, device_ids@).to_multiset();
    let ghost given = paired(device_names@, device_ids@);
    let mut done: usize = 0;
    while done < n
        invariant
            done <= n,
            device_names.len() == n,
            device_ids.len() == n,
            paired(device_names@, device_ids@).to_multiset() == devices,
            keeps_order_of_equals(given, paired(device_names@, device_ids@)),
            // The last `done` names are in order and follow all the others.
            forall|i: int, j: int|
                0 <= i < j < n && n - done <= j ==> !comes_after(
                    #[trigger] encode_utf8(device_names@[i]@),
                    #[trigger] encode_utf8(device_names@[j]@),
                ),
        decreases n - done,
    {
        let mut j: usize = 0;
        while j + 1 < n - done
            invariant
                done < n,
                j < n - done,
                device_names.len() == n,
                device_ids.len() == n,
                paired(device_names@, device_ids@).to_multiset() == devices,
                keeps_order_of_equals(given, paired(device_names@, device_ids@)),
                forall|i: int, k: int|
                    0 <= i < k < n && n - done <= k ==> !comes_after(
                        #[trigger] encode_utf8(device_names@[i]@),
                        #[trigger] encode_utf8(device_names@[k]@),
                    ),
                // The name at `j` follows all before it.
                forall|i: int|
                    0 <= i < j ==> !comes_after(
                        #[trigger] encode_utf8(device_names@[i]@),
                        encode_utf8(device_names@[j as int]@),
                    ),
            decreases n - done - j,
        {
            let ghost names = device_names@;
            let ghost ids = device_ids@;
            let ghost here = encode_utf8(names[j as int]@);
            let ghost next = encode_utf8(names[j + 1]@);
            if text_after(&device_names[j], &device_names[j + 1]) {
                exchange(device_names, j);
                exchange(device_ids, j);
                proof {
                    let before = paired(names, ids);
                    let after = paired(device_names@, device_ids@);
                    assert(after =~= before.update(j as int, before[j + 1]).update(
                        j + 1,
                        before[j as int],
                    ));
                    lemma_exchange_keeps_multiset(before, j as int);
                    // Only names that differ are exchanged.
                    lemma_order(here, here, here);
                    assert(names[j as int]@ != names[j + 1]@);
                    assert forall|name: Seq<char>| #[trigger]
                        named(after, name) == named(given, name) by {
                        lemma_exchange_keeps_named(before, j as int, name);
                    }
                    lemma_order(here, next, next);
                    assert forall|i: int| 0 <= i < j + 1 implies !comes_after(
                        #[trigger] encode_utf8(device_names@[i]@),
                        encode_utf8(device_names@[j + 1]@),
                    ) by {
                        if i < j {
                            assert(device_names@[i] == names[i]);
                        }
                    }
                    assert forall|i: int, k: int| 0 <= i < k < n && n - done <= k implies !comes_after(
                        #[trigger] encode_utf8(device_names@[i]@),
                        #[trigger] encode_utf8(device_names@[k]@),
                    ) by {
                        assert(device_names@[k] == names[k]);
                        if i == j {
                            assert(device_names@[i] == names[j + 1]);
                            assert(!comes_after(
                                encode_utf8(names[j + 1]@),
                                encode_utf8(names[k]@),
                            ));
                        } else if i == j + 1 {
                            assert(device_names@[i] == names[j as int]);
                            assert(!comes_after(
                                encode_utf8(names[j as int]@),
                                encode_utf8(names[k]@),
                            ));
                        } else {
                            assert(device_names@[i] == names[i]);
                        }
                    }
                }
            } else {
                proof {
                    assert forall|i: int| 0 <= i < j + 1 implies !comes_after(
                        #[trigger] encode_utf8(device_names@[i]@),
                        encode_utf8(device_names@[j + 1]@),
                    ) by {
                        if i < j {
                            lemma_order(encode_utf8(names[i]@), here, next);
                        }
                    }
                }
            }
            j = j + 1;
        }
        done = done + 1;
    }
}

/// Exchanging two neighbours leaves every element as often as before.
proof fn lemma_exchange_keeps_multiset<T>(items: Seq<T>, j: int)
    requires
        0 <= j,
        j + 1 < items.len(),
    ensures
        items.update(j, items[j + 1]).update(j + 1, items[j]).to_multiset() == items.to_multiset(),
{
    broadcast use vstd::seq_lib::group_to_multiset_ensures;

    let middle = items.update(j, items[j + 1]);
    let after = middle.update(j + 1, items[j]);
    assert(middle.to_multiset() =~= items.to_multiset().insert(items[j + 1]).remove(items[j]));
    assert(after.to_multiset() =~= middle.to_multiset().insert(items[j]).remove(
        middle[j + 1],
    ));
    assert(middle[j + 1] == items[j + 1]);
    assert(after.to_multiset() =~= items.to_multiset());
}

} // verus!
