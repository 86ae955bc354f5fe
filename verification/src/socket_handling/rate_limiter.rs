//! The least spacing between two samples of one device.

use vstd::prelude::*;
use vstd::hash_map::StringHashMap;
use crate::constants::MIN_INPUT_INTERVAL;

verus! {

/// The ledger of the times at which each device last had a sample
/// accepted: a hash map from device identifiers to times. It is empty at
/// the start, is kept in memory only, and never loses an entry.
pub struct RateLimiter {
    ledger: StringHashMap<i64>,
}

/// Whether a sample that arrives at `now` is far enough from the one that
/// `ledger` holds for `device_id`. A device without an entry counts as
/// last accepted at time zero.
pub open spec fn far_enough(ledger: Map<Seq<char>, i64>, device_id: Seq<char>, now: i64) -> bool {
    now - last_accepted(ledger, device_id) >= MIN_INPUT_INTERVAL
}

/// The time that `ledger` holds for `device_id`, zero where it holds none.
pub open spec fn last_accepted(ledger: Map<Seq<char>, i64>, device_id: Seq<char>) -> int {
    if ledger.contains_key(device_id) {
        ledger[device_id] as int
    } else {
        0
    }
}

impl RateLimiter {
    /// The ledger as a map from device identifiers to times.
    pub closed spec fn view(&self) -> Map<Seq<char>, i64> {
        self.ledger@
    }

    /// An empty ledger.
    pub fn new() -> (limiter: RateLimiter)
        ensures
            limiter@ == Map::<Seq<char>, i64>::empty(),
    {
        RateLimiter { ledger: StringHashMap::new() }
    }

    /// The time at which `device_id` last had a sample accepted, zero where
    /// it never had.
    pub fn last(&self, device_id: &String) -> (time: i64)
        ensures
            time == last_accepted(self@, device_id@),
    {
        match self.ledger.get(device_id.as_str()) {
            Some(time) => *time,
            None => 0,
        }
    }

    /// Decides on a sample of `device_id` that arrives at `now`. It is
    /// accepted where at least `MIN_INPUT_INTERVAL` seconds have passed since
    /// the last accepted one; the ledger then holds `now` for the device, and
    /// is left as it was where the sample is refused.
    pub fn accept(&mut self, device_id: &String, now: i64) -> (accepted: bool)
        ensures
            accepted == far_enough(old(self)@, device_id@, now),
            accepted ==> final(self)@ == old(self)@.insert(device_id@, now),
            !accepted ==> final(self)@ == old(self)@,
    {
        let last: i64 = self.last(device_id);
        if (now as i128) - (last as i128) < (MIN_INPUT_INTERVAL as i128) {
            return false;
        }
        self.ledger.insert(device_id.clone(), now);
        true
    }
}

/// Two samples of one device: after the first was accepted at `first`, a
/// second one at `second` is accepted exactly where `MIN_INPUT_INTERVAL`
/// seconds lie between them.
pub proof fn lemma_spacing(
    ledger: Map<Seq<char>, i64>,
    device_id: Seq<char>,
    first: i64,
    second: i64,
)
    ensures
        far_enough(ledger.insert(device_id, first), device_id, second) <==> second - first
            >= MIN_INPUT_INTERVAL,
{
}

} // verus!
