//! The clock that stamps samples.

use vstd::prelude::*;

verus! {

/// `chrono::Utc::now` as seconds since the Unix epoch. The result is the
/// time of the call, so nothing is promised of it. The call panics where
/// the clock of the machine stands before 1970.
#[verifier::external_body]
pub fn get_unix_timestamp() -> (seconds: i64) {
    chrono::Utc::now().timestamp()
}

} // verus!
