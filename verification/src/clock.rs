//! The process clock, behind a trusted boundary. Nothing can be
//! promised of the instant a clock reports, so the library clamps the
//! reading into the range of timestamps the store accepts and states
//! of every operation what holds whatever the clock returned.

use vstd::prelude::*;

use crate::store::TIMESTAMP_MAX;

verus! {

/// Relies on std's SystemTime::now and duration_since(UNIX_EPOCH):
/// the current instant as unix seconds. Both arms of the epoch
/// comparison are handled, so the read returns normally in every
/// environment: a clock set before 1970 reads as 0, one beyond the
/// signed range saturates. Nothing is promised of the value.
#[verifier::external_body]
fn current_unix_time() -> i64 {
    match std::time::SystemTime::now().duration_since(std::time::UNIX_EPOCH) {
        Ok(d) => d.as_secs().min(i64::MAX as u64) as i64,
        Err(_) => 0,
    }
}

/// The clock's reading, clamped into the range of instants the store
/// accepts (the years 1970 through 9999).
pub fn clamped_now() -> (t: i64)
    ensures
        0 <= t <= TIMESTAMP_MAX,
{
    let t = current_unix_time();
    if t < 0 {
        0
    } else if t > TIMESTAMP_MAX {
        TIMESTAMP_MAX
    } else {
        t
    }
}

} // verus!
