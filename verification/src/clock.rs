//! The time of day.

use vstd::prelude::*;

verus! {

/// `SystemTime::elapsed` on the Unix epoch gives the time since then, or fails
/// where the system clock shows an earlier time; it is taken in whole seconds.
/// Nothing is said of the result, which is up to the clock.
#[verifier::external_body]
fn since_epoch() -> (r: Option<u64>) {
    match std::time::UNIX_EPOCH.elapsed() {
        Ok(d) => Some(d.as_secs()),
        Err(_) => None,
    }
}

/// The whole seconds since the Unix epoch, or `None` where the system clock
/// shows an earlier time. Any value may come back: it is up to the clock.
pub fn unix_seconds() -> (r: Option<u64>) {
    since_epoch()
}

/// The seconds that a clock showed, or zero where it was before the epoch.
pub fn or_zero(seconds: Option<u64>) -> (r: u64)
    ensures
        r == match seconds {
            Some(s) => s,
            None => 0,
        },
{
    match seconds {
        Some(s) => s,
        None => 0,
    }
}

} // verus!
