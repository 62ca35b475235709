//! The wall clock, read in whole seconds.

use std::time::{Duration, UNIX_EPOCH};
use vstd::prelude::*;

verus! {

/// The whole seconds in a span of time, as `Duration::as_secs` gives them:
/// what the span holds beyond its last whole second is cut off, not rounded.
pub uninterp spec fn seconds_in(span: Duration) -> u64;

/// Calls `SystemTime::elapsed` on `UNIX_EPOCH`: the time that has passed
/// since the epoch by the system clock, or nothing where that clock stands
/// before the epoch. The result is the clock's; nothing is claimed of it.
#[verifier::external_body]
fn since_epoch() -> Option<Duration> {
    UNIX_EPOCH.elapsed().ok()
}

/// Calls `Duration::as_secs`. The contract claims only that the result is
/// the whole seconds of this span, the same for the same span.
#[verifier::external_body]
fn whole_seconds(span: &Duration) -> (secs: u64)
    ensures
        secs == seconds_in(*span),
{
    span.as_secs()
}

/// The timestamp that a reading of the clock gives: the whole seconds of
/// the time since the epoch, and none where the clock stands before the
/// epoch and so gives no such time.
pub open spec fn seconds_spec(reading: Option<Duration>) -> Option<u64> {
    match reading {
        Some(span) => Some(seconds_in(span)),
        None => None,
    }
}

/// The timestamp of the reading `elapsed`: its whole seconds, where the
/// clock has given a time since the epoch.
pub fn seconds_of(elapsed: Option<Duration>) -> (seconds: Option<u64>)
    ensures
        seconds == seconds_spec(elapsed),
{
    match elapsed {
        Some(span) => Some(whole_seconds(&span)),
        None => None,
    }
}

/// The time now, in whole seconds since the epoch; `None` if the system
/// clock stands before the epoch. The clock is read once, and the result is
/// the timestamp of that reading. Which reading it is only the clock says,
/// so two calls need not agree.
pub fn timestamp() -> (seconds: Option<u64>)
    ensures
        exists|reading: Option<Duration>| seconds == #[trigger] seconds_spec(reading),
{
    seconds_of(since_epoch())
}

} // verus!
