use std::time::{Duration, Instant};
use vstd::prelude::*;

verus! {

/// A point in time of the monotonic clock; opaque to the proofs.
#[verifier::external_type_specification]
#[verifier::external_body]
pub struct ExInstant(Instant);

/// `Instant::now` reads the monotonic clock. What it returns depends on the
/// time of the call, so nothing is claimed of it.
pub assume_specification[ Instant::now ]() -> Instant;

/// `Instant::elapsed` measures the time since `since` on the monotonic clock.
/// It depends on the time of the call, so nothing is claimed of it.
pub assume_specification[ Instant::elapsed ](since: &Instant) -> Duration;

/// `Duration::as_nanos`: the whole nanoseconds of a duration. Durations are
/// opaque here, so nothing is claimed of the number.
pub assume_specification[ Duration::as_nanos ](d: &Duration) -> u128;

/// The time from `earlier` to `now`, saturating at zero, as
/// `Instant::duration_since` measures it.
pub open spec fn nanos_between(earlier: u128, now: u128) -> int {
    if now >= earlier {
        now - earlier
    } else {
        0
    }
}

/// Whether at least `millis` milliseconds passed from `earlier` to `now`
/// (both in nanoseconds since the same origin).
pub fn waited_at_least(earlier: u128, now: u128, millis: u64) -> (b: bool)
    ensures
        b == (nanos_between(earlier, now) >= millis as int * 1_000_000),
{
    let gap: u128 = if now >= earlier {
        now - earlier
    } else {
        0
    };
    let limit: u128 = millis as u128 * 1_000_000;
    gap >= limit
}

} // verus!
