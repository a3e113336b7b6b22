//! Durations and clock readings, which the library carries without interpreting.
use std::time::{Duration, Instant, SystemTime, UNIX_EPOCH};
use vstd::prelude::*;

verus! {

#[verifier::external_type_specification]
#[verifier::external_body]
pub struct ExInstant(Instant);

/// `Clone` on `Duration`, a `Copy` type: the copy is the same duration.
pub assume_specification[ <Duration as Clone>::clone ](d: &Duration) -> (r: Duration)
    ensures
        r == *d,
;

/// The duration of `secs` seconds.
pub uninterp spec fn secs_duration(secs: u64) -> Duration;

/// The duration of `millis` milliseconds.
pub uninterp spec fn millis_duration(millis: u64) -> Duration;

/// The longer of two durations.
pub uninterp spec fn longer_duration(a: Duration, b: Duration) -> Duration;

/// `d` taken `n` times, held at the largest duration.
pub uninterp spec fn scaled_duration(d: Duration, n: u32) -> Duration;

/// `Duration::from_secs`.
#[verifier::external_body]
pub fn duration_from_secs(secs: u64) -> (r: Duration)
    ensures
        r == secs_duration(secs),
{
    Duration::from_secs(secs)
}

/// `Duration::from_millis`.
#[verifier::external_body]
pub fn duration_from_millis(millis: u64) -> (r: Duration)
    ensures
        r == millis_duration(millis),
{
    Duration::from_millis(millis)
}

/// `Ord::max` on durations: the longer of the two, which is one of them.
#[verifier::external_body]
pub fn duration_max(a: Duration, b: Duration) -> (r: Duration)
    ensures
        r == longer_duration(a, b),
        r == a || r == b,
{
    a.max(b)
}

/// `Duration::saturating_mul`: `d` taken `n` times, or the largest duration where
/// that overflows.
#[verifier::external_body]
pub fn duration_saturating_mul(d: Duration, n: u32) -> (r: Duration)
    ensures
        r == scaled_duration(d, n),
{
    d.saturating_mul(n)
}

/// The whole milliseconds of a duration.
pub uninterp spec fn duration_millis(d: Duration) -> u128;

/// `Duration::as_millis`: the whole milliseconds of `d`.
#[verifier::external_body]
pub fn duration_as_millis(d: Duration) -> (r: u128)
    ensures
        r == duration_millis(d),
{
    d.as_millis()
}

/// `Instant::now`: a reading of the monotonic clock.
#[verifier::external_body]
pub fn instant_now() -> Instant {
    Instant::now()
}

/// `Instant::elapsed`: the time since `start`.
#[verifier::external_body]
pub fn elapsed_since(start: &Instant) -> Duration {
    start.elapsed()
}

/// `SystemTime::now` since the Unix epoch, in whole milliseconds (0 for a clock set
/// before the epoch). It depends on the machine's clock: nothing is stated of it.
#[verifier::external_body]
pub fn unix_millis_now() -> u64 {
    match SystemTime::now().duration_since(UNIX_EPOCH) {
        Ok(d) => d.as_millis() as u64,
        Err(_) => 0,
    }
}

} // verus!
