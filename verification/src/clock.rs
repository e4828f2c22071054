//! Time as the library sees it: a monotonic clock started when a cache or a
//! limiter is built, read as whole nanoseconds since that start.
//!
//! Every decision that depends on time is made by a function that takes the
//! current reading as an argument, so it is verified for every reading.

use std::time::Duration;
use std::time::Instant;
use vstd::prelude::*;

verus! {

#[verifier::external_type_specification]
#[verifier::external_body]
pub struct ExInstant(Instant);

/// Nanoseconds in one second.
pub const NANOS_PER_SEC: u128 = 1_000_000_000;

/// The largest number of nanoseconds a `Duration` holds: `u64::MAX` seconds
/// plus just under one more second.
pub const MAX_DURATION_NANOS: u128 = 18_446_744_073_709_551_615_999_999_999;

/// Time that has passed from `start` to `now`, saturating at zero when `now`
/// lies before `start` (as `Instant::duration_since` does).
pub open spec fn elapsed(start: u128, now: u128) -> u128 {
    if now >= start {
        (now - start) as u128
    } else {
        0
    }
}

/// Calls `Instant::now`. Nothing is stated of the reading: it comes from the
/// machine's clock.
#[verifier::external_body]
pub(crate) fn clock_start() -> Instant {
    Instant::now()
}

/// Calls `Instant::elapsed`. Nothing is stated of the result: it depends on
/// when the call is made.
#[verifier::external_body]
pub(crate) fn instant_elapsed(start: &Instant) -> Duration {
    start.elapsed()
}

/// Calls `Duration::as_nanos`. A `Duration` holds at most `u64::MAX` whole
/// seconds and fewer than a billion nanoseconds besides, so the count is at
/// most `MAX_DURATION_NANOS`. Which count it is, is not stated: a `Duration`
/// is opaque here (it is only ever a clock reading).
#[verifier::external_body]
pub(crate) fn duration_as_nanos(d: &Duration) -> (r: u128)
    ensures
        r <= MAX_DURATION_NANOS,
{
    d.as_nanos()
}

/// Reads the clock started at `start`, in nanoseconds. Nothing is stated of
/// the reading beyond its range.
pub(crate) fn clock_now(start: &Instant) -> (r: u128)
    ensures
        r <= MAX_DURATION_NANOS,
{
    let d = instant_elapsed(start);
    duration_as_nanos(&d)
}

} // verus!
