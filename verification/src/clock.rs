//! Readings of the wall clock and of the monotonic clock.

use chrono::DateTime;
use chrono::Utc;
use std::time::Instant;
use std::time::SystemTime;
use vstd::prelude::*;

verus! {

#[verifier::external_type_specification]
#[verifier::external_body]
pub struct ExInstant(std::time::Instant);

/// `Instant::now` of std: the current reading of the monotonic clock.
#[verifier::external_body]
pub(crate) fn instant_now() -> Instant {
    Instant::now()
}

/// `Instant::elapsed` of std, in whole milliseconds: the time that has passed since `origin`
/// was read. Nothing is claimed of the number.
#[verifier::external_body]
pub(crate) fn elapsed_millis(origin: &Instant) -> u64 {
    origin.elapsed().as_millis() as u64
}

/// `SystemTime::now` of std, made a `DateTime<Utc>` by the chrono crate's `From` and told by
/// its `timestamp_nanos_opt`: the wall clock as nanoseconds since the start of 1970, negative
/// for a clock set before that, or nothing where the number does not fit in 64 bits. Nothing
/// is claimed of the number.
#[verifier::external_body]
pub(crate) fn utc_now_nanos() -> Option<i64> {
    DateTime::<Utc>::from(SystemTime::now()).timestamp_nanos_opt()
}

/// Nanoseconds in a second.
pub const NANOS_PER_SECOND: i64 = 1_000_000_000;

/// The wall clock in nanoseconds since the start of 1970, or 0 where the time is beyond what
/// 64 bits hold.
pub fn wall_clock_nanos() -> (nanos: i64) {
    match utc_now_nanos() {
        Some(nanos) => nanos,
        None => 0,
    }
}

/// The largest number of whole seconds that a clock counting nanoseconds in 64 bits can tell.
pub const MAX_CLOCK_SECONDS: i64 = 9_223_372_036;

/// Whether `seconds` is a number of seconds that the wall clock can tell.
pub open spec fn is_clock_reading(seconds: i64) -> bool {
    -MAX_CLOCK_SECONDS <= seconds <= MAX_CLOCK_SECONDS
}

/// The wall clock in whole seconds since the start of 1970. The clock counts nanoseconds in
/// 64 bits, so it tells no time further than `MAX_CLOCK_SECONDS` from the start of 1970.
pub fn wall_clock_seconds() -> (seconds: i64)
    ensures
        is_clock_reading(seconds),
{
    wall_clock_nanos() / NANOS_PER_SECOND
}

} // verus!
