//! Durations in whole milliseconds, a monotonic millisecond clock and the
//! wall clock.

use vstd::prelude::*;

verus! {

/// A span of time in whole milliseconds. It holds every span that a
/// standard duration of whole milliseconds holds (up to `u64::MAX`
/// seconds), and more.
#[derive(Debug, Clone, Copy, PartialEq, Eq, Structural)]
pub struct Duration {
    pub millis: u128,
}

impl Duration {
    /// A duration of `millis` milliseconds.
    pub fn from_millis(millis: u64) -> (d: Duration)
        ensures
            d.millis == millis,
    {
        Duration { millis: millis as u128 }
    }

    /// A duration of `secs` seconds.
    pub fn from_secs(secs: u64) -> (d: Duration)
        ensures
            d.millis == secs * 1000,
    {
        Duration { millis: (secs as u128) * 1000 }
    }

    /// The length of this duration in milliseconds.
    pub fn as_millis(&self) -> (ms: u128)
        ensures
            ms == self.millis,
    {
        self.millis
    }

    /// The length of this duration in whole seconds; a standard duration's
    /// seconds fit a `u64`.
    pub fn as_secs(&self) -> (s: u64)
        requires
            self.millis / 1000 <= u64::MAX,
        ensures
            s == self.millis / 1000,
    {
        (self.millis / 1000) as u64
    }

    /// The zero duration.
    pub fn zero() -> (d: Duration)
        ensures
            d.millis == 0,
    {
        Duration { millis: 0 }
    }
}

#[verifier::external_type_specification]
#[verifier::external_body]
pub struct ExInstant(std::time::Instant);

/// Reads the monotonic clock (`Instant::now`).
#[verifier::external_body]
pub(crate) fn instant_now() -> std::time::Instant {
    std::time::Instant::now()
}

/// Time elapsed since `origin` on the monotonic clock (`Instant::elapsed`).
/// Nothing is stated of the value: it depends on when the call happens.
#[verifier::external_body]
fn instant_elapsed(origin: &std::time::Instant) -> std::time::Duration {
    origin.elapsed()
}

/// The whole milliseconds of a standard duration (`Duration::as_millis`).
/// The standard duration is opaque here, so nothing is stated of the value.
#[verifier::external_body]
fn std_duration_millis(d: &std::time::Duration) -> u128 {
    d.as_millis()
}

/// The current time in nanoseconds since the Unix epoch
/// (`chrono::Utc::now`). Nothing is promised of its value; a time outside
/// the range an `i64` of nanoseconds covers reads as `i64::MAX`.
#[verifier::external_body]
pub(crate) fn now_nanos() -> (t: i64) {
    chrono::Utc::now().timestamp_nanos_opt().unwrap_or(i64::MAX)
}

/// Whole milliseconds elapsed since `origin` on the monotonic clock,
/// saturating at `u64::MAX`.
pub(crate) fn millis_since(origin: &std::time::Instant) -> u64 {
    let elapsed = instant_elapsed(origin);
    let ms = std_duration_millis(&elapsed);
    if ms > 0xFFFF_FFFF_FFFF_FFFFu128 {
        u64::MAX
    } else {
        ms as u64
    }
}

} // verus!
