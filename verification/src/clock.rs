//! Readings of the clocks. What they read depends on when they are read, so nothing is
//! stated of a reading beyond the range of its type.
use std::time::{Duration, Instant, SystemTime, SystemTimeError};
use vstd::prelude::*;

verus! {

/// A monotonic clock reading; carried, and measured from, never inspected.
#[verifier::external_type_specification]
#[verifier::external_body]
pub struct ExInstant(std::time::Instant);

/// A wall-clock reading; carried, and measured from, never inspected.
#[verifier::external_type_specification]
#[verifier::external_body]
pub struct ExSystemTime(std::time::SystemTime);

/// Calls `Instant::now`.
#[verifier::external_body]
pub(crate) fn instant_now() -> (t: Instant) {
    Instant::now()
}

/// A wall-clock reading before the Unix epoch; carried, never inspected.
#[verifier::external_type_specification]
#[verifier::external_body]
pub struct ExSystemTimeError(std::time::SystemTimeError);

/// Calls `Instant::elapsed`: the time since `t`.
#[verifier::external_body]
fn elapsed(t: &Instant) -> Duration {
    t.elapsed()
}

/// Calls `Duration::as_nanos`: the whole nanoseconds of `d`. A `Duration` counts whole
/// seconds in a `u64`, so the seconds fit in one.
#[verifier::external_body]
fn duration_nanos(d: &Duration) -> (n: u128)
    ensures
        n / 1_000_000_000 <= u64::MAX,
{
    d.as_nanos()
}

/// Calls `Duration::as_secs`: the whole seconds of `d`.
#[verifier::external_body]
fn duration_secs(d: &Duration) -> u64 {
    d.as_secs()
}

/// Calls `SystemTime::duration_since` with `UNIX_EPOCH`: the time from the epoch to `t`,
/// an error when `t` is earlier.
#[verifier::external_body]
fn since_unix_epoch(t: &SystemTime) -> Result<Duration, SystemTimeError> {
    t.duration_since(std::time::UNIX_EPOCH)
}

/// Nanoseconds since `t`.
pub(crate) fn elapsed_nanos(t: &Instant) -> (n: u128)
    ensures
        n / 1_000_000_000 <= u64::MAX,
{
    duration_nanos(&elapsed(t))
}

/// Milliseconds since `t`, as `Duration::as_millis` counts them.
pub(crate) fn millis_since(t: &Instant) -> (ms: u128) {
    elapsed_nanos(t) / 1_000_000
}

/// Whole seconds since `t`, as `Duration::as_secs` counts them.
pub(crate) fn secs_since(t: &Instant) -> (s: u64) {
    (elapsed_nanos(t) / 1_000_000_000) as u64
}

/// Calls `SystemTime::now`.
#[verifier::external_body]
pub(crate) fn system_time_now() -> (t: SystemTime) {
    SystemTime::now()
}

/// Whole seconds from the Unix epoch to `t`, none when `t` is earlier than the epoch.
pub(crate) fn unix_seconds(t: &SystemTime) -> (s: Option<u64>) {
    match since_unix_epoch(t) {
        Ok(d) => Some(duration_secs(&d)),
        Err(_) => None,
    }
}

} // verus!
