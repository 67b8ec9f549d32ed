//! Readings of the system's clocks. What they return depends on when they
//! are called, so nothing is promised of the values.

use vstd::prelude::*;

verus! {

/// A monotonic clock reading (`std::time::Instant`).
#[verifier::external_type_specification]
#[verifier::external_body]
pub struct ExInstant(std::time::Instant);

/// A reading of the system clock (`std::time::SystemTime`).
#[verifier::external_type_specification]
#[verifier::external_body]
pub struct ExSystemTime(std::time::SystemTime);

/// The error of a system clock reading earlier than the time it is measured
/// from (`std::time::SystemTimeError`).
#[verifier::external_type_specification]
#[verifier::external_body]
pub struct ExSystemTimeError(std::time::SystemTimeError);

/// The current reading of the monotonic clock (`Instant::now`).
#[verifier::external_body]
pub(crate) fn instant_now() -> std::time::Instant {
    std::time::Instant::now()
}

/// The time elapsed since `start` (`Instant::elapsed`). Nothing is promised
/// of the value: it depends on when the call is made.
#[verifier::external_body]
pub(crate) fn elapsed_since(start: &std::time::Instant) -> std::time::Duration {
    start.elapsed()
}

/// The whole microseconds in a duration (`Duration::as_micros`).
#[verifier::external_body]
pub(crate) fn duration_micros(d: &std::time::Duration) -> u128 {
    d.as_micros()
}

/// The current reading of the system clock (`SystemTime::now`).
#[verifier::external_body]
pub(crate) fn system_now() -> std::time::SystemTime {
    std::time::SystemTime::now()
}

/// The time from the Unix epoch to `t` (`SystemTime::duration_since` with
/// `UNIX_EPOCH`); an error when `t` is before the epoch.
#[verifier::external_body]
pub(crate) fn since_unix_epoch(
    t: &std::time::SystemTime,
) -> Result<std::time::Duration, std::time::SystemTimeError> {
    t.duration_since(std::time::UNIX_EPOCH)
}

/// The whole seconds in a duration (`Duration::as_secs`).
#[verifier::external_body]
pub(crate) fn duration_secs(d: &std::time::Duration) -> u64 {
    d.as_secs()
}

/// Whole seconds since the Unix epoch by the system clock; a clock set
/// before the epoch reads as zero.
pub(crate) fn unix_time_secs() -> u64 {
    let now = system_now();
    match since_unix_epoch(&now) {
        Ok(d) => duration_secs(&d),
        Err(_) => 0,
    }
}

/// Whole microseconds elapsed since `start`, at most `u64::MAX`.
pub(crate) fn micros_since(start: &std::time::Instant) -> u64 {
    let m = duration_micros(&elapsed_since(start));
    if m > 0xffff_ffff_ffff_ffffu128 {
        u64::MAX
    } else {
        m as u64
    }
}

/// Whole seconds elapsed since `start`: the microsecond reading divided by
/// a million, so never more than `u64::MAX / 1_000_000`.
pub(crate) fn secs_since(start: &std::time::Instant) -> (s: u64)
    ensures
        s <= u64::MAX / 1_000_000,
{
    micros_since(start) / 1_000_000
}

/// Whole milliseconds elapsed since `start`: the microsecond reading
/// divided by a thousand, so never more than `u64::MAX / 1_000`.
pub(crate) fn millis_since(start: &std::time::Instant) -> (ms: u64)
    ensures
        ms <= u64::MAX / 1_000,
{
    micros_since(start) / 1_000
}

} // verus!
