//! Readings of the system clock.
use std::time::{Duration, SystemTime};
use vstd::prelude::*;

verus! {

#[verifier::external_type_specification]
#[verifier::external_body]
pub struct ExSystemTime(std::time::SystemTime);

/// Calls `SystemTime::now`. The reading depends on the machine's clock, so nothing is
/// stated of it.
#[verifier::external_body]
pub(crate) fn system_now() -> SystemTime {
    SystemTime::now()
}

/// Calls `SystemTime::duration_since` with `UNIX_EPOCH`; `None` stands for its error,
/// which it gives when the time lies before the epoch. Nothing is stated of the duration,
/// which depends on the clock reading.
#[verifier::external_body]
pub(crate) fn since_unix_epoch(t: &SystemTime) -> Option<Duration> {
    t.duration_since(std::time::UNIX_EPOCH).ok()
}

/// The whole milliseconds of a duration, as `Duration::as_millis` gives them.
pub uninterp spec fn whole_millis(d: Duration) -> u128;

/// The whole seconds of a duration, as `Duration::as_secs` gives them.
pub uninterp spec fn whole_secs(d: Duration) -> u64;

/// Calls `Duration::as_millis`; its result is the name `whole_millis` of the duration.
#[verifier::external_body]
pub(crate) fn duration_millis(d: &Duration) -> (r: u128)
    ensures
        r == whole_millis(*d),
{
    d.as_millis()
}

/// Calls `Duration::as_secs`; its result is the name `whole_secs` of the duration.
#[verifier::external_body]
pub(crate) fn duration_secs(d: &Duration) -> (r: u64)
    ensures
        r == whole_secs(*d),
{
    d.as_secs()
}

/// Milliseconds since the epoch for a reading of the time since the epoch: its whole
/// milliseconds, or 0 when the clock read a time before the epoch (no reading).
pub open spec fn millis_of_reading_spec(reading: Option<Duration>) -> u128 {
    match reading {
        Some(d) => whole_millis(d),
        None => 0,
    }
}

/// Seconds since the epoch for a reading of the time since the epoch: its whole seconds, or
/// 0 when the clock read a time before the epoch (no reading).
pub open spec fn secs_of_reading_spec(reading: Option<Duration>) -> u64 {
    match reading {
        Some(d) => whole_secs(d),
        None => 0,
    }
}

/// Milliseconds since the epoch for a clock reading.
pub fn millis_of_reading(reading: Option<Duration>) -> (ms: u128)
    ensures
        ms == millis_of_reading_spec(reading),
{
    match reading {
        Some(d) => duration_millis(&d),
        None => 0,
    }
}

/// Seconds since the epoch for a clock reading.
pub fn secs_of_reading(reading: Option<Duration>) -> (s: u64)
    ensures
        s == secs_of_reading_spec(reading),
{
    match reading {
        Some(d) => duration_secs(&d),
        None => 0,
    }
}

} // verus!
