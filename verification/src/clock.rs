//! The wall clock, read as milliseconds or microseconds since the Unix epoch.

use std::time::{Duration, SystemTime, UNIX_EPOCH};

use vstd::prelude::*;

verus! {

/// A point in time of the system clock.
#[verifier::external_type_specification]
#[verifier::external_body]
pub struct ExSystemTime(SystemTime);

/// `SystemTime::now`: the current time of the system clock. Nothing is
/// promised of the value; the clock may even go backwards.
#[verifier::external_body]
fn system_time_now() -> SystemTime {
    SystemTime::now()
}

/// `SystemTime::duration_since` against the Unix epoch, `None` for a time
/// before it. Nothing is promised of the value, which depends on the clock.
#[verifier::external_body]
fn elapsed_since_unix_epoch(time: &SystemTime) -> Option<Duration> {
    time.duration_since(UNIX_EPOCH).ok()
}

/// `Duration::as_micros`: whole microseconds of a duration. Nothing is
/// promised of the value of an opaque duration.
#[verifier::external_body]
fn duration_micros(duration: &Duration) -> u128 {
    duration.as_micros()
}

/// `Duration::as_millis`: whole milliseconds of a duration. Nothing is
/// promised of the value of an opaque duration.
#[verifier::external_body]
fn duration_millis(duration: &Duration) -> u128 {
    duration.as_millis()
}

/// Milliseconds since the Unix epoch by the system clock (0 for a clock set
/// before the epoch), truncated to 64 bits. Its value depends on the clock.
pub fn unix_time_ms() -> u64 {
    let now = system_time_now();
    match elapsed_since_unix_epoch(&now) {
        Some(elapsed) => duration_millis(&elapsed) as u64,
        None => 0,
    }
}

/// Microseconds since the Unix epoch by the system clock (0 for a clock set
/// before the epoch), truncated to 64 bits. Its value depends on the clock.
pub fn unix_time_micros() -> u64 {
    let now = system_time_now();
    match elapsed_since_unix_epoch(&now) {
        Some(elapsed) => duration_micros(&elapsed) as u64,
        None => 0,
    }
}

} // verus!
