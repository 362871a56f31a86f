//! Wall-clock readings.

use vstd::prelude::*;

verus! {

/// Reads `std::time::SystemTime::now` as whole seconds since the Unix epoch,
/// zero when the clock stands before the epoch. The reading depends on the
/// moment of the call, so nothing is claimed of it.
#[verifier::external_body]
pub(crate) fn unix_seconds_now() -> (seconds: u64) {
    std::time::SystemTime::now().duration_since(std::time::UNIX_EPOCH).map_or(0, |d| d.as_secs())
}

/// Reads the clock in milliseconds since the Unix epoch: the time since the
/// epoch from `std::time::SystemTime::now`, made a date by
/// `chrono::DateTime::from_timestamp` and counted by `timestamp_millis`.
/// Neither conversion panics: a clock that stands before the epoch, or
/// beyond the dates chrono can hold, reads as zero. The reading depends on
/// the moment of the call, so nothing is claimed of it.
#[verifier::external_body]
pub(crate) fn unix_millis_now() -> (millis: i64) {
    std::time::SystemTime::now()
        .duration_since(std::time::UNIX_EPOCH)
        .ok()
        .and_then(|d| chrono::DateTime::from_timestamp(d.as_secs() as i64, d.subsec_nanos()))
        .map_or(0, |t| t.timestamp_millis())
}

} // verus!
