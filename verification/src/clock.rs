//! The wall clock.

use vstd::prelude::*;

verus! {

/// Milliseconds since the Unix epoch: the system time, turned into a
/// `chrono::DateTime<Utc>` by chrono's `From<SystemTime>` and read with
/// `timestamp_millis`. That conversion also takes a clock that stands
/// before the epoch, for which the reading is negative and wraps around.
/// Nothing is promised of the value: two readings may even go backwards.
#[verifier::external_body]
pub(crate) fn now_millis() -> (ms: u64) {
    chrono::DateTime::<chrono::Utc>::from(std::time::SystemTime::now()).timestamp_millis() as u64
}

/// Seconds since the Unix epoch: the system time, turned into a
/// `chrono::DateTime<Utc>` by chrono's `From<SystemTime>` and read with
/// `timestamp`. Nothing is promised of the value.
#[verifier::external_body]
pub(crate) fn now_seconds() -> (s: i64) {
    chrono::DateTime::<chrono::Utc>::from(std::time::SystemTime::now()).timestamp()
}

/// The current time as an RFC 3339 text: the system time, turned into a
/// `chrono::DateTime<Utc>` by chrono's `From<SystemTime>` and written with
/// `to_rfc3339`. Nothing is promised of the text.
#[verifier::external_body]
pub(crate) fn now_rfc3339() -> (text: String) {
    chrono::DateTime::<chrono::Utc>::from(std::time::SystemTime::now()).to_rfc3339()
}

} // verus!
