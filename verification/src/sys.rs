//! Trusted bridges to the environment: fresh identifiers and the clock.

use vstd::prelude::*;

verus! {

/// Relies on `uuid::Uuid::new_v4`: a freshly generated random 128-bit value.
/// Nothing is promised of the value itself.
#[verifier::external_body]
pub fn fresh_uid_value() -> u128 {
    uuid::Uuid::new_v4().as_u128()
}

/// Relies on `chrono::Utc::now` and `timestamp_millis`: milliseconds since
/// the Unix epoch.  Nothing is promised of the value itself.
#[verifier::external_body]
pub fn now_millis_raw() -> i64 {
    chrono::Utc::now().timestamp_millis()
}

/// The milliseconds-since-epoch reading of an RFC 3339 timestamp text, or
/// nothing when the text is not such a timestamp.  The result is a function
/// of the text alone; its value is not axiomatised here.
pub uninterp spec fn rfc3339_millis_of(s: Seq<char>) -> Option<i64>;

/// Relies on `chrono::DateTime::parse_from_rfc3339` and `timestamp_millis`:
/// parses an RFC 3339 timestamp, whose reading depends on the text alone.
#[verifier::external_body]
pub fn parse_rfc3339_millis(s: &str) -> (r: Option<i64>)
    ensures
        r == rfc3339_millis_of(s@),
{
    match chrono::DateTime::parse_from_rfc3339(s) {
        Ok(t) => Some(t.timestamp_millis()),
        Err(_) => None,
    }
}

/// Return the current UTC time as milliseconds since the Unix epoch, clamped
/// below at zero.
pub fn now_utc() -> u64 {
    let t: i64 = now_millis_raw();
    if t < 0 {
        0
    } else {
        t as u64
    }
}

} // verus!
