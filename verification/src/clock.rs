//! Instants: reading the clock, and the text form in which the store keeps
//! an instant.
//!
//! An instant is a number of milliseconds since the beginning of 1970 in UTC.

use vstd::prelude::*;

verus! {

/// The instant that an RFC 3339 text denotes, as `chrono` reads it, to the
/// millisecond; `None` for text that `chrono` does not accept.
pub uninterp spec fn rfc3339_instant(text: Seq<char>) -> Option<i64>;

/// The RFC 3339 text that `chrono` writes for an instant; `None` for an
/// instant outside the dates that `chrono` can hold.
pub uninterp spec fn rfc3339_text(instant: i64) -> Option<Seq<char>>;

/// The present instant, from `chrono::Utc::now`.
///
/// Nothing is claimed of the result. `chrono` stops the program if the system
/// clock stands before 1970.
#[verifier::external_body]
pub(crate) fn now_millis() -> (now: i64) {
    chrono::Utc::now().timestamp_millis()
}

/// Reads an RFC 3339 text with `chrono::DateTime::parse_from_rfc3339`.
///
/// The contract only names the result: the same text always gives the same
/// answer, whatever `chrono` makes of it.
#[verifier::external_body]
pub(crate) fn parse_rfc3339(text: &str) -> (instant: Option<i64>)
    ensures
        instant == rfc3339_instant(text@),
{
    match chrono::DateTime::parse_from_rfc3339(text) {
        Ok(at) => Some(at.timestamp_millis()),
        Err(_) => None,
    }
}

/// Writes an instant with `chrono::DateTime::to_rfc3339`.
///
/// The contract only names the result: the same instant always gives the
/// same text, and none where `chrono::DateTime::from_timestamp_millis` finds
/// the instant out of range.
#[verifier::external_body]
pub(crate) fn format_rfc3339(instant: i64) -> (text: Option<String>)
    ensures
        match text {
            Some(t) => rfc3339_text(instant) == Some(t@),
            None => rfc3339_text(instant) is None,
        },
{
    match chrono::DateTime::from_timestamp_millis(instant) {
        Some(at) => Some(at.to_rfc3339()),
        None => None,
    }
}

} // verus!
