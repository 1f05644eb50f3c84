//! The note date parser. Calendar arithmetic is done by the `chrono`
//! crate; its result is named, not restated: `utc_datetime_of` stands for
//! the Unix timestamp that chrono derives from a date string under a
//! given format.

use vstd::prelude::*;

verus! {

/// The timestamp, in seconds since the Unix epoch, that parsing `s` as a
/// UTC date-and-time under the strftime format `fmt` yields; `None` where
/// the string does not parse under that format. The result is a function
/// of the two strings alone.
pub uninterp spec fn utc_datetime_of(s: Seq<char>, fmt: Seq<char>) -> Option<i64>;

/// Relies on `chrono::NaiveDateTime::parse_from_str` and
/// `chrono::DateTime::timestamp`: parsing a date string under a fixed
/// format, read as UTC, is deterministic in the two strings, and the
/// timestamp counts non-leap seconds since the Unix epoch.
#[verifier::external_body]
pub fn parse_datetime_utc(s: &str, fmt: &str) -> (r: Option<i64>)
    ensures
        r == utc_datetime_of(s@, fmt@),
{
    match chrono::NaiveDateTime::parse_from_str(s, fmt) {
        Ok(dt) => Some(dt.and_utc().timestamp()),
        Err(_) => None,
    }
}

} // verus!
