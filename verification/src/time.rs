//! Instants and their RFC 3339 rendering.
//!
//! The library carries every instant as milliseconds since the Unix epoch.
//! Rendering to and parsing from RFC 3339 text is chrono's work, reached
//! through the two trusted functions below.

use vstd::prelude::*;
use crate::text::is_digit_char;

verus! {

/// The last millisecond renderable in RFC 3339: 9999-12-31T23:59:59.999Z.
/// Every timestamp the library stores stays at or below this bound.
pub const TS_MAX_MILLIS: u64 = 253402300799999;

/// The RFC 3339 rendering that chrono gives a UTC instant, e.g.
/// `1996-12-19T16:39:57.123+00:00`.  A function of the instant alone.
pub uninterp spec fn rfc3339_of(ms: nat) -> Seq<char>;

/// What chrono's RFC 3339 parser makes of a string: the instant in
/// milliseconds since the epoch, or nothing when the text does not parse
/// or the instant lies before the epoch or beyond `u64`.  A function of
/// the text alone.
pub uninterp spec fn rfc3339_parse_of(s: Seq<char>) -> Option<u64>;

/// A character that can appear in chrono's RFC 3339 rendering: digits and
/// the five punctuation marks of the format.
pub open spec fn is_rfc3339_char(c: char) -> bool {
    is_digit_char(c) || c == '-' || c == ':' || c == 'T' || c == '.' || c == '+'
}

/// Relies on `chrono::DateTime::from_timestamp_millis` and
/// `DateTime::to_rfc3339`: renders the instant as RFC 3339 text with a
/// `+00:00` offset.  chrono documents that `parse_from_rfc3339` accepts
/// every valid RFC 3339 string, so the rendering parses back to the same
/// instant; the output is built from digits and the format's punctuation
/// alone.
#[verifier::external_body]
pub fn format_rfc3339(ms: u64) -> (r: String)
    requires
        ms <= TS_MAX_MILLIS,
    ensures
        r@ == rfc3339_of(ms as nat),
        rfc3339_parse_of(r@) == Some(ms),
        forall|i: int| 0 <= i < r@.len() ==> is_rfc3339_char(#[trigger] r@[i]),
        r@.len() >= 1,
{
    let dt = chrono::DateTime::<chrono::Utc>::from_timestamp_millis(ms as i64).unwrap();
    dt.to_rfc3339()
}

/// Relies on `chrono::DateTime::parse_from_rfc3339` and
/// `DateTime::timestamp_millis`: the parsed instant in epoch milliseconds,
/// or `None` when the text does not parse or lies before the epoch or
/// beyond `u64`.
#[verifier::external_body]
pub fn parse_rfc3339(s: &str) -> (r: Option<u64>)
    ensures
        r == rfc3339_parse_of(s@),
{
    match chrono::DateTime::parse_from_rfc3339(s) {
        Ok(dt) => u64::try_from(dt.timestamp_millis()).ok(),
        Err(_) => None,
    }
}

} // verus!
