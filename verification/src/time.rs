//! Timestamp parsing for feed entries.
//!
//! A feed carries times as RFC 3339 text; the library holds them as whole
//! seconds since the Unix epoch. The text-to-seconds step is done by
//! `chrono` and taken on trust; its result is a function of the text alone,
//! so it is given a name that contracts can speak of.

use vstd::prelude::*;

verus! {

/// The seconds since the Unix epoch that `chrono` reads out of timestamp
/// text, or `None` where the text is not a valid timestamp. The result
/// depends on the characters alone.
pub uninterp spec fn parsed_timestamp(s: Seq<char>) -> Option<i64>;

/// Relies on `str::parse::<chrono::DateTime<chrono::Utc>>` (a relaxed form
/// of RFC 3339) and `chrono::DateTime::timestamp` (whole seconds since the
/// Unix epoch). Both depend on the input text alone.
#[verifier::external_body]
pub fn parse_timestamp(s: &str) -> (r: Option<i64>)
    ensures
        r == parsed_timestamp(s@),
{
    s.parse::<chrono::DateTime<chrono::Utc>>().ok().map(|d| d.timestamp())
}

} // verus!
