//! The boundary to the outside date parser. The two source date formats are
//! read by chrono; the library carries a publish instant only as its UTC
//! epoch seconds.

use vstd::prelude::*;

verus! {

/// The UTC epoch seconds of an RFC 2822 date string, where it parses.
pub uninterp spec fn rfc2822_epoch(s: Seq<char>) -> Option<i64>;

/// The UTC epoch seconds of an RFC 3339 date string, where it parses.
pub uninterp spec fn rfc3339_epoch(s: Seq<char>) -> Option<i64>;

/// Relies on chrono's `DateTime::parse_from_rfc2822` and `timestamp`: whether
/// an RFC 2822 date string parses, and the instant it names, are functions of
/// the string alone.
#[verifier::external_body]
pub fn parse_rfc2822(s: &str) -> (r: Option<i64>)
    ensures
        r == rfc2822_epoch(s@),
{
    chrono::DateTime::parse_from_rfc2822(s).ok().map(|d| d.timestamp())
}

/// Relies on chrono's `DateTime::parse_from_rfc3339` and `timestamp`: whether
/// an RFC 3339 date string parses, and the instant it names, are functions of
/// the string alone.
#[verifier::external_body]
pub fn parse_rfc3339(s: &str) -> (r: Option<i64>)
    ensures
        r == rfc3339_epoch(s@),
{
    chrono::DateTime::parse_from_rfc3339(s).ok().map(|d| d.timestamp())
}

} // verus!
