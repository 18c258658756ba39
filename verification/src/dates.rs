//! Calendar dates in Focus metadata, read with `chrono`.
use vstd::prelude::*;
use chrono::Datelike;

verus! {

/// What `chrono::NaiveDate::parse_from_str(s, "%Y-%m-%d")` gives for `s`, as
/// `(year, month, day)`, or `None` where it fails.
pub uninterp spec fn parsed_ymd_date(s: Seq<char>) -> Option<(i32, u32, u32)>;

/// Calls `chrono::NaiveDate::parse_from_str` with the format `%Y-%m-%d` and
/// hands back the year, month and day of the date it reads. Claimed: the result
/// is `parsed_ymd_date` of the input, and a date that is read has a month from
/// 1 to 12 and a day from 1 to 31, as chrono's `Datelike` documents.
#[verifier::external_body]
pub(crate) fn parse_ymd_date(value: &str) -> (r: Option<(i32, u32, u32)>)
    ensures
        r == parsed_ymd_date(value@),
        r matches Some((y, m, d)) ==> 1 <= m <= 12 && 1 <= d <= 31,
{
    match chrono::NaiveDate::parse_from_str(value, "%Y-%m-%d") {
        Ok(date) => Some((date.year(), date.month(), date.day())),
        Err(_) => None,
    }
}

} // verus!
