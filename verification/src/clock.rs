//! The calendar date of a moment.

use vstd::prelude::*;

verus! {

/// The date in UTC of the moment `unix_seconds` after the Unix epoch, as
/// text (`YYYY-MM-DD` for the years 0 to 9999), or `None` where the moment
/// lies outside the calendar that can be represented.
pub uninterp spec fn utc_date_text(unix_seconds: i64) -> Option<Seq<char>>;

/// `chrono::DateTime::from_timestamp`, and the text of the date part of what
/// it returns: the result is a function of the number of seconds alone, and
/// is `None` exactly where `from_timestamp` returns `None`.
#[verifier::external_body]
pub(crate) fn utc_date(unix_seconds: i64) -> (out: Option<String>)
    ensures
        match utc_date_text(unix_seconds) {
            Some(text) => out is Some && out.unwrap()@ == text,
            None => out is None,
        },
{
    match chrono::DateTime::from_timestamp(unix_seconds, 0) {
        Some(moment) => Some(moment.naive_utc().date().to_string()),
        None => None,
    }
}

} // verus!
