//! Calendar dates as the tool prints them (`YYYYMMDD`), read through chrono.

use vstd::prelude::*;
use chrono::Datelike;

verus! {

/// A calendar date.
#[derive(PartialEq, Eq, Structural, Clone, Copy, Debug)]
pub struct CalendarDate {
    pub year: i32,
    pub month: u32,
    pub day: u32,
}

/// The year, month and day that chrono reads from `s` with the format
/// `fmt`, or `None` where it rejects the text.
pub uninterp spec fn parsed_ymd(s: Seq<char>, fmt: Seq<char>) -> Option<(int, int, int)>;

/// Relies on chrono's `NaiveDate::parse_from_str`: the result depends on the
/// text and the format alone, and a parsed date is a real date, so its
/// month lies in 1..=12 and its day in 1..=31.
#[verifier::external_body]
fn parse_date(s: &str, fmt: &str) -> (r: Option<CalendarDate>)
    ensures
        match r {
            Some(d) => parsed_ymd(s@, fmt@) == Some((d.year as int, d.month as int, d.day as int))
                && 1 <= d.month <= 12 && 1 <= d.day <= 31,
            None => parsed_ymd(s@, fmt@) is None,
        },
{
    chrono::NaiveDate::parse_from_str(s, fmt).ok().map(
        |d| CalendarDate { year: d.year(), month: d.month(), day: d.day() },
    )
}

/// The format of upload dates: four-digit year, two-digit month and day.
pub open spec fn upload_date_format() -> Seq<char> {
    seq!['%', 'Y', '%', 'm', '%', 'd']
}

/// The date an upload-date field names, if it is one.
pub open spec fn upload_date_of(s: Seq<char>) -> Option<(int, int, int)> {
    parsed_ymd(s, upload_date_format())
}

/// The view of a date as year, month and day.
pub open spec fn ymd(d: CalendarDate) -> (int, int, int) {
    (d.year as int, d.month as int, d.day as int)
}

/// Reads an upload-date field (`YYYYMMDD`).
pub fn parse_upload_date(s: &str) -> (r: Option<CalendarDate>)
    ensures
        match r {
            Some(d) => upload_date_of(s@) == Some(ymd(d)) && 1 <= d.month <= 12 && 1 <= d.day <= 31,
            None => upload_date_of(s@) is None,
        },
{
    let fmt = "%Y%m%d";
    proof {
        reveal_strlit("%Y%m%d");
    }
    assert(fmt@ =~= upload_date_format());
    parse_date(s, fmt)
}

} // verus!
