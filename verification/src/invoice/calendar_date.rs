//! Calendar dates, read with `chrono`.

use chrono::{Datelike, NaiveDate};
use vstd::prelude::*;

verus! {

/// A date by its year, month and day.
#[derive(Clone, Copy, Debug, PartialEq, Eq, Structural)]
pub struct CalendarDate {
    pub year: i32,
    pub month: u32,
    pub day: u32,
}

/// The year, month and day that `chrono::NaiveDate::parse_from_str` reads
/// from `text` under `format`, or `None` where it reports an error.
pub uninterp spec fn chrono_parsed_date(text: Seq<char>, format: Seq<char>) -> Option<
    (int, int, int),
>;

/// What `chrono_parsed_date` gives, as a date.
pub open spec fn parsed_date(text: Seq<char>, format: Seq<char>) -> Option<CalendarDate> {
    match chrono_parsed_date(text, format) {
        Some((year, month, day)) => Some(
            CalendarDate { year: year as i32, month: month as u32, day: day as u32 },
        ),
        None => None,
    }
}

/// Reads a date with `chrono::NaiveDate::parse_from_str`. The result is the
/// one that `chrono` gives for this text and this format, with the year,
/// month and day that `chrono::Datelike` reports of it.
#[verifier::external_body]
pub(crate) fn parse_date(text: &str, format: &str) -> (date: Option<CalendarDate>)
    ensures
        match date {
            Some(d) => chrono_parsed_date(text@, format@) == Some(
                (d.year as int, d.month as int, d.day as int),
            ),
            None => chrono_parsed_date(text@, format@) is None,
        },
{
    match NaiveDate::parse_from_str(text, format) {
        Ok(date) => Some(CalendarDate { year: date.year(), month: date.month(), day: date.day() }),
        Err(_) => None,
    }
}

} // verus!
