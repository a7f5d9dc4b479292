//! Calendar dates as day numbers, read from text by `chrono`.

use chrono::Datelike;
use chrono::NaiveDate;
use vstd::prelude::*;

verus! {

/// A calendar date, held as its day number in the proleptic Gregorian
/// calendar: 1 January of year 1 is day 1. Later dates have larger numbers.
#[derive(Clone, Copy, PartialEq, Eq, Structural, Debug)]
pub struct Date {
    pub days: i32,
}

/// The day number that `chrono` reads from `text` under the strftime
/// pattern `format`, or `None` where it rejects the text.
pub uninterp spec fn date_text_days(text: Seq<char>, format: Seq<char>) -> Option<int>;

/// The day number of the calendar date `year`-`month`-`day` according to
/// `chrono`, or `None` where no such date exists in its range.
pub uninterp spec fn calendar_days(year: int, month: int, day: int) -> Option<int>;

/// The pattern of dates written year first, as `2024-12-31`.
pub open spec fn iso_format() -> Seq<char> {
    "%Y-%m-%d"@
}

/// The pattern of dates written day first, as `31/12/2024`.
pub open spec fn day_first_format() -> Seq<char> {
    "%d/%m/%Y"@
}

/// Calls `chrono::NaiveDate::parse_from_str` and turns the date into its day
/// number with `Datelike::num_days_from_ce`. Not proved here: the result is the
/// function `date_text_days` of the two texts, and a rejected text gives
/// `None`.
#[verifier::external_body]
fn parse_day_number(text: &str, format: &str) -> (r: Option<i32>)
    ensures
        r matches Some(d) ==> date_text_days(text@, format@) == Some(d as int),
        r is None ==> date_text_days(text@, format@) is None,
{
    match NaiveDate::parse_from_str(text, format) {
        Ok(date) => Some(date.num_days_from_ce()),
        Err(_) => None,
    }
}

/// Calls `chrono::NaiveDate::from_ymd_opt` and turns the date into its day
/// number with `Datelike::num_days_from_ce`. Not proved here: the result is the
/// function `calendar_days` of the three numbers, and `None` where `chrono`
/// knows no such date.
#[verifier::external_body]
fn calendar_day_number(year: i32, month: u32, day: u32) -> (r: Option<i32>)
    ensures
        r matches Some(d) ==> calendar_days(year as int, month as int, day as int) == Some(
            d as int,
        ),
        r is None ==> calendar_days(year as int, month as int, day as int) is None,
{
    match NaiveDate::from_ymd_opt(year, month, day) {
        Some(date) => Some(date.num_days_from_ce()),
        None => None,
    }
}

impl Date {
    /// What a parsed day number becomes.
    pub open spec fn of_days(days: Option<int>) -> Option<Date> {
        match days {
            Some(d) => if i32::MIN <= d <= i32::MAX {
                Some(Date { days: d as i32 })
            } else {
                None
            },
            None => None,
        }
    }

    /// The date with the given day number.
    pub fn from_days(days: i32) -> (d: Date)
        ensures
            d.days == days,
    {
        Date { days }
    }

    /// Reads a date written as `2024-12-31`.
    pub fn parse_iso(text: &str) -> (r: Option<Date>)
        ensures
            r == Date::of_days(date_text_days(text@, iso_format())),
    {
        match parse_day_number(text, "%Y-%m-%d") {
            Some(days) => Some(Date { days }),
            None => None,
        }
    }

    /// Reads a date written as `31/12/2024`.
    pub fn parse_day_first(text: &str) -> (r: Option<Date>)
        ensures
            r == Date::of_days(date_text_days(text@, day_first_format())),
    {
        match parse_day_number(text, "%d/%m/%Y") {
            Some(days) => Some(Date { days }),
            None => None,
        }
    }

    /// The date of a year, month and day of the calendar.
    pub fn from_ymd(year: i32, month: u32, day: u32) -> (r: Option<Date>)
        ensures
            r == Date::of_days(calendar_days(year as int, month as int, day as int)),
    {
        match calendar_day_number(year, month, day) {
            Some(days) => Some(Date { days }),
            None => None,
        }
    }

    /// Whether this date lies strictly before `other`.
    pub fn before(&self, other: &Date) -> (b: bool)
        ensures
            b == (self.days < other.days),
    {
        self.days < other.days
    }

    /// The date `count` days before this one.
    pub fn days_earlier(&self, count: i32) -> (d: Date)
        requires
            i32::MIN <= self.days - count <= i32::MAX,
        ensures
            d.days == self.days - count,
    {
        Date { days: self.days - count }
    }
}

} // verus!
