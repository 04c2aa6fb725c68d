//! Calendar dates and times of day as plain numbers, ordered as the calendar
//! orders them.

use crate::text::optional_text;
use chrono::{Datelike, Timelike};
use vstd::prelude::*;

verus! {

/// A calendar date: year, month and day of the month.
#[derive(Clone, Copy, Debug, PartialEq, Eq, Structural, PartialOrd, Ord, Hash)]
pub struct Date {
    pub year: i32,
    pub month: u32,
    pub day: u32,
}

/// A date with the time of day, in seconds since midnight and nanoseconds
/// within the second.
#[derive(Clone, Copy, Debug, PartialEq, Eq, Structural, PartialOrd, Ord, Hash)]
pub struct DateTime {
    pub date: Date,
    pub secs: u32,
    pub nanos: u32,
}

/// An inclusive range of dates.
#[derive(Clone, Copy, Debug, PartialEq, Eq, Structural)]
pub struct DateRange {
    pub start: Date,
    pub end: Date,
}

impl Date {
    /// `self` is `other` or an earlier day.
    pub open spec fn not_after(self, other: Date) -> bool {
        ||| self.year < other.year
        ||| (self.year == other.year && self.month < other.month)
        ||| (self.year == other.year && self.month == other.month && self.day <= other.day)
    }

    /// A number that orders dates as `not_after` does.
    pub open spec fn ordinal(self) -> int {
        (self.year + 0x8000_0000) * 0x1_0000_0000_0000_0000 + self.month * 0x1_0000_0000 + self.day
    }

    pub fn is_not_after(&self, other: &Date) -> (r: bool)
        ensures
            r == self.not_after(*other),
    {
        self.year < other.year || (self.year == other.year && self.month < other.month) || (
        self.year == other.year && self.month == other.month && self.day <= other.day)
    }

    /// The date's ordinal.
    pub fn sort_key(&self) -> (k: i128)
        ensures
            k == self.ordinal(),
    {
        let high: i128 = self.year as i128 + 0x8000_0000;
        high * 0x1_0000_0000_0000_0000 + (self.month as i128) * 0x1_0000_0000 + (self.day as i128)
    }

    /// Dates are ordered by their ordinals, and equal dates alone share one.
    pub proof fn lemma_ordinal_orders(a: Date, b: Date)
        ensures
            a.not_after(b) <==> a.ordinal() <= b.ordinal(),
            a.ordinal() == b.ordinal() <==> a == b,
            0 <= a.ordinal() < 0x1_0000_0000_0000_0000_0000_0000,
    {
    }
}

impl DateRange {
    /// `start <= date <= end`.
    pub open spec fn contains(self, date: Date) -> bool {
        self.start.not_after(date) && date.not_after(self.end)
    }

    pub fn includes(&self, date: &Date) -> (r: bool)
        ensures
            r == self.contains(*date),
    {
        self.start.is_not_after(date) && date.is_not_after(&self.end)
    }
}

/// `chrono::Utc::now`, as a date and time of day in UTC. The clock decides
/// the value: nothing is stated of it.
#[verifier::external_body]
pub(crate) fn now_utc() -> DateTime {
    let now = chrono::Utc::now().naive_utc();
    DateTime {
        date: Date { year: now.year(), month: now.month(), day: now.day() },
        secs: now.num_seconds_from_midnight(),
        nanos: now.nanosecond(),
    }
}

/// What `chrono::NaiveDate::parse_from_str` reads from `text` under
/// `pattern`: the date, or nothing where the text does not fit the pattern
/// or names no day of the calendar.
pub uninterp spec fn parsed_date(text: Seq<char>, pattern: Seq<char>) -> Option<Date>;

/// What `chrono::NaiveDate::format` writes for `date` under `pattern`:
/// nothing where the date is no day of the calendar or the pattern cannot
/// be written.
pub uninterp spec fn formatted_date(date: Date, pattern: Seq<char>) -> Option<Seq<char>>;

/// `chrono::NaiveDate::parse_from_str`: the date that `text` states under
/// `pattern`, as year, month and day. The result is a function of the two
/// texts alone.
#[verifier::external_body]
pub(crate) fn parse_date(text: &str, pattern: &str) -> (r: Option<Date>)
    ensures
        r == parsed_date(text@, pattern@),
{
    match chrono::NaiveDate::parse_from_str(text, pattern) {
        Ok(day) => Some(Date { year: day.year(), month: day.month(), day: day.day() }),
        Err(_) => None,
    }
}

/// `chrono::NaiveDate::from_ymd_opt` and `chrono::NaiveDate::format`: the
/// text of `date` under `pattern`. The result is a function of the date and
/// the pattern alone.
#[verifier::external_body]
pub(crate) fn format_date(date: Date, pattern: &str) -> (r: Option<String>)
    ensures
        optional_text(r) == formatted_date(date, pattern@),
{
    let day = chrono::NaiveDate::from_ymd_opt(date.year, date.month, date.day)?;
    let mut out = String::new();
    day.format(pattern).write_to(&mut out).ok()?;
    Some(out)
}

/// The first of two readings of a date that is one.
pub fn first_date(full: Option<Date>, short: Option<Date>) -> (r: Option<Date>)
    ensures
        r == (match full {
            Some(d) => Some(d),
            None => short,
        }),
{
    match full {
        Some(d) => Some(d),
        None => short,
    }
}

} // verus!
