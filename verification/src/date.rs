//! Calendar dates: a year, a month and a day of the proleptic Gregorian
//! calendar, with no time of day.

use chrono::NaiveDate;
use vstd::prelude::*;

use crate::text::zero_padded;

verus! {

/// The first year that a date can lie in.
pub const MIN_YEAR: i32 = -262_143;

/// The last year that a date can lie in.
pub const MAX_YEAR: i32 = 262_142;

/// Whether `year` has a 29th of February.
pub open spec fn is_leap_year(year: int) -> bool {
    year % 4 == 0 && (year % 100 != 0 || year % 400 == 0)
}

/// The number of days of `month` in `year`, for `1 <= month <= 12`.
pub open spec fn days_in_month(year: int, month: int) -> int {
    if month == 2 {
        if is_leap_year(year) {
            29
        } else {
            28
        }
    } else if month == 4 || month == 6 || month == 9 || month == 11 {
        30
    } else {
        31
    }
}

/// A date as three numbers.
pub struct DateModel {
    pub year: int,
    pub month: int,
    pub day: int,
}

impl DateModel {
    /// Whether the day exists in the calendar and its year is in range.
    pub open spec fn is_valid(self) -> bool {
        &&& MIN_YEAR <= self.year <= MAX_YEAR
        &&& 1 <= self.month <= 12
        &&& 1 <= self.day <= days_in_month(self.year, self.month)
    }

    /// Whether `self` is an earlier day than `other`.
    pub open spec fn before(self, other: DateModel) -> bool {
        ||| self.year < other.year
        ||| self.year == other.year && self.month < other.month
        ||| self.year == other.year && self.month == other.month && self.day < other.day
    }

    /// The year as ISO 8601 writes it: four digits, or more digits behind a
    /// sign where four do not hold it or the year is negative.
    pub open spec fn iso_year(self) -> Seq<char> {
        if 0 <= self.year <= 9999 {
            zero_padded(self.year as nat, 4)
        } else if self.year < 0 {
            seq!['-'] + zero_padded((-self.year) as nat, 4)
        } else {
            seq!['+'] + zero_padded(self.year as nat, 4)
        }
    }

    /// The date as ISO 8601 writes it: year, month and day with hyphens
    /// between them, month and day in two digits each.
    pub open spec fn iso(self) -> Seq<char> {
        self.iso_year() + seq!['-'] + zero_padded(self.month as nat, 2) + seq!['-'] + zero_padded(
            self.day as nat,
            2,
        )
    }
}

/// A day of the calendar. Every value is a day that exists.
#[derive(Clone, Copy, Debug, PartialEq, Eq, Structural)]
pub struct Date {
    year: i32,
    month: u32,
    day: u32,
}

impl View for Date {
    type V = DateModel;

    closed spec fn view(&self) -> DateModel {
        DateModel { year: self.year as int, month: self.month as int, day: self.day as int }
    }
}

/// Whether the calendar has the day with these numbers.
///
/// Trusted: the body asks `chrono::NaiveDate::from_ymd_opt`, which returns
/// `None` where the month or the day is out of range, where the month has no
/// such day in that year, or where the year is outside the years that a
/// `NaiveDate` can hold; the contract claims that these are the days left out
/// by `DateModel::is_valid`, and no others.
#[verifier::external_body]
fn calendar_has(year: i32, month: u32, day: u32) -> (found: bool)
    ensures
        found == (DateModel { year: year as int, month: month as int, day: day as int }).is_valid(),
{
    NaiveDate::from_ymd_opt(year, month, day).is_some()
}

/// The ISO 8601 text of a day of the calendar.
///
/// Trusted: the body formats a `chrono::NaiveDate` through its `Display`
/// impl; the contract claims that this impl writes the year in four digits
/// (behind a sign, and in more digits where needed, outside 0 to 9999), then
/// month and day in two digits each, with hyphens between the three.
#[verifier::external_body]
fn calendar_text(year: i32, month: u32, day: u32) -> (text: String)
    requires
        (DateModel { year: year as int, month: month as int, day: day as int }).is_valid(),
    ensures
        text@ == (DateModel { year: year as int, month: month as int, day: day as int }).iso(),
{
    match NaiveDate::from_ymd_opt(year, month, day) {
        Some(date) => date.to_string(),
        None => String::new(),
    }
}

impl Date {
    #[verifier::type_invariant]
    spec fn exists_in_calendar(self) -> bool {
        self@.is_valid()
    }

    /// The day with these numbers, if the calendar has it.
    pub fn new(year: i32, month: u32, day: u32) -> (made: Option<Date>)
        ensures
            made is Some <==> (DateModel {
                year: year as int,
                month: month as int,
                day: day as int,
            }).is_valid(),
            made matches Some(date) ==> date@ == (DateModel {
                year: year as int,
                month: month as int,
                day: day as int,
            }),
    {
        if calendar_has(year, month, day) {
            Some(Date { year, month, day })
        } else {
            None
        }
    }

    /// The year. The three numbers of a date are always those of a day that
    /// exists.
    pub fn year(&self) -> (year: i32)
        ensures
            year == self@.year,
            self@.is_valid(),
    {
        proof {
            use_type_invariant(self);
        }
        self.year
    }

    /// The month, from 1 to 12.
    pub fn month(&self) -> (month: u32)
        ensures
            month == self@.month,
            self@.is_valid(),
    {
        proof {
            use_type_invariant(self);
        }
        self.month
    }

    /// The day of the month, from 1 to 31.
    pub fn day(&self) -> (day: u32)
        ensures
            day == self@.day,
            self@.is_valid(),
    {
        proof {
            use_type_invariant(self);
        }
        self.day
    }

    /// Whether this day is earlier than `other`.
    pub fn is_before(&self, other: &Date) -> (earlier: bool)
        ensures
            earlier == self@.before(other@),
    {
        self.year < other.year || (self.year == other.year && (self.month < other.month || (
        self.month == other.month && self.day < other.day)))
    }

    /// The day as ISO 8601 writes it, such as `2024-01-31`.
    pub fn iso(&self) -> (text: String)
        ensures
            text@ == self@.iso(),
    {
        proof {
            use_type_invariant(self);
        }
        calendar_text(self.year, self.month, self.day)
    }
}

} // verus!
