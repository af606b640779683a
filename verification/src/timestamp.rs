//! Instants of UTC, held as calendar fields.

use crate::model::api_request::AggregationKind;
use chrono::{Datelike, Timelike};
use std::cmp::Ordering;
use vstd::prelude::*;

verus! {

/// An instant of UTC, written as a date of the proleptic Gregorian calendar
/// and a time of day. Instants are ordered field by field, from the year down
/// to the nanosecond.
#[derive(Debug, PartialEq, Eq, Structural, Clone, Copy)]
pub struct Timestamp {
    pub year: i32,
    pub month: u32,
    pub day: u32,
    pub hour: u32,
    pub minute: u32,
    pub second: u32,
    pub nanosecond: u32,
}

pub open spec fn is_leap_year(year: int) -> bool {
    year % 4 == 0 && (year % 100 != 0 || year % 400 == 0)
}

pub open spec fn days_in_month(year: int, month: int) -> int {
    if month == 2 {
        if is_leap_year(year) {
            29
        } else {
            28
        }
    } else if month == 4 || month == 6 || month == 9 || month == 11 {
        30
    } else {
        31
    }
}

/// Whether `year` has a 29th of February.
pub fn leap_year(year: i32) -> (leap: bool)
    ensures
        leap == is_leap_year(year as int),
{
    // 2_147_484_000 is a multiple of 400 above every negative `i32`.
    let shifted: i64 = year as i64 + 2_147_484_000;
    shifted % 4 == 0 && (shifted % 100 != 0 || shifted % 400 == 0)
}

/// The number of days of `month` in `year`; 31 for a month outside 1..=12.
pub fn month_length(year: i32, month: u32) -> (days: u32)
    ensures
        days == days_in_month(year as int, month as int),
{
    if month == 2 {
        if leap_year(year) {
            29
        } else {
            28
        }
    } else if month == 4 || month == 6 || month == 9 || month == 11 {
        30
    } else {
        31
    }
}

/// What `chrono::NaiveDateTime::parse_from_str` makes of `text` read by the
/// pattern `format`: the calendar fields of the date and time it returns, or
/// nothing where it returns an error.
pub uninterp spec fn naive_datetime_parsed(text: Seq<char>, format: Seq<char>) -> Option<Timestamp>;

/// Calls `chrono::NaiveDateTime::parse_from_str` and hands on the fields of
/// what it returns. Nothing is claimed of the result but that it is what
/// chrono gives for this text and this pattern.
#[verifier::external_body]
pub(crate) fn parse_naive_datetime(text: &str, format: &str) -> (parsed: Option<Timestamp>)
    ensures
        parsed == naive_datetime_parsed(text@, format@),
{
    match chrono::NaiveDateTime::parse_from_str(text, format) {
        Ok(read) => Some(
            Timestamp {
                year: read.year(),
                month: read.month(),
                day: read.day(),
                hour: read.hour(),
                minute: read.minute(),
                second: read.second(),
                nanosecond: read.nanosecond(),
            },
        ),
        Err(_) => None,
    }
}

/// Calls `chrono::Utc::now` and hands on the fields of the instant it
/// returns. The clock decides the result, so nothing is claimed of it. chrono
/// stops the program where the machine's clock stands before 1970.
#[verifier::external_body]
pub(crate) fn utc_now() -> (now: Timestamp) {
    let read = chrono::Utc::now();
    Timestamp {
        year: read.year(),
        month: read.month(),
        day: read.day(),
        hour: read.hour(),
        minute: read.minute(),
        second: read.second(),
        nanosecond: read.nanosecond(),
    }
}

/// Of two instants one is not later than the other.
pub proof fn lemma_order_is_total(first: Timestamp, second: Timestamp)
    ensures
        first.at_or_before(second) || second.before(first),
        !(first.at_or_before(second) && second.before(first)),
{
}

/// What is not later than an instant is not later than any instant after it.
pub proof fn lemma_order_is_transitive(first: Timestamp, second: Timestamp, third: Timestamp)
    requires
        first.at_or_before(second),
        second.at_or_before(third),
    ensures
        first.at_or_before(third),
{
}

impl Timestamp {
    /// The fields name a day that exists and a time of day on the clock.
    pub open spec fn is_valid(self) -> bool {
        &&& 1 <= self.month <= 12
        &&& 1 <= self.day <= days_in_month(self.year as int, self.month as int)
        &&& self.hour < 24
        &&& self.minute < 60
        &&& self.second < 60
        &&& self.nanosecond < 1_000_000_000
    }

    /// `self` is strictly earlier than `other`.
    pub open spec fn before(self, other: Timestamp) -> bool {
        self.year < other.year || (self.year == other.year && (self.month < other.month || (
        self.month == other.month && (self.day < other.day || (self.day == other.day && (self.hour
            < other.hour || (self.hour == other.hour && (self.minute < other.minute || (self.minute
            == other.minute && (self.second < other.second || (self.second == other.second
            && self.nanosecond < other.nanosecond)))))))))))
    }

    /// `self` is `other` or earlier.
    pub open spec fn at_or_before(self, other: Timestamp) -> bool {
        self == other || self.before(other)
    }

    /// The start of the period of `kind` that holds `self`.
    pub open spec fn truncated(self, kind: AggregationKind) -> Timestamp {
        match kind {
            AggregationKind::Hourly => Timestamp { minute: 0, second: 0, nanosecond: 0, ..self },
            AggregationKind::DayInMonth => Timestamp {
                hour: 0,
                minute: 0,
                second: 0,
                nanosecond: 0,
                ..self
            },
            AggregationKind::Monthly => Timestamp {
                day: 1,
                hour: 0,
                minute: 0,
                second: 0,
                nanosecond: 0,
                ..self
            },
            AggregationKind::Yearly => Timestamp {
                month: 1,
                day: 1,
                hour: 0,
                minute: 0,
                second: 0,
                nanosecond: 0,
                ..self
            },
        }
    }

    /// The instant with these fields, if they name one.
    pub fn new(
        year: i32,
        month: u32,
        day: u32,
        hour: u32,
        minute: u32,
        second: u32,
        nanosecond: u32,
    ) -> (made: Option<Timestamp>)
        ensures
            made == (if (Timestamp { year, month, day, hour, minute, second, nanosecond }).is_valid() {
                Some(Timestamp { year, month, day, hour, minute, second, nanosecond })
            } else {
                None
            }),
    {
        let stamp = Timestamp { year, month, day, hour, minute, second, nanosecond };
        if stamp.check_valid() {
            Some(stamp)
        } else {
            None
        }
    }

    pub fn check_valid(&self) -> (valid: bool)
        ensures
            valid == self.is_valid(),
    {
        1 <= self.month && self.month <= 12 && 1 <= self.day && self.day <= month_length(
            self.year,
            self.month,
        ) && self.hour < 24 && self.minute < 60 && self.second < 60 && self.nanosecond
            < 1_000_000_000
    }

    pub fn is_before(&self, other: &Timestamp) -> (earlier: bool)
        ensures
            earlier == self.before(*other),
    {
        if self.year != other.year {
            self.year < other.year
        } else if self.month != other.month {
            self.month < other.month
        } else if self.day != other.day {
            self.day < other.day
        } else if self.hour != other.hour {
            self.hour < other.hour
        } else if self.minute != other.minute {
            self.minute < other.minute
        } else if self.second != other.second {
            self.second < other.second
        } else {
            self.nanosecond < other.nanosecond
        }
    }

    pub fn is_at_or_before(&self, other: &Timestamp) -> (not_later: bool)
        ensures
            not_later == self.at_or_before(*other),
    {
        !other.is_before(self)
    }

    /// The start of the period of `kind` that holds `self`. Of a valid instant
    /// it is valid and not later than the instant.
    pub fn truncate(self, kind: AggregationKind) -> (start: Timestamp)
        ensures
            start == self.truncated(kind),
            self.is_valid() ==> start.is_valid() && start.at_or_before(self),
    {
        match kind {
            AggregationKind::Hourly => Timestamp { minute: 0, second: 0, nanosecond: 0, ..self },
            AggregationKind::DayInMonth => Timestamp {
                hour: 0,
                minute: 0,
                second: 0,
                nanosecond: 0,
                ..self
            },
            AggregationKind::Monthly => Timestamp {
                day: 1,
                hour: 0,
                minute: 0,
                second: 0,
                nanosecond: 0,
                ..self
            },
            AggregationKind::Yearly => Timestamp {
                month: 1,
                day: 1,
                hour: 0,
                minute: 0,
                second: 0,
                nanosecond: 0,
                ..self
            },
        }
    }
}

impl PartialOrd for Timestamp {
    fn partial_cmp(&self, other: &Self) -> (order: Option<Ordering>) {
        if self.is_before(other) {
            Some(Ordering::Less)
        } else if other.is_before(self) {
            Some(Ordering::Greater)
        } else {
            Some(Ordering::Equal)
        }
    }
}

impl vstd::std_specs::cmp::PartialOrdSpecImpl for Timestamp {
    open spec fn obeys_partial_cmp_spec() -> bool {
        true
    }

    open spec fn partial_cmp_spec(&self, other: &Self) -> Option<Ordering> {
        if self.before(*other) {
            Some(Ordering::Less)
        } else if other.before(*self) {
            Some(Ordering::Greater)
        } else {
            Some(Ordering::Equal)
        }
    }
}

} // verus!
