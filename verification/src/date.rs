//! Calendar dates as plain year/month/day values.
//!
//! The market feed names days by `YYYY-MM-DD` strings; the pipeline needs to
//! compare days and to step to the following day when a price series rolls
//! over at its 24th hour.  Both are done here on a plain proleptic-Gregorian
//! date value, so that every date computation is verified.

use vstd::prelude::*;

verus! {

/// A calendar date in the proleptic Gregorian calendar.
///
/// Dates parsed from feed text always have a four-digit year, so `year` stays
/// below 10000 for them; [`Date::succ`] can step one day past that range.
#[derive(Clone, Copy, Debug, PartialEq, Eq, Structural)]
pub struct Date {
    pub year: u16,
    pub month: u8,
    pub day: u8,
}

pub open spec fn spec_is_leap_year(y: int) -> bool {
    y % 4 == 0 && (y % 100 != 0 || y % 400 == 0)
}

pub open spec fn spec_days_in_month(y: int, m: int) -> int {
    if m == 2 {
        if spec_is_leap_year(y) {
            29
        } else {
            28
        }
    } else if m == 4 || m == 6 || m == 9 || m == 11 {
        30
    } else {
        31
    }
}

impl Date {
    /// The date names a real calendar day with a four-digit (or smaller) year.
    pub open spec fn valid(self) -> bool {
        &&& self.year <= 9999
        &&& 1 <= self.month <= 12
        &&& 1 <= self.day <= spec_days_in_month(self.year as int, self.month as int)
    }

    /// The day after `self`, as a mathematical definition.
    pub open spec fn spec_succ(self) -> Date {
        if self.day < spec_days_in_month(self.year as int, self.month as int) {
            Date { year: self.year, month: self.month, day: (self.day + 1) as u8 }
        } else if self.month < 12 {
            Date { year: self.year, month: (self.month + 1) as u8, day: 1 }
        } else {
            Date { year: (self.year + 1) as u16, month: 1, day: 1 }
        }
    }

    /// Strict order of calendar days: year, then month, then day.
    pub open spec fn spec_lt(self, other: Date) -> bool {
        ||| self.year < other.year
        ||| (self.year == other.year && self.month < other.month)
        ||| (self.year == other.year && self.month == other.month && self.day < other.day)
    }

    pub open spec fn spec_le(self, other: Date) -> bool {
        self.spec_lt(other) || self == other
    }

    /// Builds a date after checking that it names a real calendar day.
    pub fn new(year: u16, month: u8, day: u8) -> (r: Option<Date>)
        ensures
            match r {
                Some(d) => d == (Date { year, month, day }) && d.valid(),
                None => !(Date { year, month, day }).valid(),
            },
    {
        let d = Date { year, month, day };
        if year <= 9999 && 1 <= month && month <= 12 && 1 <= day && day <= days_in_month(
            year,
            month,
        ) {
            Some(d)
        } else {
            None
        }
    }

    /// The day after `self`.
    pub fn succ(self) -> (r: Date)
        requires
            self.valid(),
        ensures
            r == self.spec_succ(),
            r.year <= 10000,
            1 <= r.month <= 12,
            1 <= r.day <= spec_days_in_month(r.year as int, r.month as int),
    {
        if self.day < days_in_month(self.year, self.month) {
            Date { year: self.year, month: self.month, day: self.day + 1 }
        } else if self.month < 12 {
            Date { year: self.year, month: self.month + 1, day: 1 }
        } else {
            Date { year: self.year + 1, month: 1, day: 1 }
        }
    }

    /// `self` comes strictly before `other` in calendar order.
    pub fn lt(&self, other: &Date) -> (r: bool)
        ensures
            r == self.spec_lt(*other),
    {
        self.year < other.year || (self.year == other.year && (self.month < other.month || (
        self.month == other.month && self.day < other.day)))
    }

    /// `self` comes before `other` or names the same day.
    pub fn le(&self, other: &Date) -> (r: bool)
        ensures
            r == self.spec_le(*other),
    {
        self.year < other.year || (self.year == other.year && (self.month < other.month || (
        self.month == other.month && self.day <= other.day)))
    }
}

pub fn is_leap_year(y: u16) -> (r: bool)
    ensures
        r == spec_is_leap_year(y as int),
{
    y % 4 == 0 && (y % 100 != 0 || y % 400 == 0)
}

pub fn days_in_month(y: u16, m: u8) -> (r: u8)
    ensures
        r as int == spec_days_in_month(y as int, m as int),
{
    if m == 2 {
        if is_leap_year(y) {
            29
        } else {
            28
        }
    } else if m == 4 || m == 6 || m == 9 || m == 11 {
        30
    } else {
        31
    }
}

} // verus!
