//! Calendar dates of the proleptic Gregorian calendar.

use vstd::prelude::*;
use crate::error::LedgerError;

verus! {

/// The earliest year a `Date` may carry.
pub const MIN_YEAR: i32 = -262143;

/// The latest year a `Date` may carry.
pub const MAX_YEAR: i32 = 262142;

/// Whether `year` has a 29th of February.
pub open spec fn is_leap_year(year: int) -> bool {
    year % 4 == 0 && (year % 100 != 0 || year % 400 == 0)
}

/// The number of days of the given month (1 = January) of `year`.
pub open spec fn days_in_month(year: int, month: int) -> int {
    if month == 2 {
        if is_leap_year(year) {
            29
        } else {
            28
        }
    } else if month == 4 || month == 6 || month == 9 || month == 11 {
        30
    } else {
        31
    }
}

/// Whether `day` is a nominal day of the month: a number from 1 to 31.
pub open spec fn valid_day(day: u8) -> bool {
    1 <= day <= 31
}

/// A calendar date. The fields are public so that callers can read them; a
/// value is meaningful only when `wf` holds of it.
#[derive(Clone, Copy, Debug, PartialEq, Eq, Structural)]
pub struct Date {
    pub year: i32,
    pub month: u8,
    pub day: u8,
}

impl Date {
    /// The date names a day that exists.
    pub open spec fn wf(self) -> bool {
        &&& MIN_YEAR <= self.year <= MAX_YEAR
        &&& 1 <= self.month <= 12
        &&& 1 <= self.day <= days_in_month(self.year as int, self.month as int)
    }

    /// The number of the date's month, counted from January of year 0.
    pub open spec fn month_index(self) -> int {
        self.year * 12 + self.month - 1
    }

    /// A number that grows with the date: dates are ordered as their ordinals.
    pub open spec fn ordinal(self) -> int {
        self.month_index() * 32 + self.day
    }

    /// `self` is on or before `other`.
    pub open spec fn le(self, other: Date) -> bool {
        self.ordinal() <= other.ordinal()
    }

    /// `self` is strictly before `other`.
    pub open spec fn lt(self, other: Date) -> bool {
        self.ordinal() < other.ordinal()
    }

    /// No month precedes the date's month in the supported range.
    pub open spec fn in_first_month(self) -> bool {
        self.year == MIN_YEAR && self.month == 1
    }

    /// No month follows the date's month in the supported range.
    pub open spec fn in_last_month(self) -> bool {
        self.year == MAX_YEAR && self.month == 12
    }

    /// Builds the date `year`-`month`-`day`. Where no such day exists in the
    /// supported range of years, the answer is `MalformedDate`.
    pub fn new(year: i32, month: u8, day: u8) -> (r: Result<Date, LedgerError>)
        ensures
            (Date { year, month, day }).wf() ==> r == Ok::<Date, LedgerError>(
                Date { year, month, day },
            ),
            !(Date { year, month, day }).wf() ==> r == Err::<Date, LedgerError>(
                LedgerError::MalformedDate,
            ),
    {
        if year < MIN_YEAR || year > MAX_YEAR || month < 1 || month > 12 || day < 1 {
            return Err(LedgerError::MalformedDate);
        }
        if day > month_length(year, month) {
            return Err(LedgerError::MalformedDate);
        }
        Ok(Date { year, month, day })
    }

    /// Whether the date names a day that exists.
    pub fn is_valid(&self) -> (b: bool)
        ensures
            b == self.wf(),
    {
        Date::new(self.year, self.month, self.day).is_ok()
    }

    fn rank(&self) -> (r: i64)
        ensures
            r == self.ordinal(),
    {
        let y: i64 = self.year as i64;
        let m: i64 = self.month as i64;
        let d: i64 = self.day as i64;
        (y * 12 + m - 1) * 32 + d
    }

    /// Whether `self` is on or before `other`.
    pub fn on_or_before(&self, other: &Date) -> (b: bool)
        ensures
            b == self.le(*other),
    {
        self.rank() <= other.rank()
    }

    /// Whether `self` is strictly before `other`.
    pub fn before(&self, other: &Date) -> (b: bool)
        ensures
            b == self.lt(*other),
    {
        self.rank() < other.rank()
    }
}

/// Whether `year` has a 29th of February.
pub fn leap_year(year: i32) -> (b: bool)
    ensures
        b == is_leap_year(year as int),
{
    year % 4 == 0 && (year % 100 != 0 || year % 400 == 0)
}

/// The number of days of the given month of `year`.
pub fn month_length(year: i32, month: u8) -> (n: u8)
    ensures
        n == days_in_month(year as int, month as int),
        28 <= n <= 31,
{
    if month == 2 {
        if leap_year(year) {
            29
        } else {
            28
        }
    } else if month == 4 || month == 6 || month == 9 || month == 11 {
        30
    } else {
        31
    }
}

/// Two valid dates with the same ordinal are the same date, and the order of
/// the ordinals is the order of (year, month, day).
pub proof fn lemma_ordinal_orders_dates(a: Date, b: Date)
    requires
        a.wf(),
        b.wf(),
    ensures
        a.ordinal() == b.ordinal() <==> a == b,
        a.lt(b) <==> (a.year < b.year || (a.year == b.year && (a.month < b.month || (a.month
            == b.month && a.day < b.day)))),
{
}

} // verus!
