//! Day-of-month arithmetic: the occurrences of a nominal day of the month
//! around a date, with short months answering by their last day.

use vstd::prelude::*;
use crate::date::{Date, days_in_month, month_length, valid_day, MAX_YEAR, MIN_YEAR};

verus! {

/// The day on which the nominal `day` falls in the given month: `day` itself,
/// or the month's last day where the month is shorter.
pub open spec fn clamp_day(day: int, year: int, month: int) -> int {
    if day > days_in_month(year, month) {
        days_in_month(year, month)
    } else {
        day
    }
}

/// `d` is the date on which the nominal `day` falls in `d`'s own month.
pub open spec fn is_occurrence(day: int, d: Date) -> bool {
    d.wf() && d.day == clamp_day(day, d.year as int, d.month as int)
}

/// The date on which the nominal `day` falls in the given month.
pub open spec fn occurrence_of(day: int, year: int, month: int) -> Date {
    Date { year: year as i32, month: month as u8, day: clamp_day(day, year, month) as u8 }
}

/// The latest occurrence of `day` on or before `date`: that of `date`'s own
/// month if it is not after `date`, else that of the month before.
pub open spec fn previous_occurrence(day: int, date: Date) -> Date {
    if clamp_day(day, date.year as int, date.month as int) <= date.day {
        occurrence_of(day, date.year as int, date.month as int)
    } else if date.month == 1 {
        occurrence_of(day, date.year - 1, 12)
    } else {
        occurrence_of(day, date.year as int, date.month - 1)
    }
}

/// The earliest occurrence of `day` after `date`: that of `date`'s own month
/// if it is after `date`, else that of the month after.
pub open spec fn next_occurrence(day: int, date: Date) -> Date {
    if clamp_day(day, date.year as int, date.month as int) > date.day {
        occurrence_of(day, date.year as int, date.month as int)
    } else if date.month == 12 {
        occurrence_of(day, date.year + 1, 1)
    } else {
        occurrence_of(day, date.year as int, date.month + 1)
    }
}

/// A month before that of `date` exists, where the previous occurrence of
/// `day` has to be looked for there.
pub open spec fn has_previous(day: u8, date: Date) -> bool {
    clamp_day(day as int, date.year as int, date.month as int) <= date.day
        || !date.in_first_month()
}

/// A month after that of `date` exists, where the next occurrence of `day`
/// has to be looked for there.
pub open spec fn has_next(day: u8, date: Date) -> bool {
    clamp_day(day as int, date.year as int, date.month as int) > date.day || !date.in_last_month()
}

/// The date on which the nominal `day` falls in the given month.
pub fn occurrence_in(day: u8, year: i32, month: u8) -> (r: Date)
    requires
        valid_day(day),
        (Date { year, month, day: 1 }).wf(),
    ensures
        r == occurrence_of(day as int, year as int, month as int),
        is_occurrence(day as int, r),
{
    let len: u8 = month_length(year, month);
    Date { year, month, day: if day > len { len } else { day } }
}

/// The latest occurrence of `day` on or before `date`.
///
/// The occurrence in `date`'s own month is taken if it is not after `date`,
/// else that of the month before, which must then exist.
pub fn get_previous_day(day: u8, date: Date) -> (r: Date)
    requires
        valid_day(day),
        date.wf(),
        has_previous(day, date),
    ensures
        r == previous_occurrence(day as int, date),
        is_occurrence(day as int, r),
        r.le(date),
        forall|d: Date| #[trigger] is_occurrence(day as int, d) && d.le(date) ==> d.le(r),
{
    let here = occurrence_in(day, date.year, date.month);
    if here.day <= date.day {
        here
    } else if date.month == 1 {
        occurrence_in(day, date.year - 1, 12)
    } else {
        occurrence_in(day, date.year, date.month - 1)
    }
}

/// The earliest occurrence of `day` strictly after `date`.
///
/// The occurrence in `date`'s own month is taken if it is after `date`, else
/// that of the month after, which must then exist.
pub fn get_next_day(day: u8, date: Date) -> (r: Date)
    requires
        valid_day(day),
        date.wf(),
        has_next(day, date),
    ensures
        r == next_occurrence(day as int, date),
        is_occurrence(day as int, r),
        date.lt(r),
        forall|d: Date| #[trigger] is_occurrence(day as int, d) && date.lt(d) ==> r.le(d),
{
    let here = occurrence_in(day, date.year, date.month);
    if here.day > date.day {
        here
    } else if date.month == 12 {
        occurrence_in(day, date.year + 1, 1)
    } else {
        occurrence_in(day, date.year, date.month + 1)
    }
}

/// Whether the previous occurrence of `day` before or on `date` lies in the
/// supported range of dates.
pub fn can_step_back(day: u8, date: Date) -> (b: bool)
    requires
        valid_day(day),
        date.wf(),
    ensures
        b == has_previous(day, date),
{
    occurrence_in(day, date.year, date.month).day <= date.day || !(date.year == MIN_YEAR
        && date.month == 1)
}

/// Whether the next occurrence of `day` after `date` lies in the supported
/// range of dates.
pub fn can_step_forward(day: u8, date: Date) -> (b: bool)
    requires
        valid_day(day),
        date.wf(),
    ensures
        b == has_next(day, date),
{
    occurrence_in(day, date.year, date.month).day > date.day || !(date.year == MAX_YEAR
        && date.month == 12)
}

/// A date lies between the occurrences of a day around it: the previous one
/// is on or before the date, the next one is after it, and no occurrence of
/// the day lies between the two.
pub proof fn lemma_occurrences_bracket(day: u8, date: Date)
    requires
        valid_day(day),
        date.wf(),
        has_previous(day, date),
        has_next(day, date),
    ensures
        previous_occurrence(day as int, date).le(date),
        date.lt(next_occurrence(day as int, date)),
        is_occurrence(day as int, previous_occurrence(day as int, date)),
        is_occurrence(day as int, next_occurrence(day as int, date)),
        forall|d: Date| #[trigger]
            is_occurrence(day as int, d) ==> d.le(previous_occurrence(day as int, date))
                || next_occurrence(day as int, date).le(d),
{
}

} // verus!
