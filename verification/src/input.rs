//! Dates as they are typed: the word `today`, or a year, a month and a day
//! with hyphens between them.

use std::str::FromStr;
use chrono::Datelike;
use vstd::prelude::*;
use crate::date::Date;
use crate::error::LedgerError;

verus! {

/// The year, month and day that chrono reads from `text`, or `None` where it
/// reads no date from it.
pub uninterp spec fn parsed_date(text: Seq<char>) -> Option<(i32, u32, u32)>;

/// Calls `chrono::NaiveDate::from_str`, which reads a date written as year,
/// month and day with hyphens between them, and hands out the year, month and
/// day of what it read through chrono's `Datelike`. Not proved: that the answer
/// depends on the text alone. Nothing is claimed of which texts are read or
/// of the range of the numbers.
#[verifier::external_body]
fn parse_date(text: &str) -> (r: Option<(i32, u32, u32)>)
    ensures
        r == parsed_date(text@),
{
    match chrono::NaiveDate::from_str(text) {
        Ok(d) => Some((d.year(), d.month(), d.day())),
        Err(_) => None,
    }
}

/// The date that the parts name, if they name one.
pub open spec fn date_of_parts(parts: Option<(i32, u32, u32)>) -> Result<Date, LedgerError> {
    match parts {
        Some((year, month, day)) => if month <= 12 && day <= 31 && (Date {
            year,
            month: month as u8,
            day: day as u8,
        }).wf() {
            Ok(Date { year, month: month as u8, day: day as u8 })
        } else {
            Err(LedgerError::MalformedDate)
        },
        None => Err(LedgerError::MalformedDate),
    }
}

/// What a typed date stands for on the day `today`: `today` for the word
/// `today`, else the date that is read from it.
pub open spec fn resolve_spec(input: Seq<char>, today: Date) -> Result<Date, LedgerError> {
    if input == "today"@ {
        Ok(today)
    } else {
        date_of_parts(parsed_date(input))
    }
}

/// The date that the parts name. Where there are none, or they name no date
/// that exists, the answer is `MalformedDate`.
pub fn date_from_parts(parts: Option<(i32, u32, u32)>) -> (r: Result<Date, LedgerError>)
    ensures
        r == date_of_parts(parts),
{
    match parts {
        Some((year, month, day)) => {
            if month > 12 || day > 31 {
                Err(LedgerError::MalformedDate)
            } else {
                Date::new(year, month as u8, day as u8)
            }
        },
        None => Err(LedgerError::MalformedDate),
    }
}

/// What a typed date stands for on the day `today`. A text that is neither
/// the word `today` nor a date that exists gives `MalformedDate`.
pub fn resolve_date(input: &str, today: Date) -> (r: Result<Date, LedgerError>)
    ensures
        r == resolve_spec(input@, today),
{
    if input.to_owned() == "today".to_owned() {
        Ok(today)
    } else {
        date_from_parts(parse_date(input))
    }
}

} // verus!
