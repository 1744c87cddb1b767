use piggy::calendar::{can_step_back, can_step_forward, get_next_day, get_previous_day, occurrence_in};
use piggy::date::{leap_year, month_length, Date, MAX_YEAR, MIN_YEAR};
use piggy::error::LedgerError;

fn d(year: i32, month: u8, day: u8) -> Date {
    Date::new(year, month, day).unwrap()
}

#[test]
fn date_new_accepts_existing_days() {
    assert_eq!(Date::new(2020, 2, 29), Ok(Date { year: 2020, month: 2, day: 29 }));
    assert_eq!(Date::new(2021, 12, 31), Ok(Date { year: 2021, month: 12, day: 31 }));
    assert_eq!(Date::new(MIN_YEAR, 1, 1), Ok(Date { year: MIN_YEAR, month: 1, day: 1 }));
    assert_eq!(Date::new(MAX_YEAR, 12, 31), Ok(Date { year: MAX_YEAR, month: 12, day: 31 }));
}

#[test]
fn date_new_refuses_days_that_do_not_exist() {
    assert_eq!(Date::new(2021, 2, 29), Err(LedgerError::MalformedDate));
    assert_eq!(Date::new(2021, 4, 31), Err(LedgerError::MalformedDate));
    assert_eq!(Date::new(2021, 0, 10), Err(LedgerError::MalformedDate));
    assert_eq!(Date::new(2021, 13, 10), Err(LedgerError::MalformedDate));
    assert_eq!(Date::new(2021, 5, 0), Err(LedgerError::MalformedDate));
    assert_eq!(Date::new(1900, 2, 29), Err(LedgerError::MalformedDate));
    assert_eq!(Date::new(MAX_YEAR + 1, 1, 1), Err(LedgerError::MalformedDate));
    assert_eq!(Date::new(MIN_YEAR - 1, 1, 1), Err(LedgerError::MalformedDate));
}

#[test]
fn date_validity_matches_construction() {
    assert!(Date { year: 2000, month: 2, day: 29 }.is_valid());
    assert!(!Date { year: 2001, month: 2, day: 29 }.is_valid());
}

#[test]
fn leap_years_follow_the_gregorian_rule() {
    assert!(leap_year(2024));
    assert!(leap_year(2000));
    assert!(!leap_year(1900));
    assert!(!leap_year(2021));
    assert_eq!(month_length(2024, 2), 29);
    assert_eq!(month_length(2021, 2), 28);
    assert_eq!(month_length(2021, 4), 30);
    assert_eq!(month_length(2021, 1), 31);
}

#[test]
fn dates_are_ordered_by_year_month_day() {
    assert!(d(2020, 12, 31).before(&d(2021, 1, 1)));
    assert!(d(2021, 1, 31).before(&d(2021, 2, 1)));
    assert!(!d(2021, 2, 1).before(&d(2021, 2, 1)));
    assert!(d(2021, 2, 1).on_or_before(&d(2021, 2, 1)));
    assert!(!d(2021, 2, 2).on_or_before(&d(2021, 2, 1)));
    assert!(d(-1, 12, 31).before(&d(0, 1, 1)));
}

#[test]
fn occurrence_is_clamped_to_the_month() {
    assert_eq!(occurrence_in(31, 2021, 4), d(2021, 4, 30));
    assert_eq!(occurrence_in(30, 2021, 2), d(2021, 2, 28));
    assert_eq!(occurrence_in(15, 2021, 2), d(2021, 2, 15));
}

#[test]
fn previous_day_clamps_to_the_end_of_the_month() {
    assert_eq!(get_previous_day(31, d(2021, 2, 15)), d(2021, 1, 31));
}

#[test]
fn next_day_clamps_to_the_end_of_february() {
    assert_eq!(get_next_day(31, d(2021, 2, 15)), d(2021, 2, 28));
    assert_eq!(get_next_day(31, d(2024, 2, 15)), d(2024, 2, 29));
}

#[test]
fn previous_day_is_the_date_itself_on_the_day() {
    assert_eq!(get_previous_day(15, d(2021, 2, 15)), d(2021, 2, 15));
    assert_eq!(get_previous_day(31, d(2021, 2, 28)), d(2021, 2, 28));
}

#[test]
fn next_day_is_never_the_date_itself() {
    assert_eq!(get_next_day(15, d(2021, 2, 15)), d(2021, 3, 15));
    assert_eq!(get_next_day(31, d(2021, 2, 28)), d(2021, 3, 31));
    assert_eq!(get_next_day(31, d(2021, 3, 31)), d(2021, 4, 30));
}

#[test]
fn occurrences_cross_the_turn_of_the_year() {
    assert_eq!(get_previous_day(20, d(2021, 1, 5)), d(2020, 12, 20));
    assert_eq!(get_next_day(5, d(2020, 12, 20)), d(2021, 1, 5));
}

#[test]
fn occurrences_bracket_every_day_of_a_leap_year() {
    for day in 1u8..=31 {
        for month in 1u8..=12 {
            for dom in 1u8..=month_length(2024, month) {
                let x = d(2024, month, dom);
                let prev = get_previous_day(day, x);
                let next = get_next_day(day, x);
                assert!(prev.on_or_before(&x));
                assert!(x.before(&next));
                assert!(prev.is_valid() && next.is_valid());
                assert_eq!(prev.day, day.min(month_length(prev.year, prev.month)));
                assert_eq!(next.day, day.min(month_length(next.year, next.month)));
            }
        }
    }
}

#[test]
fn stepping_is_possible_except_at_the_ends_of_the_range() {
    assert!(can_step_back(10, d(2021, 1, 5)));
    assert!(can_step_forward(10, d(2021, 12, 15)));
    assert!(!can_step_back(10, d(MIN_YEAR, 1, 5)));
    assert!(can_step_back(10, d(MIN_YEAR, 1, 10)));
    assert!(!can_step_forward(10, d(MAX_YEAR, 12, 10)));
    assert!(can_step_forward(10, d(MAX_YEAR, 12, 9)));
}
