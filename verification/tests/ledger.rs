use piggy::date::Date;
use piggy::error::LedgerError;
use piggy::ledger::PiggyBank;
use piggy::monthly::MonthlyTransaction;
use piggy::report::{
    activity_of, balance_on, marker_step, period_activity, transactions_by_date, Activity,
    MarkerState,
};
use piggy::transaction::Transaction;

fn d(year: i32, month: u8, day: u8) -> Date {
    Date::new(year, month, day).unwrap()
}

fn movement(date: Date, delta: i64, balance: i128, cause: &str) -> Activity {
    Activity::Movement { date, delta, balance, cause: cause.to_string() }
}

fn marker(date: Date, balance: i128) -> Activity {
    Activity::Marker { date, balance }
}

fn gift_and_coffee() -> PiggyBank {
    let mut bank = PiggyBank::new();
    bank.add_transaction(100, "gift".to_string(), d(2020, 1, 5));
    assert_eq!(bank.add_monthly(-20, "coffee".to_string(), 1, d(2020, 1, 1)), Ok(()));
    bank
}

#[test]
fn new_bank_is_empty_with_default_settings() {
    let bank = PiggyBank::new();
    assert!(bank.transactions.is_empty());
    assert!(bank.monthly_transactions.is_empty());
    assert_eq!(bank.config.payday, 1);
    assert_eq!(bank.config.currency, "$");
    assert_eq!(bank.config.decimal_places, 2);
    assert!(bank.is_valid());
    assert_eq!(balance_on(&bank, d(2020, 1, 1)), 0);
}

#[test]
fn balance_counts_points_and_monthly_instances() {
    let bank = gift_and_coffee();
    assert_eq!(balance_on(&bank, d(2020, 3, 1)), 40);
    assert_eq!(balance_on(&bank, d(2020, 2, 29)), 60);
    assert_eq!(balance_on(&bank, d(2020, 1, 4)), -20);
    assert_eq!(balance_on(&bank, d(2019, 12, 31)), 0);
}

#[test]
fn balance_is_the_same_when_asked_twice() {
    let bank = gift_and_coffee();
    let first = balance_on(&bank, d(2020, 7, 15));
    let second = balance_on(&bank, d(2020, 7, 15));
    assert_eq!(first, second);
    assert_eq!(first, 100 - 7 * 20);
}

#[test]
fn instances_are_merged_in_date_order() {
    let bank = gift_and_coffee();
    let out = transactions_by_date(&bank, d(2020, 2, 10));
    assert_eq!(
        out,
        vec![
            Transaction { amount: -20, cause: "coffee".to_string(), date: d(2020, 1, 1) },
            Transaction { amount: 100, cause: "gift".to_string(), date: d(2020, 1, 5) },
            Transaction { amount: -20, cause: "coffee".to_string(), date: d(2020, 2, 1) },
        ]
    );
}

#[test]
fn points_come_before_instances_of_the_same_date() {
    let mut bank = PiggyBank::new();
    assert_eq!(bank.add_monthly(-20, "coffee".to_string(), 1, d(2020, 1, 1)), Ok(()));
    bank.add_transaction(5, "found".to_string(), d(2020, 2, 1));
    let out = transactions_by_date(&bank, d(2020, 2, 1));
    let causes: Vec<&str> = out.iter().map(|t| t.cause.as_str()).collect();
    assert_eq!(causes, vec!["coffee", "found", "coffee"]);
}

#[test]
fn transactions_stay_sorted_after_every_addition() {
    let mut bank = PiggyBank::new();
    bank.add_transaction(1, "c".to_string(), d(2020, 3, 1));
    bank.add_transaction(2, "a".to_string(), d(2020, 1, 1));
    bank.add_transaction(3, "b".to_string(), d(2020, 2, 1));
    bank.add_transaction(4, "b2".to_string(), d(2020, 2, 1));
    let causes: Vec<&str> = bank.transactions.iter().map(|t| t.cause.as_str()).collect();
    assert_eq!(causes, vec!["a", "b", "b2", "c"]);
}

#[test]
fn overlapping_monthly_of_one_cause_is_refused() {
    let mut bank = PiggyBank::new();
    assert_eq!(bank.add_monthly(-500, "rent".to_string(), 1, d(2020, 1, 1)), Ok(()));
    let before = bank.clone();
    assert_eq!(
        bank.add_monthly(-550, "rent".to_string(), 1, d(2020, 6, 1)),
        Err(LedgerError::Conflict)
    );
    assert_eq!(bank, before);
    assert_eq!(bank.add_monthly(-30, "gym".to_string(), 1, d(2020, 6, 1)), Ok(()));
    assert_eq!(bank.monthly_transactions.len(), 2);
}

#[test]
fn monthly_of_one_cause_is_accepted_after_the_first_has_ended() {
    let mut bank = PiggyBank::new();
    assert_eq!(bank.add_monthly(-500, "rent".to_string(), 1, d(2020, 1, 1)), Ok(()));
    assert_eq!(bank.end_monthly(&"rent".to_string(), d(2020, 5, 31)), Ok(()));
    assert_eq!(bank.monthly_transactions[0].end_date, Some(d(2020, 5, 31)));
    assert_eq!(bank.add_monthly(-550, "rent".to_string(), 1, d(2020, 6, 1)), Ok(()));
    assert_eq!(
        bank.monthly_transactions[1],
        MonthlyTransaction {
            amount: -550,
            cause: "rent".to_string(),
            day: 1,
            start_date: d(2020, 6, 1),
            end_date: None,
        }
    );
    assert_eq!(balance_on(&bank, d(2020, 7, 1)), -5 * 500 - 2 * 550);
}

#[test]
fn ending_an_unknown_monthly_is_refused() {
    let mut bank = gift_and_coffee();
    let before = bank.clone();
    assert_eq!(bank.end_monthly(&"tea".to_string(), d(2020, 5, 31)), Err(LedgerError::NotFound));
    assert_eq!(bank, before);
}

#[test]
fn ending_twice_is_refused_and_keeps_the_first_end() {
    let mut bank = gift_and_coffee();
    assert_eq!(bank.end_monthly(&"coffee".to_string(), d(2020, 5, 31)), Ok(()));
    assert_eq!(bank.end_monthly(&"coffee".to_string(), d(2020, 8, 31)), Err(LedgerError::NotFound));
    assert_eq!(bank.monthly_transactions[0].end_date, Some(d(2020, 5, 31)));
    assert_eq!(balance_on(&bank, d(2021, 1, 1)), 100 - 5 * 20);
}

#[test]
fn set_balance_records_the_difference() {
    let mut bank = gift_and_coffee();
    assert_eq!(bank.set_balance(500, "Set balance".to_string(), d(2020, 3, 10)), Ok(()));
    assert_eq!(
        bank.transactions[1],
        Transaction { amount: 460, cause: "Set balance".to_string(), date: d(2020, 3, 10) }
    );
    assert_eq!(balance_on(&bank, d(2020, 3, 10)), 500);
    assert_eq!(balance_on(&bank, d(2020, 3, 9)), 40);
}

#[test]
fn set_balance_refuses_a_difference_that_is_no_amount() {
    let mut bank = PiggyBank::new();
    bank.add_transaction(i64::MIN, "debt".to_string(), d(2020, 1, 1));
    let before = bank.clone();
    assert_eq!(
        bank.set_balance(1, "Set balance".to_string(), d(2020, 1, 2)),
        Err(LedgerError::AmountOutOfRange)
    );
    assert_eq!(bank, before);
    assert_eq!(bank.set_balance(-1, "Set balance".to_string(), d(2020, 1, 2)), Ok(()));
    assert_eq!(bank.transactions[1].amount, i64::MAX);
}

#[test]
fn configure_changes_only_what_is_given() {
    let mut bank = gift_and_coffee();
    bank.configure(Some(25), None, None);
    assert_eq!(bank.config.payday, 25);
    assert_eq!(bank.config.currency, "$");
    assert_eq!(bank.config.decimal_places, 2);
    bank.configure(None, Some("EUR".to_string()), Some(0));
    assert_eq!(bank.config.payday, 25);
    assert_eq!(bank.config.currency, "EUR");
    assert_eq!(bank.config.decimal_places, 0);
    assert_eq!(bank.transactions.len(), 1);
    assert_eq!(bank.monthly_transactions.len(), 1);
}

#[test]
fn validity_check_finds_bad_dates() {
    let mut bank = gift_and_coffee();
    assert!(bank.is_valid());
    bank.transactions.push(Transaction {
        amount: 1,
        cause: "x".to_string(),
        date: Date { year: 2021, month: 2, day: 30 },
    });
    assert!(!bank.is_valid());
    let mut other = gift_and_coffee();
    other.monthly_transactions[0].day = 0;
    assert!(!other.is_valid());
    let mut third = gift_and_coffee();
    third.config.payday = 32;
    assert!(!third.is_valid());
}

#[test]
fn marker_steps_follow_the_two_states() {
    let day = d(2020, 2, 10);
    assert_eq!(marker_step(MarkerState::Pending, d(2020, 2, 9), day), (MarkerState::Pending, false));
    assert_eq!(marker_step(MarkerState::Pending, d(2020, 2, 10), day), (MarkerState::Emitted, false));
    assert_eq!(marker_step(MarkerState::Pending, d(2020, 2, 11), day), (MarkerState::Emitted, true));
    assert_eq!(marker_step(MarkerState::Emitted, d(2020, 2, 9), day), (MarkerState::Emitted, false));
    assert_eq!(marker_step(MarkerState::Emitted, d(2020, 2, 10), day), (MarkerState::Emitted, false));
    assert_eq!(marker_step(MarkerState::Emitted, d(2020, 2, 11), day), (MarkerState::Emitted, false));
}

#[test]
fn marker_stands_before_the_first_later_transaction() {
    let mut bank = gift_and_coffee();
    bank.add_transaction(-5, "bus".to_string(), d(2020, 2, 20));
    let out = period_activity(&bank, d(2020, 2, 10));
    assert_eq!(
        out,
        vec![
            movement(d(2020, 2, 1), -20, 60, "coffee"),
            marker(d(2020, 2, 10), 60),
            movement(d(2020, 2, 20), -5, 55, "bus"),
            movement(d(2020, 3, 1), -20, 35, "coffee"),
        ]
    );
}

#[test]
fn marker_is_left_out_when_something_moved_on_the_day() {
    let mut bank = gift_and_coffee();
    bank.add_transaction(-5, "bus".to_string(), d(2020, 2, 10));
    let out = period_activity(&bank, d(2020, 2, 10));
    assert_eq!(
        out,
        vec![
            movement(d(2020, 2, 1), -20, 60, "coffee"),
            movement(d(2020, 2, 10), -5, 55, "bus"),
            movement(d(2020, 3, 1), -20, 35, "coffee"),
        ]
    );
}

#[test]
fn marker_stands_alone_in_an_empty_bank() {
    let bank = PiggyBank::new();
    assert_eq!(period_activity(&bank, d(2020, 2, 10)), vec![marker(d(2020, 2, 10), 0)]);
}

#[test]
fn marker_stands_at_the_end_when_nothing_follows() {
    let mut bank = PiggyBank::new();
    bank.configure(Some(15), None, None);
    bank.add_transaction(100, "gift".to_string(), d(2020, 1, 5));
    bank.add_transaction(-30, "book".to_string(), d(2020, 2, 16));
    bank.add_transaction(-1, "later".to_string(), d(2020, 3, 16));
    let out = period_activity(&bank, d(2020, 2, 20));
    assert_eq!(
        out,
        vec![movement(d(2020, 2, 16), -30, 70, "book"), marker(d(2020, 2, 20), 70)]
    );
}

#[test]
fn activity_reaches_from_payday_to_payday() {
    let mut bank = PiggyBank::new();
    bank.configure(Some(15), None, None);
    bank.add_transaction(1, "eve".to_string(), d(2020, 2, 14));
    bank.add_transaction(2, "first".to_string(), d(2020, 2, 15));
    bank.add_transaction(4, "last".to_string(), d(2020, 3, 15));
    bank.add_transaction(8, "after".to_string(), d(2020, 3, 16));
    let out = period_activity(&bank, d(2020, 3, 14));
    assert_eq!(
        out,
        vec![
            movement(d(2020, 2, 15), 2, 3, "first"),
            marker(d(2020, 3, 14), 3),
            movement(d(2020, 3, 15), 4, 7, "last"),
        ]
    );
}

#[test]
fn activity_opens_with_the_balance_before_the_period() {
    let all = vec![
        Transaction { amount: 10, cause: "a".to_string(), date: d(2020, 1, 1) },
        Transaction { amount: 20, cause: "b".to_string(), date: d(2020, 1, 20) },
        Transaction { amount: -5, cause: "c".to_string(), date: d(2020, 2, 1) },
        Transaction { amount: -6, cause: "d".to_string(), date: d(2020, 2, 3) },
        Transaction { amount: -7, cause: "e".to_string(), date: d(2020, 2, 3) },
    ];
    let out = activity_of(&all, d(2020, 2, 1), d(2020, 2, 2));
    assert_eq!(
        out,
        vec![
            movement(d(2020, 2, 1), -5, 25, "c"),
            marker(d(2020, 2, 2), 25),
            movement(d(2020, 2, 3), -6, 19, "d"),
            movement(d(2020, 2, 3), -7, 12, "e"),
        ]
    );
    let markers = out.iter().filter(|l| matches!(l, Activity::Marker { .. })).count();
    assert_eq!(markers, 1);
}
