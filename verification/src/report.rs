//! What a piggy bank amounts to: its transactions up to a date, its balance
//! on a date, and the activity of the pay period around a date.

use vstd::prelude::*;
use crate::calendar::{
    get_next_day,
    get_previous_day,
    has_next,
    has_previous,
    next_occurrence,
    previous_occurrence,
};
use crate::date::Date;
use crate::ledger::{all_regular, PiggyBank};
use crate::monthly::{expand_monthly, expand_spec, MonthlyTransaction};
use crate::report_laws::lemma_instances_members;
use crate::transaction::{
    ascending,
    lemma_sort_by_date,
    lemma_sum_bounds,
    lemma_sum_concat,
    sort_by_date,
    sorted_by_date,
    sum_amounts,
    total,
    Transaction,
};

verus! {

/// The transactions of `s` dated on or before `date`, in the order of `s`.
pub open spec fn dated_until(s: Seq<Transaction>, date: Date) -> Seq<Transaction>
    decreases s.len(),
{
    if s.len() == 0 {
        s
    } else if s.last().date.le(date) {
        dated_until(s.drop_last(), date).push(s.last())
    } else {
        dated_until(s.drop_last(), date)
    }
}

/// The transactions of `s` dated before `date`, in the order of `s`.
pub open spec fn dated_before(s: Seq<Transaction>, date: Date) -> Seq<Transaction>
    decreases s.len(),
{
    if s.len() == 0 {
        s
    } else if s.last().date.lt(date) {
        dated_before(s.drop_last(), date).push(s.last())
    } else {
        dated_before(s.drop_last(), date)
    }
}

/// The transactions of `s` dated on or after `date`, in the order of `s`.
pub open spec fn dated_from(s: Seq<Transaction>, date: Date) -> Seq<Transaction>
    decreases s.len(),
{
    if s.len() == 0 {
        s
    } else if date.le(s.last().date) {
        dated_from(s.drop_last(), date).push(s.last())
    } else {
        dated_from(s.drop_last(), date)
    }
}

/// The instances up to `date` of the monthly transactions of `s`, those of
/// one after those of another, in the order of `s`.
pub open spec fn expansions(s: Seq<MonthlyTransaction>, date: Date) -> Seq<Transaction>
    decreases s.len(),
{
    if s.len() == 0 {
        Seq::empty()
    } else {
        expansions(s.drop_last(), date) + expand_spec(s.last(), date)
    }
}

/// Everything that has moved money up to `date`, before it is put in order:
/// the transactions dated on or before `date`, then the instances of the
/// monthly transactions.
pub open spec fn movements(bank: PiggyBank, date: Date) -> Seq<Transaction> {
    dated_until(bank.transactions@, date) + expansions(bank.monthly_transactions@, date)
}

/// Everything that has moved money up to `date`, in ascending order of date.
pub open spec fn instances(bank: PiggyBank, date: Date) -> Seq<Transaction> {
    sort_by_date(movements(bank, date))
}

/// The balance on `date`: the sum of everything that has moved money up to it.
pub open spec fn balance(bank: PiggyBank, date: Date) -> int {
    sum_amounts(movements(bank, date))
}

/// Everything that has moved money up to `date`: the transactions dated on or
/// before `date` and the instances of the monthly transactions, in ascending
/// order of date. On one date transactions come first, then instances.
pub fn transactions_by_date(bank: &PiggyBank, date: Date) -> (out: Vec<Transaction>)
    requires
        bank.wf(),
        date.wf(),
    ensures
        out@ == instances(*bank, date),
        out@.to_multiset() == movements(*bank, date).to_multiset(),
        ascending(out@),
        sum_amounts(out@) == balance(*bank, date),
        forall|t: Transaction| #[trigger]
            out@.contains(t) <==> (bank.transactions@.contains(t) && t.date.le(date)) || exists|
                i: int,
            |
                0 <= i < bank.monthly_transactions@.len() && #[trigger] expand_spec(
                    bank.monthly_transactions@[i],
                    date,
                ).contains(t),
{
    let mut all: Vec<Transaction> = Vec::new();
    let mut i: usize = 0;
    while i < bank.transactions.len()
        invariant
            i <= bank.transactions.len(),
            all@ == dated_until(bank.transactions@.take(i as int), date),
        decreases bank.transactions.len() - i,
    {
        proof {
            assert(bank.transactions@.take(i + 1).drop_last() == bank.transactions@.take(i as int));
        }
        if bank.transactions[i].date.on_or_before(&date) {
            all.push(bank.transactions[i].duplicate());
        }
        i += 1;
    }
    proof {
        assert(bank.transactions@.take(i as int) == bank.transactions@);
    }
    let ghost points = all@;
    let mut j: usize = 0;
    while j < bank.monthly_transactions.len()
        invariant
            j <= bank.monthly_transactions.len(),
            all_regular(bank.monthly_transactions@),
            date.wf(),
            all@ == points + expansions(bank.monthly_transactions@.take(j as int), date),
        decreases bank.monthly_transactions.len() - j,
    {
        proof {
            assert(bank.monthly_transactions@.take(j + 1).drop_last()
                == bank.monthly_transactions@.take(j as int));
        }
        let mut more = expand_monthly(&bank.monthly_transactions[j], date);
        all.append(&mut more);
        j += 1;
    }
    proof {
        assert(bank.monthly_transactions@.take(j as int) == bank.monthly_transactions@);
        lemma_sort_by_date(all@);
    }
    let out = sorted_by_date(&all);
    proof {
        assert forall|t: Transaction| #[trigger]
            out@.contains(t) <==> (bank.transactions@.contains(t) && t.date.le(
                date,
            )) || exists|i: int|
                0 <= i < bank.monthly_transactions@.len() && #[trigger] expand_spec(
                    bank.monthly_transactions@[i],
                    date,
                ).contains(t) by {
            lemma_instances_members(*bank, date, t);
        }
    }
    out
}

/// The balance on `date`.
pub fn balance_on(bank: &PiggyBank, date: Date) -> (sum: i128)
    requires
        bank.wf(),
        date.wf(),
    ensures
        sum == balance(*bank, date),
        sum == sum_amounts(dated_until(bank.transactions@, date)) + sum_amounts(
            expansions(bank.monthly_transactions@, date),
        ),
{
    let all = transactions_by_date(bank, date);
    proof {
        lemma_sum_concat(
            dated_until(bank.transactions@, date),
            expansions(bank.monthly_transactions@, date),
        );
    }
    total(&all)
}

/// Whether the mark of the day of the report has found its place in the
/// activity.
#[derive(Clone, Copy, Debug, PartialEq, Eq, Structural)]
pub enum MarkerState {
    /// Nothing dated on or after the day has been seen.
    Pending,
    /// The day is marked, by a transaction of that day or by a line of its own.
    Emitted,
}

/// One line of the activity of a pay period.
#[derive(Clone, Debug, PartialEq, Eq)]
pub enum Activity {
    /// Money moved: when, how much, the balance after it, and why.
    Movement { date: Date, delta: i64, balance: i128, cause: String },
    /// The day of the report, on which nothing moved, and the balance on it.
    Marker { date: Date, balance: i128 },
}

/// What a transaction dated `instant` does to the state of the mark, and
/// whether the line of the day has to be written before it: it has to when a
/// transaction after the day arrives while the mark is pending; a transaction
/// of the day itself marks the day without a line.
pub open spec fn marker_step_spec(state: MarkerState, instant: Date, day: Date) -> (
    MarkerState,
    bool,
) {
    match state {
        MarkerState::Emitted => (MarkerState::Emitted, false),
        MarkerState::Pending => if instant == day {
            (MarkerState::Emitted, false)
        } else if day.lt(instant) {
            (MarkerState::Emitted, true)
        } else {
            (MarkerState::Pending, false)
        },
    }
}

/// The state of the mark after the transactions of `window`.
pub open spec fn state_after(window: Seq<Transaction>, day: Date) -> MarkerState
    decreases window.len(),
{
    if window.len() == 0 {
        MarkerState::Pending
    } else {
        marker_step_spec(state_after(window.drop_last(), day), window.last().date, day).0
    }
}

/// The line of the day, with the balance that the day ends on.
pub open spec fn marker_line(day: Date, balance: int) -> Activity {
    Activity::Marker { date: day, balance: balance as i128 }
}

/// The line of a transaction, with the balance after it.
pub open spec fn movement_line(t: Transaction, balance: int) -> Activity {
    Activity::Movement { date: t.date, delta: t.amount, balance: balance as i128, cause: t.cause }
}

/// The lines that the transactions of `window` give, from the balance
/// `opening`: one for each, and before the first one after `day` the line of
/// the day, unless a transaction of `day` came before.
pub open spec fn lines_after(window: Seq<Transaction>, opening: int, day: Date) -> Seq<Activity>
    decreases window.len(),
{
    if window.len() == 0 {
        Seq::empty()
    } else {
        let front = window.drop_last();
        let lines = lines_after(front, opening, day);
        let line = movement_line(window.last(), opening + sum_amounts(window));
        if marker_step_spec(state_after(front, day), window.last().date, day).1 {
            lines.push(marker_line(day, opening + sum_amounts(front))).push(line)
        } else {
            lines.push(line)
        }
    }
}

/// The activity that the transactions of `window` give, from the balance
/// `opening`: their lines, and at the end the line of the day if it has not
/// found its place among them.
pub open spec fn activity(window: Seq<Transaction>, opening: int, day: Date) -> Seq<Activity> {
    let lines = lines_after(window, opening, day);
    if state_after(window, day) == MarkerState::Pending {
        lines.push(marker_line(day, opening + sum_amounts(window)))
    } else {
        lines
    }
}

/// One step of the scan that places the line of the day: the state after a
/// transaction dated `instant`, and whether the line goes before it.
pub fn marker_step(state: MarkerState, instant: Date, day: Date) -> (r: (MarkerState, bool))
    ensures
        r == marker_step_spec(state, instant, day),
{
    match state {
        MarkerState::Emitted => (MarkerState::Emitted, false),
        MarkerState::Pending => if instant == day {
            (MarkerState::Emitted, false)
        } else if day.before(&instant) {
            (MarkerState::Emitted, true)
        } else {
            (MarkerState::Pending, false)
        },
    }
}

/// The activity of transactions that are given in order: those dated before
/// `from` only make up the opening balance, each of the others gets a line
/// with the balance after it, and the line of `day` stands where `day` falls
/// among them.
pub fn activity_of(all: &Vec<Transaction>, from: Date, day: Date) -> (out: Vec<Activity>)
    ensures
        out@ == activity(dated_from(all@, from), sum_amounts(dated_before(all@, from)), day),
{
    let mut opening: i128 = 0;
    let mut window: Vec<Transaction> = Vec::new();
    let mut i: usize = 0;
    while i < all.len()
        invariant
            i <= all.len(),
            window@ == dated_from(all@.take(i as int), from),
            opening == sum_amounts(dated_before(all@.take(i as int), from)),
            dated_before(all@.take(i as int), from).len() + window@.len() == i,
        decreases all.len() - i,
    {
        proof {
            assert(all@.take(i + 1).drop_last() == all@.take(i as int));
            let before = dated_before(all@.take(i as int), from);
            assert(before.push(all@[i as int]).drop_last() == before);
            lemma_sum_bounds(before);
            lemma_sum_bounds(dated_before(all@.take(i + 1), from));
        }
        if all[i].date.before(&from) {
            opening = opening + all[i].amount as i128;
        } else {
            window.push(all[i].duplicate());
        }
        i += 1;
    }
    proof {
        assert(all@.take(i as int) == all@);
        lemma_sum_bounds(dated_before(all@, from));
    }
    let ghost skipped = dated_before(all@, from).len();
    let mut out: Vec<Activity> = Vec::new();
    let mut state = MarkerState::Pending;
    let mut running: i128 = opening;
    let mut k: usize = 0;
    while k < window.len()
        invariant
            k <= window.len(),
            skipped + window@.len() <= usize::MAX,
            -0x8000_0000_0000_0000 * skipped <= opening <= 0x8000_0000_0000_0000 * skipped,
            out@ == lines_after(window@.take(k as int), opening as int, day),
            state == state_after(window@.take(k as int), day),
            running == opening + sum_amounts(window@.take(k as int)),
        decreases window.len() - k,
    {
        proof {
            assert(window@.take(k + 1).drop_last() == window@.take(k as int));
            lemma_sum_bounds(window@.take(k as int));
            lemma_sum_bounds(window@.take(k + 1));
        }
        let step = marker_step(state, window[k].date, day);
        if step.1 {
            out.push(Activity::Marker { date: day, balance: running });
        }
        running = running + window[k].amount as i128;
        out.push(
            Activity::Movement {
                date: window[k].date,
                delta: window[k].amount,
                balance: running,
                cause: window[k].cause.clone(),
            },
        );
        state = step.0;
        k += 1;
    }
    proof {
        assert(window@.take(k as int) == window@);
    }
    if state == MarkerState::Pending {
        out.push(Activity::Marker { date: day, balance: running });
    }
    out
}

/// The activity of the pay period around `date`: that of everything that has
/// moved money up to the next payday after `date`, with a line for what is
/// dated from the latest payday on or before `date` on.
pub open spec fn period_activity_spec(bank: PiggyBank, date: Date) -> Seq<Activity> {
    let from = previous_occurrence(bank.config.payday as int, date);
    let to = next_occurrence(bank.config.payday as int, date);
    let all = instances(bank, to);
    activity(dated_from(all, from), sum_amounts(dated_before(all, from)), date)
}

/// The activity of the pay period around `date`: a line for everything that
/// moves money from the latest payday on or before `date` up to the next
/// payday, each with the balance after it, and the line of `date` itself
/// where it falls among them, unless something moved on that very day.
pub fn period_activity(bank: &PiggyBank, date: Date) -> (out: Vec<Activity>)
    requires
        bank.wf(),
        date.wf(),
        has_previous(bank.config.payday, date),
        has_next(bank.config.payday, date),
    ensures
        out@ == period_activity_spec(*bank, date),
{
    let from = get_previous_day(bank.config.payday, date);
    let to = get_next_day(bank.config.payday, date);
    let all = transactions_by_date(bank, to);
    activity_of(&all, from, date)
}

} // verus!
