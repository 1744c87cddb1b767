//! What holds of the reports: where the line of the day stands, what the
//! order of the transactions does not change, and where every movement of a
//! report comes from.

use vstd::prelude::*;
use crate::calendar::{has_next, has_previous, next_occurrence, previous_occurrence};
use crate::date::{lemma_ordinal_orders_dates, Date};
use crate::ledger::PiggyBank;
use crate::monthly::{expand_spec, lemma_expand_members, MonthlyTransaction};
use crate::report::{
    activity,
    balance,
    dated_before,
    dated_from,
    dated_until,
    expansions,
    instances,
    lines_after,
    marker_line,
    movement_line,
    movements,
    period_activity_spec,
    state_after,
    MarkerState,
};
use crate::transaction::{
    all_dated,
    ascending,
    insertion_point,
    lemma_insertion_point,
    lemma_sort_by_date,
    lemma_sum_concat,
    sort_by_date,
    sum_amounts,
    Transaction,
};

verus! {

/// Where the lines of `window` stand when nothing in it is dated on `day`:
/// a line for each transaction in order, and the line of the day before the
/// first transaction dated after `day`, if there is one.
pub proof fn lemma_lines_around_day(window: Seq<Transaction>, opening: int, day: Date)
    requires
        ascending(window),
        all_dated(window),
        day.wf(),
        forall|i: int| 0 <= i < window.len() ==> (#[trigger] window[i]).date != day,
    ensures
        ({
            let p = insertion_point(window, day);
            let lines = lines_after(window, opening, day);
            &&& 0 <= p <= window.len()
            &&& state_after(window, day) == if p == window.len() {
                MarkerState::Pending
            } else {
                MarkerState::Emitted
            }
            &&& lines.len() == if p == window.len() {
                window.len()
            } else {
                window.len() + 1
            }
            &&& p < window.len() ==> lines[p] == marker_line(
                day,
                opening + sum_amounts(window.take(p)),
            )
            &&& forall|i: int|
                0 <= i < p ==> #[trigger] lines[i] == movement_line(
                    window[i],
                    opening + sum_amounts(window.take(i + 1)),
                )
            &&& forall|i: int|
                p <= i < window.len() ==> #[trigger] lines[i + 1] == movement_line(
                    window[i],
                    opening + sum_amounts(window.take(i + 1)),
                )
        }),
    decreases window.len(),
{
    if window.len() > 0 {
        let front = window.drop_last();
        let n = front.len() as int;
        lemma_lines_around_day(front, opening, day);
        lemma_insertion_point(front, day);
        let q = insertion_point(front, day);
        assert(window.take(n + 1) == window);
        assert forall|i: int| 0 <= i < n implies front.take(i + 1) == #[trigger] window.take(i + 1) by {}
        assert(front.take(q) =~= window.take(q));
    }
}

/// Where nothing moved on `day`, the activity holds the line of the day once:
/// directly before the line of the first transaction dated after `day`, or at
/// the end where there is none. Every other line is that of a transaction, in
/// order, with the balance after it.
pub proof fn lemma_marker_placement(window: Seq<Transaction>, opening: int, day: Date)
    requires
        ascending(window),
        all_dated(window),
        day.wf(),
        forall|i: int| 0 <= i < window.len() ==> (#[trigger] window[i]).date != day,
    ensures
        ({
            let p = insertion_point(window, day);
            let lines = activity(window, opening, day);
            &&& 0 <= p <= window.len()
            &&& forall|i: int| 0 <= i < p ==> (#[trigger] window[i]).date.lt(day)
            &&& forall|i: int| p <= i < window.len() ==> day.lt((#[trigger] window[i]).date)
            &&& lines.len() == window.len() + 1
            &&& lines[p] == marker_line(day, opening + sum_amounts(window.take(p)))
            &&& forall|i: int|
                0 <= i < p ==> #[trigger] lines[i] == movement_line(
                    window[i],
                    opening + sum_amounts(window.take(i + 1)),
                )
            &&& forall|i: int|
                p <= i < window.len() ==> #[trigger] lines[i + 1] == movement_line(
                    window[i],
                    opening + sum_amounts(window.take(i + 1)),
                )
        }),
{
    lemma_lines_around_day(window, opening, day);
    lemma_insertion_point(window, day);
    assert forall|i: int| 0 <= i < insertion_point(window, day) implies (#[trigger] window[i]).date.lt(
        day,
    ) by {
        lemma_ordinal_orders_dates(window[i].date, day);
    }
    assert(window.take(window.len() as int) == window);
}

/// Putting one more transaction anywhere into `s` adds its amount to what is
/// dated on or before `date`, if it is dated so itself.
pub proof fn lemma_dated_until_insert(s: Seq<Transaction>, p: int, t: Transaction, date: Date)
    requires
        0 <= p <= s.len(),
    ensures
        sum_amounts(dated_until(s.insert(p, t), date)) == sum_amounts(dated_until(s, date)) + if t.date.le(
            date,
        ) {
            t.amount as int
        } else {
            0
        },
    decreases s.len(),
{
    let r = s.insert(p, t);
    if p == s.len() {
        assert(r.drop_last() == s);
        assert(dated_until(s, date).push(t).drop_last() == dated_until(s, date));
    } else {
        let front = s.drop_last();
        assert(r.drop_last() == front.insert(p, t));
        lemma_dated_until_insert(front, p, t, date);
        assert(dated_until(front, date).push(s.last()).drop_last() == dated_until(front, date));
        assert(dated_until(front.insert(p, t), date).push(s.last()).drop_last() == dated_until(
            front.insert(p, t),
            date,
        ));
    }
}

/// The order of the transactions does not matter to what is dated on or
/// before `date`: sorted or not, the amounts add up to the same.
pub proof fn lemma_sorting_keeps_sums(s: Seq<Transaction>, date: Date)
    ensures
        sum_amounts(dated_until(sort_by_date(s), date)) == sum_amounts(dated_until(s, date)),
    decreases s.len(),
{
    if s.len() > 0 {
        let front = s.drop_last();
        let head = sort_by_date(front);
        lemma_sorting_keeps_sums(front, date);
        lemma_insertion_point(head, s.last().date);
        lemma_dated_until_insert(head, insertion_point(head, s.last().date), s.last(), date);
        lemma_dated_until_insert(front, front.len() as int, s.last(), date);
        assert(front.insert(front.len() as int, s.last()) == s);
    }
}

/// What recording a transaction does to the balance: a bank that holds the
/// transactions of `before` and `t`, in order of date, and is otherwise as
/// `before`, has on `date` the balance of `before`, and the amount of `t` more
/// if `t` is dated on or before `date`.
pub proof fn lemma_balance_after_recording(
    before: PiggyBank,
    after: PiggyBank,
    t: Transaction,
    date: Date,
)
    requires
        after.transactions@ == sort_by_date(before.transactions@.push(t)),
        after.monthly_transactions@ == before.monthly_transactions@,
    ensures
        balance(after, date) == balance(before, date) + if t.date.le(date) {
            t.amount as int
        } else {
            0
        },
{
    let s = before.transactions@;
    lemma_sorting_keeps_sums(s.push(t), date);
    lemma_dated_until_insert(s, s.len() as int, t, date);
    assert(s.insert(s.len() as int, t) == s.push(t));
    lemma_sum_concat(dated_until(after.transactions@, date), expansions(after.monthly_transactions@, date));
    lemma_sum_concat(dated_until(s, date), expansions(before.monthly_transactions@, date));
}

/// Putting the transactions in order of date changes no balance.
pub proof fn lemma_balance_after_sorting(before: PiggyBank, after: PiggyBank, date: Date)
    requires
        after.transactions@ == sort_by_date(before.transactions@),
        after.monthly_transactions@ == before.monthly_transactions@,
    ensures
        balance(after, date) == balance(before, date),
{
    lemma_sorting_keeps_sums(before.transactions@, date);
    lemma_sum_concat(dated_until(after.transactions@, date), expansions(after.monthly_transactions@, date));
    lemma_sum_concat(
        dated_until(before.transactions@, date),
        expansions(before.monthly_transactions@, date),
    );
}

/// What is in `a.push(x)` is in `a` or is `x`.
proof fn lemma_push_members(a: Seq<Transaction>, x: Transaction, t: Transaction)
    ensures
        a.push(x).contains(t) <==> a.contains(t) || t == x,
{
    let s = a.push(x);
    if a.contains(t) {
        let i = choose|i: int| 0 <= i < a.len() && a[i] == t;
        assert(s[i] == t);
    }
    if t == x {
        assert(s[a.len() as int] == t);
    }
}

/// What is in `a + b` is in `a` or in `b`.
proof fn lemma_concat_members(a: Seq<Transaction>, b: Seq<Transaction>, t: Transaction)
    ensures
        (a + b).contains(t) <==> a.contains(t) || b.contains(t),
{
    let s = a + b;
    if a.contains(t) {
        let i = choose|i: int| 0 <= i < a.len() && a[i] == t;
        assert(s[i] == t);
    }
    if b.contains(t) {
        let i = choose|i: int| 0 <= i < b.len() && b[i] == t;
        assert(s[a.len() + i] == t);
    }
}

/// The transactions dated on or before `date` are those of `s` that are
/// dated so.
pub proof fn lemma_dated_until_members(s: Seq<Transaction>, date: Date, t: Transaction)
    ensures
        dated_until(s, date).contains(t) <==> s.contains(t) && t.date.le(date),
    decreases s.len(),
{
    if s.len() > 0 {
        let front = s.drop_last();
        lemma_dated_until_members(front, date, t);
        lemma_push_members(dated_until(front, date), s.last(), t);
        lemma_push_members(front, s.last(), t);
        assert(front.push(s.last()) == s);
    }
}

/// An instance of the monthly transactions is an instance of one of them.
pub proof fn lemma_expansions_members(s: Seq<MonthlyTransaction>, date: Date, t: Transaction)
    ensures
        expansions(s, date).contains(t) <==> exists|i: int|
            0 <= i < s.len() && #[trigger] expand_spec(s[i], date).contains(t),
    decreases s.len(),
{
    if s.len() > 0 {
        let front = s.drop_last();
        lemma_expansions_members(front, date, t);
        lemma_concat_members(expansions(front, date), expand_spec(s.last(), date), t);
        if exists|i: int| 0 <= i < s.len() && #[trigger] expand_spec(s[i], date).contains(t) {
            let i = choose|i: int| 0 <= i < s.len() && #[trigger] expand_spec(s[i], date).contains(t);
            if i < front.len() {
                assert(front[i] == s[i]);
            }
        }
    }
}

/// What has moved money up to `date` is the transactions dated on or before
/// `date` together with the instances up to `date` of each monthly
/// transaction, and nothing else.
pub proof fn lemma_instances_members(bank: PiggyBank, date: Date, t: Transaction)
    ensures
        instances(bank, date).contains(t) <==> (bank.transactions@.contains(t) && t.date.le(date))
            || exists|i: int|
            0 <= i < bank.monthly_transactions@.len() && #[trigger] expand_spec(
                bank.monthly_transactions@[i],
                date,
            ).contains(t),
{
    broadcast use vstd::seq_lib::to_multiset_contains;

    let all = movements(bank, date);
    lemma_sort_by_date(all);
    assert(instances(bank, date).contains(t) <==> all.contains(t)) by {
        assert(instances(bank, date).to_multiset().count(t) == all.to_multiset().count(t));
    }
    lemma_concat_members(
        dated_until(bank.transactions@, date),
        expansions(bank.monthly_transactions@, date),
        t,
    );
    lemma_dated_until_members(bank.transactions@, date, t);
    lemma_expansions_members(bank.monthly_transactions@, date, t);
}

/// Everything that has moved money up to `date` is dated on a day that
/// exists, on or before `date`.
pub proof fn lemma_instances_dated(bank: PiggyBank, date: Date)
    requires
        bank.wf(),
        date.wf(),
    ensures
        all_dated(instances(bank, date)),
        forall|i: int|
            0 <= i < instances(bank, date).len() ==> (#[trigger] instances(bank, date)[i]).date.le(
                date,
            ),
{
    let all = instances(bank, date);
    assert forall|i: int| 0 <= i < all.len() implies (#[trigger] all[i]).date.wf() && all[i].date.le(
        date,
    ) by {
        let t = all[i];
        lemma_instances_members(bank, date, t);
        if !(bank.transactions@.contains(t) && t.date.le(date)) {
            let k = choose|k: int|
                0 <= k < bank.monthly_transactions@.len() && #[trigger] expand_spec(
                    bank.monthly_transactions@[k],
                    date,
                ).contains(t);
            lemma_expand_members(bank.monthly_transactions@[k], date, t);
        }
    }
}

/// In an ascending sequence the transactions dated on or after `from` are
/// its tail.
pub proof fn lemma_window_is_tail(s: Seq<Transaction>, from: Date)
    requires
        ascending(s),
    ensures
        dated_from(s, from).len() <= s.len(),
        dated_from(s, from) == s.skip(s.len() - dated_from(s, from).len()),
        dated_before(s, from) == s.take(s.len() - dated_from(s, from).len()),
    decreases s.len(),
{
    if s.len() > 0 {
        let front = s.drop_last();
        lemma_window_is_tail(front, from);
        let k = front.len() - dated_from(front, from).len();
        if !from.le(s.last().date) && k < front.len() {
            lemma_dated_from_holds(front, from, 0);
        }
    }
}

/// Whatever stands among the transactions dated on or after `from` is dated
/// so.
proof fn lemma_dated_from_holds(s: Seq<Transaction>, from: Date, i: int)
    requires
        0 <= i < dated_from(s, from).len(),
    ensures
        from.le(dated_from(s, from)[i].date),
    decreases s.len(),
{
    if s.len() > 0 {
        let front = s.drop_last();
        if i < dated_from(front, from).len() {
            lemma_dated_from_holds(front, from, i);
        }
    }
}

/// The report on a day on which nothing moved holds the line of that day
/// once: directly before the line of the first movement dated after the day,
/// or at the end where there is none. Every other line is that of a movement
/// of the period, in order, with the balance after it.
pub proof fn lemma_period_marker(bank: PiggyBank, date: Date)
    requires
        bank.wf(),
        date.wf(),
        has_previous(bank.config.payday, date),
        has_next(bank.config.payday, date),
        forall|t: Transaction|
            #[trigger] instances(bank, next_occurrence(bank.config.payday as int, date)).contains(t)
                ==> t.date != date,
    ensures
        ({
            let all = instances(bank, next_occurrence(bank.config.payday as int, date));
            let from = previous_occurrence(bank.config.payday as int, date);
            let window = dated_from(all, from);
            let opening = sum_amounts(dated_before(all, from));
            let p = insertion_point(window, date);
            let lines = period_activity_spec(bank, date);
            &&& 0 <= p <= window.len()
            &&& forall|i: int| 0 <= i < p ==> (#[trigger] window[i]).date.lt(date)
            &&& forall|i: int| p <= i < window.len() ==> date.lt((#[trigger] window[i]).date)
            &&& lines.len() == window.len() + 1
            &&& lines[p] == marker_line(date, opening + sum_amounts(window.take(p)))
            &&& forall|i: int|
                0 <= i < p ==> #[trigger] lines[i] == movement_line(
                    window[i],
                    opening + sum_amounts(window.take(i + 1)),
                )
            &&& forall|i: int|
                p <= i < window.len() ==> #[trigger] lines[i + 1] == movement_line(
                    window[i],
                    opening + sum_amounts(window.take(i + 1)),
                )
        }),
{
    let to = next_occurrence(bank.config.payday as int, date);
    let from = previous_occurrence(bank.config.payday as int, date);
    let all = instances(bank, to);
    let window = dated_from(all, from);
    lemma_sort_by_date(movements(bank, to));
    lemma_instances_dated(bank, to);
    lemma_window_is_tail(all, from);
    let k = all.len() - window.len();
    assert forall|i: int| 0 <= i < window.len() implies (#[trigger] window[i]).date.wf()
        && window[i].date != date by {
        assert(all.contains(all[k + i]));
    }
    lemma_marker_placement(window, sum_amounts(dated_before(all, from)), date);
}

} // verus!
