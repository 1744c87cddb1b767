//! Monthly transactions: what they amount to up to a date, and when two of
//! them would count the same obligation twice.

use vstd::prelude::*;
use crate::calendar::{clamp_day, is_occurrence, occurrence_in};
use crate::date::{Date, valid_day, MAX_YEAR, MIN_YEAR};
use crate::transaction::{strictly_ascending, Transaction};

verus! {

/// A money movement that takes place once a month, on `day` or on the last
/// day of a shorter month, from `start_date` to `end_date`, both included, or
/// without end.
#[derive(Clone, Debug, PartialEq, Eq)]
pub struct MonthlyTransaction {
    pub amount: i64,
    pub cause: String,
    pub day: u8,
    pub start_date: Date,
    pub end_date: Option<Date>,
}

impl MonthlyTransaction {
    /// The day is a day of the month and the dates exist.
    pub open spec fn wf(self) -> bool {
        &&& valid_day(self.day)
        &&& self.start_date.wf()
        &&& self.end_date matches Some(e) ==> e.wf()
    }

    /// The instance of this transaction on `date`.
    pub open spec fn instance(self, date: Date) -> Transaction {
        Transaction { amount: self.amount, cause: self.cause, date }
    }

    /// A copy of the monthly transaction.
    pub fn duplicate(&self) -> (r: MonthlyTransaction)
        ensures
            r == *self,
    {
        MonthlyTransaction {
            amount: self.amount,
            cause: self.cause.clone(),
            day: self.day,
            start_date: self.start_date,
            end_date: self.end_date,
        }
    }

    /// Whether the day is a day of the month and the dates exist.
    pub fn is_valid(&self) -> (b: bool)
        ensures
            b == self.wf(),
    {
        1 <= self.day && self.day <= 31 && self.start_date.is_valid() && match self.end_date {
            Some(e) => e.is_valid(),
            None => true,
        }
    }
}

/// The last date on which `record` can have an instance when it is expanded
/// up to `up_to`: the earlier of `up_to` and the end date.
pub open spec fn cutoff(record: MonthlyTransaction, up_to: Date) -> Date {
    match record.end_date {
        Some(e) => if e.lt(up_to) {
            e
        } else {
            up_to
        },
        None => up_to,
    }
}

/// The date on which the nominal `day` falls in the month numbered `m`
/// (see `Date::month_index`).
pub open spec fn occurrence_at(day: int, m: int) -> Date {
    Date {
        year: (m / 12) as i32,
        month: (m % 12 + 1) as u8,
        day: clamp_day(day, m / 12, m % 12 + 1) as u8,
    }
}

/// The instances of `record` in the months from that of its start date to the
/// month numbered `m`: one for each month whose occurrence of the day lies
/// from the start date to `limit`.
pub open spec fn instances_through(record: MonthlyTransaction, limit: Date, m: int) -> Seq<
    Transaction,
>
    decreases m - record.start_date.month_index() + 1,
{
    if m < record.start_date.month_index() {
        Seq::empty()
    } else {
        let earlier = instances_through(record, limit, m - 1);
        let d = occurrence_at(record.day as int, m);
        if record.start_date.le(d) && d.le(limit) {
            earlier.push(record.instance(d))
        } else {
            earlier
        }
    }
}

/// The instances of `record` up to `up_to`, in ascending order of date.
pub open spec fn expand_spec(record: MonthlyTransaction, up_to: Date) -> Seq<Transaction> {
    instances_through(record, cutoff(record, up_to), cutoff(record, up_to).month_index())
}

/// `date` is a date on which `record` has an instance when it is expanded up
/// to `up_to`.
pub open spec fn falls_due(record: MonthlyTransaction, up_to: Date, date: Date) -> bool {
    &&& is_occurrence(record.day as int, date)
    &&& record.start_date.le(date)
    &&& date.le(cutoff(record, up_to))
}

/// The instances of `record` up to `up_to`, in ascending order of date.
pub fn expand_monthly(record: &MonthlyTransaction, up_to: Date) -> (out: Vec<Transaction>)
    requires
        record.wf(),
        up_to.wf(),
    ensures
        out@ == expand_spec(*record, up_to),
        strictly_ascending(out@),
        forall|t: Transaction| #[trigger]
            out@.contains(t) <==> t == record.instance(t.date) && falls_due(*record, up_to, t.date),
{
    let limit = match record.end_date {
        Some(e) => if e.before(&up_to) {
            e
        } else {
            up_to
        },
        None => up_to,
    };
    let mut out: Vec<Transaction> = Vec::new();
    let mut year: i32 = record.start_date.year;
    let mut month: u8 = record.start_date.month;
    while year < limit.year || (year == limit.year && month <= limit.month)
        invariant
            record.wf(),
            limit.wf(),
            1 <= month <= 12,
            MIN_YEAR <= year <= MAX_YEAR + 1,
            record.start_date.month_index() <= year * 12 + month - 1,
            year * 12 + month - 1 == record.start_date.month_index() || year * 12 + month - 1
                <= limit.month_index() + 1,
            out@ == instances_through(*record, limit, year * 12 + month - 2),
        decreases limit.month_index() + 1 - (year * 12 + month - 1),
    {
        let d = occurrence_in(record.day, year, month);
        if record.start_date.on_or_before(&d) && d.on_or_before(&limit) {
            out.push(Transaction { amount: record.amount, cause: record.cause.clone(), date: d });
        }
        if month == 12 {
            year = year + 1;
            month = 1;
        } else {
            month = month + 1;
        }
    }
    proof {
        lemma_expand_ascending(*record, up_to);
        assert forall|t: Transaction| #[trigger]
            out@.contains(t) <==> t == record.instance(t.date) && falls_due(
                *record,
                up_to,
                t.date,
            ) by {
            lemma_expand_members(*record, up_to, t);
        }
    }
    out
}

/// What the months up to the one numbered `m` contribute: `t` is among the
/// instances exactly if it is the record's instance on a date of a month up to
/// `m` on which the day falls, from the start date to `limit`.
pub proof fn lemma_instances_through_members(
    record: MonthlyTransaction,
    limit: Date,
    m: int,
    t: Transaction,
)
    requires
        record.wf(),
        limit.wf(),
        m <= limit.month_index(),
    ensures
        instances_through(record, limit, m).contains(t) <==> {
            &&& t == record.instance(t.date)
            &&& is_occurrence(record.day as int, t.date)
            &&& record.start_date.le(t.date)
            &&& t.date.le(limit)
            &&& t.date.month_index() <= m
        },
    decreases m - record.start_date.month_index() + 1,
{
    let s = instances_through(record, limit, m);
    if m >= record.start_date.month_index() {
        let earlier = instances_through(record, limit, m - 1);
        let d = occurrence_at(record.day as int, m);
        lemma_instances_through_members(record, limit, m - 1, t);
        if earlier.contains(t) {
            let i = choose|i: int| 0 <= i < earlier.len() && earlier[i] == t;
            assert(s[i] == t);
        }
        if record.start_date.le(d) && d.le(limit) && t == record.instance(d) {
            assert(s[earlier.len() as int] == t);
        }
    }
}

/// The instances of the months up to the one numbered `m` go forward in date.
pub proof fn lemma_instances_through_ascending(record: MonthlyTransaction, limit: Date, m: int)
    requires
        record.wf(),
        limit.wf(),
        m <= limit.month_index(),
    ensures
        strictly_ascending(instances_through(record, limit, m)),
    decreases m - record.start_date.month_index() + 1,
{
    let s = instances_through(record, limit, m);
    if m >= record.start_date.month_index() {
        let earlier = instances_through(record, limit, m - 1);
        lemma_instances_through_ascending(record, limit, m - 1);
        assert forall|i: int, j: int| 0 <= i < j < s.len() implies (#[trigger] s[i]).date.lt(
            (#[trigger] s[j]).date,
        ) by {
            if j >= earlier.len() {
                lemma_instances_through_members(record, limit, m - 1, earlier[i]);
            }
        }
    }
}

/// A transaction is among the instances of `record` up to `up_to` exactly if
/// it carries the record's amount and cause and is dated on an occurrence of
/// the record's day from the start date to the earlier of `up_to` and the end
/// date.
pub proof fn lemma_expand_members(record: MonthlyTransaction, up_to: Date, t: Transaction)
    requires
        record.wf(),
        up_to.wf(),
    ensures
        expand_spec(record, up_to).contains(t) <==> t == record.instance(t.date) && falls_due(
            record,
            up_to,
            t.date,
        ),
{
    let limit = cutoff(record, up_to);
    lemma_instances_through_members(record, limit, limit.month_index(), t);
}

/// The instances of a record go forward in date: no month has two.
pub proof fn lemma_expand_ascending(record: MonthlyTransaction, up_to: Date)
    requires
        record.wf(),
        up_to.wf(),
    ensures
        strictly_ascending(expand_spec(record, up_to)),
{
    let limit = cutoff(record, up_to);
    lemma_instances_through_ascending(record, limit, limit.month_index());
}

/// Expanding up to a later date loses nothing: every instance up to `first`
/// is an instance up to `second`, where `first` is on or before `second`.
pub proof fn lemma_expand_monotone(
    record: MonthlyTransaction,
    first: Date,
    second: Date,
    t: Transaction,
)
    requires
        record.wf(),
        first.wf(),
        second.wf(),
        first.le(second),
        expand_spec(record, first).contains(t),
    ensures
        expand_spec(record, second).contains(t),
{
    lemma_expand_members(record, first, t);
    lemma_expand_members(record, second, t);
}

/// The active periods of `a` and `b` have a day in common: each starts on or
/// before the day the other ends, where a missing end date is never reached.
pub open spec fn periods_overlap(a: MonthlyTransaction, b: MonthlyTransaction) -> bool {
    &&& b.end_date matches Some(e) ==> a.start_date.le(e)
    &&& a.end_date matches Some(e) ==> b.start_date.le(e)
}

/// Whether two monthly transactions of one cause are active in overlapping
/// periods, so that keeping both would count one obligation twice.
pub fn monthlies_conflict(a: &MonthlyTransaction, b: &MonthlyTransaction) -> (r: bool)
    requires
        a.cause@ == b.cause@,
    ensures
        r == periods_overlap(*a, *b),
{
    let a_starts_in_time = match b.end_date {
        Some(e) => a.start_date.on_or_before(&e),
        None => true,
    };
    let b_starts_in_time = match a.end_date {
        Some(e) => b.start_date.on_or_before(&e),
        None => true,
    };
    a_starts_in_time && b_starts_in_time
}

/// Whether two monthly transactions conflict does not depend on the order in
/// which they are given.
pub proof fn lemma_conflict_symmetric(a: MonthlyTransaction, b: MonthlyTransaction)
    ensures
        periods_overlap(a, b) == periods_overlap(b, a),
{
}

} // verus!
