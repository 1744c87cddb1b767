//! One-off money movements, and sequences of them in date order.

use vstd::prelude::*;
use crate::date::Date;

verus! {

/// A single money movement on a date. The amount is counted in the smallest
/// unit of the currency; a negative amount is money spent.
#[derive(Clone, Debug, PartialEq, Eq)]
pub struct Transaction {
    pub amount: i64,
    pub cause: String,
    pub date: Date,
}

impl Transaction {
    /// A copy of the transaction.
    pub fn duplicate(&self) -> (r: Transaction)
        ensures
            r == *self,
    {
        Transaction { amount: self.amount, cause: self.cause.clone(), date: self.date }
    }
}

/// Every transaction of `s` has a date that exists.
pub open spec fn all_dated(s: Seq<Transaction>) -> bool {
    forall|i: int| 0 <= i < s.len() ==> (#[trigger] s[i]).date.wf()
}

/// The sum of the amounts of `s`.
pub open spec fn sum_amounts(s: Seq<Transaction>) -> int
    decreases s.len(),
{
    if s.len() == 0 {
        0
    } else {
        sum_amounts(s.drop_last()) + s.last().amount
    }
}

/// The dates of `s` never go back.
pub open spec fn ascending(s: Seq<Transaction>) -> bool {
    forall|i: int, j: int| 0 <= i <= j < s.len() ==> (#[trigger] s[i]).date.le((#[trigger] s[j]).date)
}

/// The dates of `s` go forward from each transaction to the next.
pub open spec fn strictly_ascending(s: Seq<Transaction>) -> bool {
    forall|i: int, j: int| 0 <= i < j < s.len() ==> (#[trigger] s[i]).date.lt((#[trigger] s[j]).date)
}

/// Where a transaction dated `date` goes into the ascending `s`: behind the
/// last one that is dated on or before `date`.
pub open spec fn insertion_point(s: Seq<Transaction>, date: Date) -> int
    decreases s.len(),
{
    if s.len() == 0 || s.last().date.le(date) {
        s.len() as int
    } else {
        insertion_point(s.drop_last(), date)
    }
}

/// `s` in ascending order of date; transactions of one date keep the order
/// that they have in `s`.
pub open spec fn sort_by_date(s: Seq<Transaction>) -> Seq<Transaction>
    decreases s.len(),
{
    if s.len() == 0 {
        s
    } else {
        let head = sort_by_date(s.drop_last());
        head.insert(insertion_point(head, s.last().date), s.last())
    }
}

/// The insertion point lies in the sequence; in an ascending sequence
/// everything before it is dated on or before `date`, everything from it on
/// is dated after `date`.
pub proof fn lemma_insertion_point(s: Seq<Transaction>, date: Date)
    ensures
        0 <= insertion_point(s, date) <= s.len(),
        forall|i: int| insertion_point(s, date) <= i < s.len() ==> date.lt((#[trigger] s[i]).date),
        ascending(s) ==> forall|i: int|
            0 <= i < insertion_point(s, date) ==> (#[trigger] s[i]).date.le(date),
    decreases s.len(),
{
    if s.len() > 0 && !s.last().date.le(date) {
        let front = s.drop_last();
        lemma_insertion_point(front, date);
        assert forall|i: int| insertion_point(s, date) <= i < s.len() implies date.lt(
            (#[trigger] s[i]).date,
        ) by {
            if i < front.len() {
                assert(front[i] == s[i]);
            }
        }
        assert forall|i: int| ascending(s) && 0 <= i < insertion_point(s, date) implies (#[trigger] s[i]).date.le(
            date,
        ) by {
            assert(front[i] == s[i]);
        }
    }
}

/// Sorting keeps every transaction, as often as it occurs, and leaves the
/// dates ascending.
pub proof fn lemma_sort_by_date(s: Seq<Transaction>)
    ensures
        sort_by_date(s).len() == s.len(),
        sort_by_date(s).to_multiset() == s.to_multiset(),
        ascending(sort_by_date(s)),
        sum_amounts(sort_by_date(s)) == sum_amounts(s),
        all_dated(s) ==> all_dated(sort_by_date(s)),
    decreases s.len(),
{
    broadcast use vstd::seq_lib::to_multiset_insert, vstd::seq_lib::to_multiset_build;

    if s.len() > 0 {
        let front = s.drop_last();
        let head = sort_by_date(front);
        let t = s.last();
        let p = insertion_point(head, t.date);
        lemma_sort_by_date(front);
        lemma_insertion_point(head, t.date);
        assert(s == front.push(t));
        lemma_sum_insert(head, p, t);
    }
}

/// Inserting a transaction anywhere adds its amount to the sum.
pub proof fn lemma_sum_insert(s: Seq<Transaction>, p: int, t: Transaction)
    requires
        0 <= p <= s.len(),
    ensures
        sum_amounts(s.insert(p, t)) == sum_amounts(s) + t.amount,
    decreases s.len(),
{
    let r = s.insert(p, t);
    if p == s.len() {
        assert(r.drop_last() == s);
    } else {
        assert(r.drop_last() == s.drop_last().insert(p, t));
        lemma_sum_insert(s.drop_last(), p, t);
    }
}

/// The sum of a concatenation is the sum of the sums.
pub proof fn lemma_sum_concat(a: Seq<Transaction>, b: Seq<Transaction>)
    ensures
        sum_amounts(a + b) == sum_amounts(a) + sum_amounts(b),
    decreases b.len(),
{
    if b.len() > 0 {
        assert((a + b).drop_last() == a + b.drop_last());
        lemma_sum_concat(a, b.drop_last());
    }
}

/// The sum of `n` amounts lies within `n` times the range of one amount.
pub proof fn lemma_sum_bounds(s: Seq<Transaction>)
    ensures
        -0x8000_0000_0000_0000 * s.len() <= sum_amounts(s) <= 0x8000_0000_0000_0000 * s.len(),
    decreases s.len(),
{
    if s.len() > 0 {
        lemma_sum_bounds(s.drop_last());
    }
}

/// The transactions of `v` in ascending order of date, those of one date in
/// the order that they have in `v`.
pub fn sorted_by_date(v: &Vec<Transaction>) -> (out: Vec<Transaction>)
    ensures
        out@ == sort_by_date(v@),
        out@.len() == v@.len(),
        out@.to_multiset() == v@.to_multiset(),
        ascending(out@),
{
    let mut out: Vec<Transaction> = Vec::new();
    let mut i: usize = 0;
    while i < v.len()
        invariant
            i <= v.len(),
            out@ == sort_by_date(v@.take(i as int)),
            out@.len() == i,
        decreases v.len() - i,
    {
        let t = v[i].duplicate();
        let mut p: usize = out.len();
        proof {
            assert(out@.take(p as int) == out@);
        }
        while p > 0 && !out[p - 1].date.on_or_before(&t.date)
            invariant
                p <= out.len(),
                insertion_point(out@, t.date) == insertion_point(out@.take(p as int), t.date),
            decreases p,
        {
            proof {
                assert(out@.take(p as int).drop_last() == out@.take(p - 1));
            }
            p -= 1;
        }
        proof {
            assert(v@.take(i + 1).drop_last() == v@.take(i as int));
            lemma_sort_by_date(v@.take(i + 1));
        }
        out.insert(p, t);
        i += 1;
    }
    proof {
        assert(v@.take(v.len() as int) == v@);
        lemma_sort_by_date(v@);
    }
    out
}

/// The sum of the amounts of `v`.
pub fn total(v: &Vec<Transaction>) -> (sum: i128)
    ensures
        sum == sum_amounts(v@),
{
    let mut sum: i128 = 0;
    let mut i: usize = 0;
    while i < v.len()
        invariant
            i <= v.len(),
            sum == sum_amounts(v@.take(i as int)),
        decreases v.len() - i,
    {
        proof {
            assert(v@.take(i + 1).drop_last() == v@.take(i as int));
            lemma_sum_bounds(v@.take(i as int));
            lemma_sum_bounds(v@.take(i + 1));
        }
        sum = sum + v[i].amount as i128;
        i += 1;
    }
    proof {
        assert(v@.take(v.len() as int) == v@);
    }
    sum
}

} // verus!
