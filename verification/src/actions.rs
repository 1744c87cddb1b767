//! The actions that change a piggy bank. Each either takes effect as a whole
//! or is refused and leaves the bank as it was; each that takes effect leaves
//! the transactions in ascending order of date.

use vstd::prelude::*;
use crate::date::{Date, valid_day};
use crate::error::LedgerError;
use crate::ledger::{Config, PiggyBank};
use crate::monthly::{monthlies_conflict, periods_overlap, MonthlyTransaction};
use crate::report::{balance, balance_on};
use crate::report_laws::{lemma_balance_after_recording, lemma_balance_after_sorting};
use crate::transaction::{
    ascending,
    lemma_sort_by_date,
    sort_by_date,
    sorted_by_date,
    Transaction,
};

verus! {

/// A monthly transaction of `ms` with the cause of `new` is active in a
/// period that overlaps that of `new`.
pub open spec fn conflicts_with_any(ms: Seq<MonthlyTransaction>, new: MonthlyTransaction) -> bool {
    exists|i: int|
        0 <= i < ms.len() && (#[trigger] ms[i]).cause@ == new.cause@ && periods_overlap(new, ms[i])
}

/// `m` is named `name` and has no end date yet.
pub open spec fn runs_as(m: MonthlyTransaction, name: Seq<char>) -> bool {
    m.cause@ == name && m.end_date.is_none()
}

/// `i` is the place of the first monthly transaction of `ms` that runs as
/// `name`.
pub open spec fn first_running(ms: Seq<MonthlyTransaction>, name: Seq<char>, i: int) -> bool {
    &&& 0 <= i < ms.len()
    &&& runs_as(ms[i], name)
    &&& forall|j: int| 0 <= j < i ==> !runs_as(#[trigger] ms[j], name)
}

/// No monthly transaction of `ms` runs as `name`.
pub open spec fn none_running(ms: Seq<MonthlyTransaction>, name: Seq<char>) -> bool {
    forall|i: int| 0 <= i < ms.len() ==> !runs_as(#[trigger] ms[i], name)
}

/// `after` is `before` with `on` as the end date of the monthly transaction
/// at `i`, and with the transactions in order of date.
pub open spec fn ended_at(before: PiggyBank, after: PiggyBank, i: int, on: Date) -> bool {
    &&& after.monthly_transactions@ == before.monthly_transactions@.update(
        i,
        closed(before.monthly_transactions@[i], on),
    )
    &&& after.transactions@ == sort_by_date(before.transactions@)
    &&& after.config == before.config
}

/// `m` with `on` as its end date.
pub open spec fn closed(m: MonthlyTransaction, on: Date) -> MonthlyTransaction {
    MonthlyTransaction {
        amount: m.amount,
        cause: m.cause,
        day: m.day,
        start_date: m.start_date,
        end_date: Some(on),
    }
}

/// The monthly transaction that starts on `start` and has no end.
pub open spec fn opened(amount: i64, cause: String, day: u8, start: Date) -> MonthlyTransaction {
    MonthlyTransaction { amount, cause, day, start_date: start, end_date: None }
}

/// `config` with each given setting in place of the one it had.
pub open spec fn reconfigured(
    config: Config,
    payday: Option<u8>,
    currency: Option<String>,
    decimal_places: Option<usize>,
) -> Config {
    Config {
        payday: match payday {
            Some(d) => d,
            None => config.payday,
        },
        currency: match currency {
            Some(c) => c,
            None => config.currency,
        },
        decimal_places: match decimal_places {
            Some(n) => n,
            None => config.decimal_places,
        },
    }
}

impl PiggyBank {
    /// Puts the transactions in ascending order of date.
    pub fn sort_transactions(&mut self)
        ensures
            final(self).transactions@ == sort_by_date(old(self).transactions@),
            final(self).monthly_transactions == old(self).monthly_transactions,
            final(self).config == old(self).config,
            ascending(final(self).transactions@),
            old(self).wf() ==> final(self).wf(),
            forall|d: Date| #[trigger] balance(*final(self), d) == balance(*old(self), d),
    {
        proof {
            lemma_sort_by_date(self.transactions@);
        }
        self.transactions = sorted_by_date(&self.transactions);
        proof {
            assert forall|d: Date| #[trigger] balance(*self, d) == balance(*old(self), d) by {
                lemma_balance_after_sorting(*old(self), *self, d);
            }
        }
    }

    /// Records that `amount` moved on `date` because of `cause`.
    pub fn add_transaction(&mut self, amount: i64, cause: String, date: Date)
        requires
            old(self).wf(),
            date.wf(),
        ensures
            final(self).transactions@ == sort_by_date(
                old(self).transactions@.push(Transaction { amount, cause, date }),
            ),
            final(self).monthly_transactions == old(self).monthly_transactions,
            final(self).config == old(self).config,
            ascending(final(self).transactions@),
            final(self).wf(),
            forall|d: Date| #[trigger]
                balance(*final(self), d) == balance(*old(self), d) + if date.le(d) {
                    amount as int
                } else {
                    0
                },
    {
        self.transactions.push(Transaction { amount, cause, date });
        self.sort_transactions();
        proof {
            assert forall|d: Date| #[trigger]
                balance(*self, d) == balance(*old(self), d) + if date.le(d) {
                    amount as int
                } else {
                    0
                } by {
                lemma_balance_after_recording(
                    *old(self),
                    *self,
                    Transaction { amount, cause, date },
                    d,
                );
            }
        }
    }

    /// Records that from `start` on `amount` moves every month on `day`
    /// because of `cause`. Refused with `Conflict` where a monthly transaction
    /// of that cause is active in an overlapping period.
    pub fn add_monthly(&mut self, amount: i64, cause: String, day: u8, start: Date) -> (r: Result<
        (),
        LedgerError,
    >)
        requires
            old(self).wf(),
            valid_day(day),
            start.wf(),
        ensures
            conflicts_with_any(old(self).monthly_transactions@, opened(amount, cause, day, start))
                ==> r == Err::<(), LedgerError>(LedgerError::Conflict) && *final(self) == *old(self),
            !conflicts_with_any(old(self).monthly_transactions@, opened(amount, cause, day, start))
                ==> r == Ok::<(), LedgerError>(())
                && final(self).monthly_transactions@ == old(self).monthly_transactions@.push(
                opened(amount, cause, day, start),
            ) && final(self).transactions@ == sort_by_date(old(self).transactions@)
                && final(self).config == old(self).config,
            final(self).wf(),
            old(self).conflict_free() ==> final(self).conflict_free(),
            r.is_ok() ==> ascending(final(self).transactions@),
    {
        let new = MonthlyTransaction { amount, cause, day, start_date: start, end_date: None };
        let mut i: usize = 0;
        while i < self.monthly_transactions.len()
            invariant
                *self == *old(self),
                self.wf(),
                new == opened(amount, cause, day, start),
                i <= self.monthly_transactions.len(),
                forall|k: int|
                    0 <= k < i ==> !((#[trigger] self.monthly_transactions@[k]).cause@ == new.cause@
                        && periods_overlap(new, self.monthly_transactions@[k])),
            decreases self.monthly_transactions.len() - i,
        {
            if self.monthly_transactions[i].cause == new.cause && monthlies_conflict(
                &new,
                &self.monthly_transactions[i],
            ) {
                return Err(LedgerError::Conflict);
            }
            i += 1;
        }
        self.monthly_transactions.push(new);
        self.sort_transactions();
        Ok(())
    }

    /// Ends the first monthly transaction named `name` that has no end date
    /// yet: `on` is its last day. Refused with `NotFound` where there is none.
    /// A monthly transaction that has an end date keeps it.
    pub fn end_monthly(&mut self, name: &String, on: Date) -> (r: Result<(), LedgerError>)
        requires
            old(self).wf(),
            on.wf(),
        ensures
            r.is_ok() <==> !none_running(old(self).monthly_transactions@, name@),
            r.is_err() ==> r == Err::<(), LedgerError>(LedgerError::NotFound) && *final(self)
                == *old(self),
            forall|i: int| #[trigger]
                first_running(old(self).monthly_transactions@, name@, i) ==> ended_at(
                    *old(self),
                    *final(self),
                    i,
                    on,
                ),
            r.is_ok() ==> ascending(final(self).transactions@),
            final(self).monthly_transactions@.len() == old(self).monthly_transactions@.len(),
            forall|k: int|
                0 <= k < old(self).monthly_transactions@.len() && (#[trigger] old(self).monthly_transactions@[k]).end_date.is_some() ==> final(self).monthly_transactions@[k] == old(self).monthly_transactions@[k],
            final(self).wf(),
            old(self).conflict_free() ==> final(self).conflict_free(),
    {
        let mut i: usize = 0;
        while i < self.monthly_transactions.len()
            invariant
                *self == *old(self),
                self.wf(),
                on.wf(),
                i <= self.monthly_transactions.len(),
                forall|k: int| 0 <= k < i ==> !runs_as(#[trigger] self.monthly_transactions@[k], name@),
            decreases self.monthly_transactions.len() - i,
        {
            if self.monthly_transactions[i].cause == *name
                && self.monthly_transactions[i].end_date.is_none() {
                let ended = MonthlyTransaction {
                    amount: self.monthly_transactions[i].amount,
                    cause: self.monthly_transactions[i].cause.clone(),
                    day: self.monthly_transactions[i].day,
                    start_date: self.monthly_transactions[i].start_date,
                    end_date: Some(on),
                };
                self.monthly_transactions.set(i, ended);
                self.sort_transactions();
                return Ok(());
            }
            i += 1;
        }
        Err(LedgerError::NotFound)
    }

    /// Records on `on` the transaction that makes the balance on `on` equal to
    /// `amount`. Refused with `AmountOutOfRange` where the difference is no
    /// amount that a transaction can carry.
    pub fn set_balance(&mut self, amount: i64, cause: String, on: Date) -> (r: Result<
        (),
        LedgerError,
    >)
        requires
            old(self).wf(),
            on.wf(),
        ensures
            i64::MIN <= amount - balance(*old(self), on) <= i64::MAX ==> r == Ok::<(), LedgerError>(
                (),
            ) && final(self).transactions@ == sort_by_date(
                old(self).transactions@.push(
                    Transaction { amount: (amount - balance(*old(self), on)) as i64, cause, date: on },
                ),
            ) && final(self).monthly_transactions == old(self).monthly_transactions && final(self).config == old(self).config,
            !(i64::MIN <= amount - balance(*old(self), on) <= i64::MAX) ==> r == Err::<
                (),
                LedgerError,
            >(LedgerError::AmountOutOfRange) && *final(self) == *old(self),
            final(self).wf(),
            r.is_ok() ==> balance(*final(self), on) == amount,
            r.is_ok() ==> ascending(final(self).transactions@),
    {
        let current: i128 = balance_on(self, on);
        if current < -0x1_0000_0000_0000_0000 || current > 0x1_0000_0000_0000_0000 {
            return Err(LedgerError::AmountOutOfRange);
        }
        let change: i128 = amount as i128 - current;
        if change < i64::MIN as i128 || change > i64::MAX as i128 {
            return Err(LedgerError::AmountOutOfRange);
        }
        self.add_transaction(change as i64, cause, on);
        Ok(())
    }

    /// Changes the settings that are given and keeps the others.
    pub fn configure(
        &mut self,
        payday: Option<u8>,
        currency: Option<String>,
        decimal_places: Option<usize>,
    )
        requires
            old(self).wf(),
            payday matches Some(d) ==> valid_day(d),
        ensures
            final(self).config == reconfigured(old(self).config, payday, currency, decimal_places),
            final(self).transactions@ == sort_by_date(old(self).transactions@),
            final(self).monthly_transactions == old(self).monthly_transactions,
            ascending(final(self).transactions@),
            final(self).wf(),
    {
        if let Some(d) = payday {
            self.config.payday = d;
        }
        if let Some(c) = currency {
            self.config.currency = c;
        }
        if let Some(n) = decimal_places {
            self.config.decimal_places = n;
        }
        self.sort_transactions();
    }
}

} // verus!
