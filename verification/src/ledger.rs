//! The piggy bank: its transactions, its monthly transactions and its settings.

use vstd::prelude::*;
use crate::date::valid_day;
use crate::monthly::{periods_overlap, MonthlyTransaction};
use crate::transaction::{all_dated, Transaction};

verus! {

/// The settings of a piggy bank.
#[derive(Clone, Debug, PartialEq, Eq)]
pub struct Config {
    /// The day of the month that starts a pay period.
    pub payday: u8,
    /// What is written before an amount.
    pub currency: String,
    /// How many digits of an amount stand behind the decimal point.
    pub decimal_places: usize,
}

/// A piggy bank.
#[derive(Clone, Debug, PartialEq, Eq)]
pub struct PiggyBank {
    pub transactions: Vec<Transaction>,
    pub monthly_transactions: Vec<MonthlyTransaction>,
    pub config: Config,
}

/// Every monthly transaction of `s` is well formed.
pub open spec fn all_regular(s: Seq<MonthlyTransaction>) -> bool {
    forall|i: int| 0 <= i < s.len() ==> (#[trigger] s[i]).wf()
}

/// No two monthly transactions of `s` with one cause are active in
/// overlapping periods.
pub open spec fn no_conflicts(s: Seq<MonthlyTransaction>) -> bool {
    forall|i: int, j: int|
        0 <= i < j < s.len() && (#[trigger] s[i]).cause@ == (#[trigger] s[j]).cause@
            ==> !periods_overlap(s[i], s[j])
}

impl PiggyBank {
    /// Every date in the bank exists and every day is a day of the month.
    pub open spec fn wf(self) -> bool {
        &&& all_dated(self.transactions@)
        &&& all_regular(self.monthly_transactions@)
        &&& valid_day(self.config.payday)
    }

    /// No obligation is counted twice: see `no_conflicts`.
    pub open spec fn conflict_free(self) -> bool {
        no_conflicts(self.monthly_transactions@)
    }

    /// An empty piggy bank, with the first of the month as payday and amounts
    /// written with `$` and two decimal places.
    pub fn new() -> (bank: PiggyBank)
        ensures
            bank.wf(),
            bank.conflict_free(),
            bank.transactions@.len() == 0,
            bank.monthly_transactions@.len() == 0,
            bank.config.payday == 1,
            bank.config.currency@ == "$"@,
            bank.config.decimal_places == 2,
    {
        PiggyBank {
            transactions: Vec::new(),
            monthly_transactions: Vec::new(),
            config: Config { payday: 1, currency: "$".to_owned(), decimal_places: 2 },
        }
    }

    /// Whether every date in the bank exists and every day is a day of the
    /// month.
    pub fn is_valid(&self) -> (b: bool)
        ensures
            b == self.wf(),
    {
        if self.config.payday < 1 || self.config.payday > 31 {
            return false;
        }
        let mut i: usize = 0;
        while i < self.transactions.len()
            invariant
                i <= self.transactions.len(),
                all_dated(self.transactions@.take(i as int)),
            decreases self.transactions.len() - i,
        {
            if !self.transactions[i].date.is_valid() {
                return false;
            }
            i += 1;
        }
        proof {
            assert(self.transactions@.take(i as int) == self.transactions@);
        }
        let mut j: usize = 0;
        while j < self.monthly_transactions.len()
            invariant
                j <= self.monthly_transactions.len(),
                all_regular(self.monthly_transactions@.take(j as int)),
            decreases self.monthly_transactions.len() - j,
        {
            if !self.monthly_transactions[j].is_valid() {
                return false;
            }
            j += 1;
        }
        proof {
            assert(self.monthly_transactions@.take(j as int) == self.monthly_transactions@);
        }
        true
    }
}

} // verus!
