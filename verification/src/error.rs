//! The ways an action on the ledger can be refused.

use vstd::prelude::*;

verus! {

/// Why an action was refused. A refused action leaves the ledger as it was.
#[derive(Clone, Copy, Debug, PartialEq, Eq, Structural)]
pub enum LedgerError {
    /// A monthly transaction with the same cause is active in an overlapping period.
    Conflict,
    /// No monthly transaction with the given cause is still running.
    NotFound,
    /// The given year, month and day name no calendar date.
    MalformedDate,
    /// The amount that the action would have to record does not fit an amount.
    AmountOutOfRange,
}

} // verus!
