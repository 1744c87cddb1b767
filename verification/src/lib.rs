//! A piggy bank ledger: one-off and monthly money movements, the balance on a
//! date, and the activity of the pay period around a date.

pub mod actions;
pub mod calendar;
pub mod date;
pub mod error;
pub mod input;
pub mod ledger;
pub mod monthly;
pub mod report;
pub mod report_laws;
pub mod transaction;
