//! Monthly billing: what is due, what is owed, and how a run goes.
pub mod lines;
pub mod percentile;
pub mod run;
pub mod schedule;

pub use crate::billing::lines::build_invoice_lines;
