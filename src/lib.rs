//! Turning bank and card statement data into ledger transactions, and reconciling them with
//! the ledger: duplicate detection on import, rule and history based categorization,
//! recurring series detection and transfer matching. Amounts are integer cents throughout.
//!
//! Parsers: `tabular` (delimited exports through a column mapping), `fixed_layout` (line
//! exports with fixed columns) and `document` (text recovered from statement documents).
//! Reconciliation: `reconcile`, `rules`, `recurring`, `transfers` and `budgets`, over the
//! records of `ledger`.
use vstd::prelude::*;

pub mod error;
pub mod text;
pub mod amount;
pub mod dates;
pub mod fixed_layout;
pub mod document;
pub mod tabular;
pub mod ledger;
pub mod rules;
pub mod reconcile;
pub mod transfers;
pub mod recurring;
pub mod budgets;
pub mod config;
pub mod encoding;

verus! {

} // verus!
