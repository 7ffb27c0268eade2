//! Reconciliation of bank transactions (N26) against a budgeting ledger
//! (YNAB): a normalized transaction model, a verified matching engine that
//! decides what to create and what to update on the budgeting side, and the
//! records those write operations carry.

pub mod config;
pub mod error;
pub mod laws;
pub mod n26;
pub mod sync;
pub mod transaction;
pub mod ynab;

pub use crate::config::Config;
pub use crate::error::{Error, ErrorKind};
pub use crate::transaction::Transaction;
pub use crate::ynab::Ynab;
