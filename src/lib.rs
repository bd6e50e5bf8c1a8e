//! An in-memory token ledger: balances per account identity, with credit,
//! transfer, balance lookup and reset, each proved to keep the ledger's
//! invariants (balances never negative, transfers conserve the total supply).

pub mod accounts;
pub mod ledger;

pub use ledger::{Ledger, LedgerError};
