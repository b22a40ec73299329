//! An in-memory clearing house: account balances in integer minor units
//! (cents), and money transfers between accounts that are applied atomically
//! or not at all.
pub mod accounts;
pub mod clearing_house;
pub mod error;
pub mod laws;
pub mod ledger;
pub mod model;
pub mod transactions;
