//! Client registry and balance ledger: registration of clients with unique
//! identifiers and unique document numbers, credit and debit transactions on
//! their balances, balance reports, and the naming of the files in which the
//! balances are stored.

pub mod balance_files;
pub mod client_handler;
pub mod client_model;
pub mod money;
pub mod transaction;
