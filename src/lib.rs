//! A ledger of client accounts driven by an ordered stream of transaction records.
//!
//! `input_parser` turns textual records into [`transaction::Transaction`] values,
//! `transaction_engine` applies them to per-client accounts and tracks disputes,
//! `report` renders the accounts as comma-separated rows, and `laws` states the
//! properties that hold of every run of the engine.
pub mod input_parser;
pub mod laws;
pub mod report;
pub mod transaction;
pub mod transaction_engine;
