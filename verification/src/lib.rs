//! A streaming ledger of client accounts.
//!
//! Transaction records (deposit, withdrawal, dispute, resolve, chargeback)
//! are applied one at a time, in arrival order, to a table of accounts keyed
//! by client id.
//!
//! - [`engine`] holds the accounts, the ledger and the rules by which a
//!   record changes them, with their mathematical model.
//! - [`laws`] states what follows from those rules for every run.
//! - [`parse`] reads the command line and the rows of an input into
//!   records, one verdict for each row.
//! - [`number`] is the way ids and amounts are written.
//! - [`report`] writes the final ledger.
//! - [`rows`] is the boundary to the `csv` crate, which splits the input
//!   into rows and fields.
//!
//! Amounts and balances are exact: they are counted in ten-thousandths of a
//! unit of currency ([`number::SCALE`]), amounts in `u64` and balances in
//! `i128`, and nothing is ever rounded.
//!
//! A row that is no valid record, and a deposit or withdrawal without an
//! amount, concerns that record alone. The library reports each such record
//! to the caller, who may end the run there or pass the record over:
//! [`engine::process`] ends the run, [`engine::process_lenient`] goes on,
//! and [`engine::Ledger::apply`] and [`parse::Records::next`] leave the
//! choice open.

pub mod engine;
pub mod laws;
pub mod number;
pub mod parse;
pub mod report;
pub mod rows;
