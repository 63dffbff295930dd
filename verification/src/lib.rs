//! Verified core of a small payment processor: client registration,
//! credit and debit transactions with an overdraft limit, balance queries,
//! and the periodic balance snapshot that is written to a `.DAT` file.
//!
//! The HTTP layer, the worker channels, configuration loading and file
//! writing live in the `app/` crate; everything that decides something
//! lives here and is proved against its contract.

pub mod balances;
pub mod config;
pub mod errors;
pub mod laws;
pub mod models;
pub mod money;
pub mod processing;
pub mod services;
pub mod storage;
pub mod store;
pub mod text;
