//! A ledger of client accounts driven by deposits, withdrawals, disputes,
//! resolutions and chargebacks, with money held as an exact fixed-point
//! decimal.

pub mod accounts;
pub mod amount;
pub mod decimal;
pub mod error;
pub mod model;
pub mod outside;
pub mod parser;
pub mod roundtrip;
pub mod text;

pub use error::Error;
