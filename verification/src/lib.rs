//! A single-pass ledger engine: transaction records are applied in arrival
//! order to per-client account state, and the resulting balances are read
//! back out.
//!
//! Monetary amounts are fixed-point integers counting ten-thousandths of a
//! currency unit, so every balance carries exactly four decimal places and
//! all arithmetic is exact.

pub mod mapper;
pub mod output;
pub mod parse;
pub mod reader;
