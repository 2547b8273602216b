//! Pricing and liquidity core of an automated market maker.
//!
//! The crate prices swaps, mints and burns liquidity-provider shares, and
//! settles deposits and withdrawals across pools that follow either a
//! constant-product curve or a stableswap invariant.  All arithmetic is
//! integer-only; every operation is a pure function from a snapshot of pool
//! state (and point-in-time oracle reads, handed in as plain values) to a
//! result, so the whole core is verified.

pub mod epoch;
pub mod error;
pub mod liquidity;
pub mod math;
pub mod model;
pub mod queries;
pub mod stable;
pub mod swap;

pub use crate::error::ContractError;
