//! Stop-loss protection engine for a cryptocurrency trading account.
//!
//! The library reconstructs open positions from trade history and balances,
//! classifies active protective sell orders, computes the unrealized benefit
//! of each position and applies a per-pair threshold policy to decide whether
//! a stop-loss order must be created or tightened.  All prices and
//! percentages are decimal strings on the wire; internally they are held as
//! fixed-point integers (`atoms`, 10^-8 units) so that every comparison and
//! every computed stop price is exact.

pub mod aggregator;
pub mod benefit;
pub mod classifier;
pub mod config;
pub mod decimal;
pub mod dtos;
pub mod error;
pub mod helpers;
pub mod json;
pub mod market;
pub mod notify;
pub mod policy;
pub mod retry;
pub mod text;
pub mod utils;
