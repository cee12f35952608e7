//! Venue-specific wire shapes and their conversion into typed data.

pub mod backtest;
pub mod kraken;
