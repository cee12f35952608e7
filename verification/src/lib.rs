//! An inventory-aware market-making library for a crypto-asset exchange.
//!
//! Prices, volumes and balances are fixed-point integers throughout; the
//! embedding application chooses the transport and performs all I/O.  The
//! library holds the portfolio ledger, the request-signing protocol, the
//! order-lifecycle reconciliation state machine and the quoting engine, each
//! with a verified contract.

pub mod decimal;
pub mod portfolio;
pub mod signer;
pub mod market;
pub mod schema;
pub mod messages;
pub mod broker;
