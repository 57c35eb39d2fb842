//! Contest and ledger engine: custody of virtual money, the contest state
//! machine, allocation locking, portfolio valuation, ranking, settlement and
//! the aggregation of price ticks into candles.
//!
//! Money, prices and percentages are integers in hundredths. Identifiers
//! are 128-bit integers and instants are seconds; the caller says who acts
//! and when, in every operation.

pub mod error;
pub mod money;
pub mod ledger;
pub mod contest;
pub mod allocation;
pub mod market;
pub mod ingest;
pub mod valuation;
pub mod leaderboard;
pub mod settlement;
pub mod model;
pub mod engine;
pub mod laws;
pub mod conservation;
pub mod replay;
pub mod identity;
pub mod config;
pub mod ids;
