//! Accounting core of a prediction market.
//!
//! A market is created with a fixed set of mutually exclusive outcomes.
//! Participants buy shares in an outcome; an automated market maker prices
//! each purchase from the current share supplies and a liquidity parameter,
//! using exact integer arithmetic only. After the event resolves, holders of
//! the winning outcome redeem their shares for a proportional part of the
//! collected pool, with rounding always in the pool's favour.

pub mod errors;
pub mod ledger;
pub mod market;
pub mod pool;
