//! Everything that can go wrong in a single market operation.
//!
//! Every error is local to the call that raised it: no operation that
//! returns an error leaves partially mutated state behind.

use vstd::prelude::*;

verus! {

#[derive(Clone, Copy, Debug, PartialEq, Eq, Structural)]
pub enum MarketError {
    /// The trading deadline of a new market does not lie in the future.
    InvalidEndTime,
    /// A market needs at least two outcomes.
    InsufficientOutcomes,
    /// A market may hold at most ten outcomes.
    TooManyOutcomes,
    /// The operation needs a market whose status is `Active`.
    MarketNotActive,
    /// Trading was attempted at or after the trading deadline.
    MarketEnded,
    /// Resolution was attempted before the trading deadline.
    MarketNotEnded,
    /// Redemption was attempted before the market was resolved.
    MarketNotResolved,
    /// An outcome index at or beyond the market's outcome count.
    InvalidOutcome,
    /// A purchase of zero shares.
    InvalidShares,
    /// The caller is not the market's authority.
    Unauthorized,
    /// A share supply or a collateral counter would leave the range of `u64`.
    ArithmeticOverflow,
    /// The liquidity parameter is zero; creation-time validation should make
    /// this unreachable, so it marks an invariant violation, not a user error.
    LiquidityParameterInvalid,
    /// The participant already redeemed their winnings for this market.
    AlreadyRedeemed,
    /// The participant holds no shares of the winning outcome.
    NothingToRedeem,
    /// The surrounding value-transfer mechanism reported a failure. The core
    /// itself never raises this; the code that moves collateral does, and
    /// aborts the whole operation.
    TransferFailed,
}

} // verus!
