//! The failures of the ledger. Every failure leaves the ledger as it was.

use vstd::prelude::*;

verus! {

/// Why an operation was refused.
#[derive(Clone, Copy, PartialEq, Eq, Debug, Structural)]
pub enum StakingError {
    /// An unbonding request named no position, no items, a nonce twice, an
    /// unknown nonce, or more than is held.
    FailedUnbonding,
    /// A stake batch was empty or mixed several collections.
    OneTokenIdSupported,
    /// No reward, or no matured unbonding batch, is there to be paid out.
    NothingToClaim,
    /// The epoch already has a rate for this pool and token.
    RewardAlreadyDistributed,
    /// The token is not registered as a reward for the pool.
    InvalidRewardTokenId,
    /// The collection already has a pool.
    CollectionAlreadyRegistered,
    /// The collection has no pool.
    InvalidStakedTokenId,
    /// The primary pool cannot be given to a collection.
    CannotRegisterAsAll,
    /// A reward cannot be priced against an aggregated score of zero.
    ZeroAggregatedScore,
    /// A score, quantity or reward left the range of `u128`.
    ArithmeticOverflow,
}

impl StakingError {
    /// The message that goes with the failure.
    pub fn message(&self) -> (text: &'static str)
        ensures
            text@ == self.spec_message()@,
    {
        match self {
            StakingError::FailedUnbonding => "Unbonding failed",
            StakingError::OneTokenIdSupported => "Only one token id is allowed per TX",
            StakingError::NothingToClaim => "Nothing to claim",
            StakingError::RewardAlreadyDistributed => "Reward already distributed",
            StakingError::InvalidRewardTokenId => "Invalid reward token id",
            StakingError::CollectionAlreadyRegistered => "Collection already registered",
            StakingError::InvalidStakedTokenId => "Invalid token identifier",
            StakingError::CannotRegisterAsAll => "Cannot register a pool as All",
            StakingError::ZeroAggregatedScore => "Aggregated score is zero",
            StakingError::ArithmeticOverflow => "Arithmetic overflow",
        }
    }

    /// The message of each failure, as a specification.
    pub open spec fn spec_message(&self) -> &'static str {
        match self {
            StakingError::FailedUnbonding => "Unbonding failed",
            StakingError::OneTokenIdSupported => "Only one token id is allowed per TX",
            StakingError::NothingToClaim => "Nothing to claim",
            StakingError::RewardAlreadyDistributed => "Reward already distributed",
            StakingError::InvalidRewardTokenId => "Invalid reward token id",
            StakingError::CollectionAlreadyRegistered => "Collection already registered",
            StakingError::InvalidStakedTokenId => "Invalid token identifier",
            StakingError::CannotRegisterAsAll => "Cannot register a pool as All",
            StakingError::ZeroAggregatedScore => "Aggregated score is zero",
            StakingError::ArithmeticOverflow => "Arithmetic overflow",
        }
    }
}

} // verus!
