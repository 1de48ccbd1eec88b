//! The strategy of a collection without a usable pool: it scores nothing and
//! takes nothing in.

use crate::staking_modules::staking_module_type::StakingModuleType;
use crate::types::start_unbonding_payload::StartUnbondingPayload;
use vstd::prelude::*;

verus! {

/// The strategy that stands in where a collection has no usable pool.
#[derive(Clone, Copy, PartialEq, Eq, Debug, Structural)]
pub struct InvalidStakingModule {}

impl InvalidStakingModule {
    /// The strategy; it holds nothing.
    pub fn new() -> (module: Self)
        ensures
            module == (InvalidStakingModule {  }),
    {
        InvalidStakingModule {  }
    }

    /// The raw score in any pool: zero.
    pub fn get_base_user_score(&self, staking_module_type: StakingModuleType) -> (score: Option<
        u128,
    >)
        ensures
            score == Some(0u128),
    {
        Some(0)
    }

    /// Refuses the units: there is no pool to stake them into.
    pub fn add_to_storage(&self, nonce: u64, quantity: u128) -> (added: bool)
        ensures
            !added,
    {
        false
    }

    /// Refuses the request: nothing is staked here.
    pub fn start_unbonding(&self, payload: &StartUnbondingPayload) -> (served: bool)
        ensures
            !served,
    {
        false
    }
}

} // verus!
