//! The configuration: which pool a collection stakes into, and which tokens
//! reward which pool.

use crate::ledger::Ledger;
use crate::staking_modules::staking_module_type::StakingModuleType;
use crate::types::TokenId;
use vstd::prelude::*;

verus! {

/// A reward token together with one pool that it can be distributed against.
#[derive(Clone, Copy, PartialEq, Eq, Debug, Structural)]
pub struct RewardTokenMapping {
    pub token_identifier: TokenId,
    pub staking_module_type: StakingModuleType,
}

/// The token is registered as a reward of the pool.
pub open spec fn is_reward_pair(
    pairs: Seq<RewardTokenMapping>,
    token: TokenId,
    module: StakingModuleType,
) -> bool {
    pairs.contains(RewardTokenMapping { token_identifier: token, staking_module_type: module })
}

impl Ledger {
    /// The pool that the collection stakes into, where it has one.
    pub open spec fn stake_pool_type_configuration(&self, collection: TokenId) -> Option<
        StakingModuleType,
    > {
        if self.pool_types@.contains_key(collection) {
            Some(self.pool_types@[collection])
        } else {
            None
        }
    }

    /// The pool that the collection stakes into, where it has one.
    pub fn get_staking_pool_type_configuration(&self, collection: TokenId) -> (module: Option<
        StakingModuleType,
    >)
        ensures
            module == self.stake_pool_type_configuration(collection),
    {
        match self.pool_types.get(&collection) {
            Some(module) => Some(*module),
            None => None,
        }
    }

    /// Whether the token is registered as a reward of the pool.
    pub fn is_reward_token_for(&self, token: TokenId, module: StakingModuleType) -> (registered:
        bool)
        ensures
            registered == is_reward_pair(self.reward_tokens@, token, module),
    {
        let wanted = RewardTokenMapping { token_identifier: token, staking_module_type: module };
        let mut i: usize = 0;
        while i < self.reward_tokens.len()
            invariant
                i <= self.reward_tokens.len(),
                wanted.token_identifier == token,
                wanted.staking_module_type == module,
                forall|j: int| 0 <= j < i ==> self.reward_tokens@[j] != wanted,
            decreases self.reward_tokens.len() - i,
        {
            let pair = self.reward_tokens[i];
            if pair.token_identifier == token && pair.staking_module_type == module {
                proof {
                    assert(self.reward_tokens@[i as int] == wanted);
                }
                return true;
            }
            i += 1;
        }
        false
    }

    /// The seconds that pass between an unbonding request and its claim.
    pub fn get_unbonding_time_penalty(&self) -> (seconds: u64)
        ensures
            seconds == self.unbonding_time_penalty,
    {
        self.unbonding_time_penalty
    }

    /// The token that rewards the primary pool.
    pub fn get_primary_reward_token_identifier(&self) -> (token: TokenId)
        ensures
            token == self.primary_reward_token,
    {
        self.primary_reward_token
    }
}

} // verus!
