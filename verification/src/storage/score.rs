//! The score table: what one unit of each asset weighs in each pool.

use crate::ledger::Ledger;
use crate::staking_modules::staking_module_type::StakingModuleType;
use crate::types::TokenId;
use vstd::prelude::*;

verus! {

/// The key under which the ledger files a value by two numbers.
pub open spec fn pair_key(high: u64, low: u64) -> u128 {
    (high as u128 * 0x1_0000_0000_0000_0000u128 + low as u128) as u128
}

/// Two pairs share a key only where they are the same pair.
pub proof fn lemma_pair_key_injective(high_a: u64, low_a: u64, high_b: u64, low_b: u64)
    ensures
        pair_key(high_a, low_a) == pair_key(high_b, low_b) <==> high_a == high_b && low_a
            == low_b,
{
}

/// The key under which the ledger files a value by two numbers.
pub fn pack_key(high: u64, low: u64) -> (key: u128)
    ensures
        key == pair_key(high, low),
{
    high as u128 * 0x1_0000_0000_0000_0000u128 + low as u128
}

impl Ledger {
    /// The default weight of one unit of the collection in the pool; zero
    /// where none was set.
    pub open spec fn base_asset_score(
        &self,
        collection: TokenId,
        module: StakingModuleType,
    ) -> u64 {
        if self.base_scores@.contains_key(collection) {
            self.base_scores@[collection].spec_get(module)
        } else {
            0
        }
    }

    /// The weight that overrides the default for one nonce of the collection
    /// in the pool, where one was set.
    pub open spec fn nonce_asset_score(
        &self,
        collection: TokenId,
        nonce: u64,
        module: StakingModuleType,
    ) -> Option<u64> {
        if self.nonce_scores@.contains_key(pair_key(collection, nonce)) {
            self.nonce_scores@[pair_key(collection, nonce)].spec_get(module)
        } else {
            None
        }
    }

    /// The bonus that each full set of the collection earns in the pool; zero
    /// where none was set.
    pub open spec fn full_set_score(&self, collection: TokenId, module: StakingModuleType) -> u64 {
        if self.full_set_scores@.contains_key(collection) {
            self.full_set_scores@[collection].spec_get(module)
        } else {
            0
        }
    }

    /// What one unit of the nonce weighs in the pool: its own weight where it
    /// has one, the collection's default else.
    pub open spec fn unit_score(
        &self,
        collection: TokenId,
        module: StakingModuleType,
        nonce: u64,
    ) -> nat {
        match self.nonce_asset_score(collection, nonce, module) {
            Some(score) => score as nat,
            None => self.base_asset_score(collection, module) as nat,
        }
    }

    /// The default weight of one unit of the collection in the pool.
    pub fn get_base_asset_score(&self, collection: TokenId, module: StakingModuleType) -> (score:
        u64)
        ensures
            score == self.base_asset_score(collection, module),
    {
        match self.base_scores.get(&collection) {
            Some(scores) => scores.get(module),
            None => 0,
        }
    }

    /// The weight that overrides the default for one nonce, where one was set.
    pub fn get_nonce_asset_score(
        &self,
        collection: TokenId,
        nonce: u64,
        module: StakingModuleType,
    ) -> (score: Option<u64>)
        ensures
            score == self.nonce_asset_score(collection, nonce, module),
    {
        let key = pack_key(collection, nonce);
        match self.nonce_scores.get(&key) {
            Some(scores) => scores.get(module),
            None => None,
        }
    }

    /// The bonus that each full set of the collection earns in the pool.
    pub fn get_full_set_score(&self, collection: TokenId, module: StakingModuleType) -> (score:
        u64)
        ensures
            score == self.full_set_score(collection, module),
    {
        match self.full_set_scores.get(&collection) {
            Some(scores) => scores.get(module),
            None => 0,
        }
    }

    /// What one unit of the nonce weighs in the pool.
    pub fn get_unit_score(&self, collection: TokenId, module: StakingModuleType, nonce: u64) -> (score:
        u64)
        ensures
            score == self.unit_score(collection, module, nonce),
    {
        match self.get_nonce_asset_score(collection, nonce, module) {
            Some(score) => score,
            None => self.get_base_asset_score(collection, module),
        }
    }
}

} // verus!
