//! What only the owner of the ledger may do: distribute rewards, change a
//! staker's boost, register pools and reward tokens, and set the score
//! table. Whether the caller is the owner is for the caller's host to check.

use crate::boost::spec_apply_deb;
use crate::errors::StakingError;
use crate::ledger::Ledger;
use crate::staking_modules::staking_module_type::{PerModule, StakingModuleType};
use crate::storage::config::{is_reward_pair, RewardTokenMapping};
use crate::storage::score::{lemma_pair_key_injective, pack_key};
use crate::storage::user_data::{
    find_collection, index_of_collection, lemma_index_of_collection, UnbondingBatch,
};
use crate::types::nonce_qty_pair::nonces_unique;
use crate::types::token_payment::TokenPayment;
use crate::types::{Address, TokenId};
use crate::staking_context::StakingContext;
use vstd::prelude::*;

verus! {

impl Ledger {
    /// Both ledgers hold the same stakers and aggregated scores.
    pub open spec fn same_accounts(&self, other: &Ledger) -> bool {
        &&& self.users == other.users
        &&& self.aggregated_scores == other.aggregated_scores
    }

    /// Why a reward cannot be distributed, if it cannot: the token is not
    /// registered as a reward of the pool; the epoch already has a
    /// distribution of the token, or a rate for the pool and the token; the
    /// aggregated score of the pool is zero.
    pub open spec fn distribute_error(
        &self,
        module: StakingModuleType,
        token: TokenId,
        block_epoch: u64,
    ) -> Option<StakingError> {
        if !is_reward_pair(self.reward_tokens@, token, module) {
            Some(StakingError::InvalidRewardTokenId)
        } else if self.reward_distribution_timestamp(block_epoch, token).is_some()
            || self.reward_rate(block_epoch, module, token).is_some() {
            Some(StakingError::RewardAlreadyDistributed)
        } else if self.aggregated_scores.spec_get(module) == 0 {
            Some(StakingError::ZeroAggregatedScore)
        } else {
            None
        }
    }

    /// `self` is `before` with one more rate and one more distribution time,
    /// those of the token in the epoch, and nothing else changed.
    pub open spec fn reward_distributed(
        &self,
        before: &Ledger,
        module: StakingModuleType,
        token: TokenId,
        block_epoch: u64,
        rate: u128,
        block_timestamp: u64,
    ) -> bool {
        &&& self.same_config(before)
        &&& self.same_accounts(before)
        &&& forall|e: u64, m: StakingModuleType, t: TokenId| #[trigger]
            self.reward_rate(e, m, t) == if e == block_epoch && m == module && t == token {
                Some(rate)
            } else {
                before.reward_rate(e, m, t)
            }
        &&& forall|e: u64, t: TokenId| #[trigger]
            self.reward_distribution_timestamp(e, t) == if e == block_epoch && t == token {
                Some(block_timestamp)
            } else {
                before.reward_distribution_timestamp(e, t)
            }
    }

    /// Whether the epoch is still free for the pool and the token: it has
    /// neither a distribution of the token nor a rate for the pair.
    pub fn require_reward_not_distributed(
        &self,
        epoch: u64,
        staking_module_type: StakingModuleType,
        token_identifier: TokenId,
    ) -> (free: bool)
        ensures
            free == (self.reward_distribution_timestamp(epoch, token_identifier).is_none()
                && self.reward_rate(epoch, staking_module_type, token_identifier).is_none()),
    {
        self.get_reward_distribution_timestamp(epoch, token_identifier).is_none()
            && self.get_reward_rate(epoch, staking_module_type, token_identifier).is_none()
    }

    /// Whether the token is registered as a reward of the pool.
    pub fn require_token_is_reward_token(
        &self,
        incoming_token_identifier: TokenId,
        staking_module_type: StakingModuleType,
    ) -> (registered: bool)
        ensures
            registered == is_reward_pair(
                self.reward_tokens@,
                incoming_token_identifier,
                staking_module_type,
            ),
    {
        self.is_reward_token_for(incoming_token_identifier, staking_module_type)
    }

    /// Prices the epoch for one pool and one token: the rate is the amount
    /// paid in, divided by the aggregated score of the pool and rounded
    /// down. The rate and the time are recorded; a pair of pool and token is
    /// priced at most once in an epoch.
    ///
    /// On any failure the ledger stays as it was.
    pub fn distribute_reward_handler(
        &mut self,
        staking_module_type: StakingModuleType,
        payment: TokenPayment,
        block_epoch: u64,
        block_timestamp: u64,
    ) -> (result: Result<(), StakingError>)
        requires
            old(self).wf(),
        ensures
            final(self).wf(),
            match result {
                Ok(()) => {
                    &&& old(self).distribute_error(
                        staking_module_type,
                        payment.token_identifier,
                        block_epoch,
                    ).is_none()
                    &&& final(self).reward_distributed(
                        old(self),
                        staking_module_type,
                        payment.token_identifier,
                        block_epoch,
                        payment.amount / old(self).aggregated_scores.spec_get(staking_module_type),
                        block_timestamp,
                    )
                },
                Err(error) => {
                    &&& old(self).distribute_error(
                        staking_module_type,
                        payment.token_identifier,
                        block_epoch,
                    ) == Some(error)
                    &&& *final(self) == *old(self)
                },
            },
    {
        let token = payment.token_identifier;
        if !self.require_token_is_reward_token(token, staking_module_type) {
            return Err(StakingError::InvalidRewardTokenId);
        }
        if !self.require_reward_not_distributed(block_epoch, staking_module_type, token) {
            return Err(StakingError::RewardAlreadyDistributed);
        }
        let total_score = self.get_aggregated_staking_score(staking_module_type);
        if total_score == 0 {
            return Err(StakingError::ZeroAggregatedScore);
        }
        let reward_rate = payment.amount / total_score;
        let key = pack_key(token, block_epoch);
        let mut rates = match self.reward_rates.get(&key) {
            Some(rates) => *rates,
            None => PerModule::filled(None),
        };
        rates.set(staking_module_type, Some(reward_rate));
        let ghost before = *self;
        self.reward_rates.insert(key, rates);
        self.distribution_timestamps.insert(key, block_timestamp);
        proof {
            let after = *self;
            assert forall|e: u64, m: StakingModuleType, t: TokenId| #[trigger]
                after.reward_rate(e, m, t) == if e == block_epoch && m == staking_module_type && t
                    == token {
                    Some(reward_rate)
                } else {
                    before.reward_rate(e, m, t)
                } by {
                lemma_pair_key_injective(t, e, token, block_epoch);
            }
            assert forall|e: u64, t: TokenId| #[trigger]
                after.reward_distribution_timestamp(e, t) == if e == block_epoch && t == token {
                    Some(block_timestamp)
                } else {
                    before.reward_distribution_timestamp(e, t)
                } by {
                lemma_pair_key_injective(t, e, token, block_epoch);
            }
            assert(after.wf()) by {
                assert forall|m: StakingModuleType| #[trigger]
                    after.aggregated_scores.spec_get(m) as nat == after.total_user_score(m) by {
                    assert(after.score_map(m) == before.score_map(m));
                    assert(before.aggregated_scores.spec_get(m) as nat == before.total_user_score(
                        m,
                    ));
                }
            }
        }
        Ok(())
    }

    /// Distributes a payment as the reward of the primary pool for the
    /// epoch.
    pub fn distribute_reward(&mut self, payment: TokenPayment, block_epoch: u64, block_timestamp: u64) -> (result:
        Result<(), StakingError>)
        requires
            old(self).wf(),
        ensures
            final(self).wf(),
            match result {
                Ok(()) => {
                    &&& old(self).distribute_error(
                        StakingModuleType::All,
                        payment.token_identifier,
                        block_epoch,
                    ).is_none()
                    &&& final(self).reward_distributed(
                        old(self),
                        StakingModuleType::All,
                        payment.token_identifier,
                        block_epoch,
                        payment.amount / old(self).aggregated_scores.spec_get(StakingModuleType::All),
                        block_timestamp,
                    )
                },
                Err(error) => {
                    &&& old(self).distribute_error(
                        StakingModuleType::All,
                        payment.token_identifier,
                        block_epoch,
                    ) == Some(error)
                    &&& *final(self) == *old(self)
                },
            },
    {
        self.distribute_reward_handler(StakingModuleType::All, payment, block_epoch, block_timestamp)
    }

    /// Distributes a payment as the reward of the pool that the collection
    /// `target` stakes into. It fails with `InvalidStakedTokenId` where the
    /// collection has no pool.
    pub fn distribute_secondary_reward(
        &mut self,
        target: TokenId,
        payment: TokenPayment,
        block_epoch: u64,
        block_timestamp: u64,
    ) -> (result: Result<(), StakingError>)
        requires
            old(self).wf(),
        ensures
            final(self).wf(),
            match old(self).stake_pool_type_configuration(target) {
                None => result == Err::<(), StakingError>(StakingError::InvalidStakedTokenId)
                    && *final(self) == *old(self),
                Some(module) => match result {
                    Ok(()) => {
                        &&& old(self).distribute_error(
                            module,
                            payment.token_identifier,
                            block_epoch,
                        ).is_none()
                        &&& final(self).reward_distributed(
                            old(self),
                            module,
                            payment.token_identifier,
                            block_epoch,
                            payment.amount / old(self).aggregated_scores.spec_get(module),
                            block_timestamp,
                        )
                    },
                    Err(error) => {
                        &&& old(self).distribute_error(
                            module,
                            payment.token_identifier,
                            block_epoch,
                        ) == Some(error)
                        &&& *final(self) == *old(self)
                    },
                },
            },
    {
        let staking_module_type = match self.get_staking_pool_type_configuration(target) {
            Some(module) => module,
            None => {
                return Err(StakingError::InvalidStakedTokenId);
            },
        };
        self.distribute_reward_handler(staking_module_type, payment, block_epoch, block_timestamp)
    }

    /// Distributes a payment as the reward of the company-share pool for
    /// the epoch.
    pub fn distribute_company_share_reward(
        &mut self,
        payment: TokenPayment,
        block_epoch: u64,
        block_timestamp: u64,
    ) -> (result: Result<(), StakingError>)
        requires
            old(self).wf(),
        ensures
            final(self).wf(),
            match result {
                Ok(()) => {
                    &&& old(self).distribute_error(
                        StakingModuleType::SharesSfts,
                        payment.token_identifier,
                        block_epoch,
                    ).is_none()
                    &&& final(self).reward_distributed(
                        old(self),
                        StakingModuleType::SharesSfts,
                        payment.token_identifier,
                        block_epoch,
                        payment.amount / old(self).aggregated_scores.spec_get(
                            StakingModuleType::SharesSfts,
                        ),
                        block_timestamp,
                    )
                },
                Err(error) => {
                    &&& old(self).distribute_error(
                        StakingModuleType::SharesSfts,
                        payment.token_identifier,
                        block_epoch,
                    ) == Some(error)
                    &&& *final(self) == *old(self)
                },
            },
    {
        let staking_module_type = StakingModuleType::SharesSfts;
        self.distribute_reward_handler(staking_module_type, payment, block_epoch, block_timestamp)
    }

    /// The boosted score that `user` has in the primary pool under the
    /// boost `new_deb`.
    pub open spec fn score_under_deb(&self, user: Address, new_deb: u128) -> nat {
        spec_apply_deb(
            self.raw_user_score(StakingModuleType::All, user) as nat,
            new_deb as nat,
        )
    }

    /// The aggregated score of the primary pool once `user` has the boost
    /// `new_deb`: it moves by what the user's boosted score moves.
    pub open spec fn aggregate_under_deb(&self, user: Address, new_deb: u128) -> int {
        self.aggregated_scores.spec_get(StakingModuleType::All) - self.user_score(
            StakingModuleType::All,
            user,
        ) + self.score_under_deb(user, new_deb)
    }

    /// The boost of `user` can be set to `new_deb` at `epoch`: no reward
    /// balance, and neither the boosted score nor the aggregate, leaves the
    /// range of `u128`.
    pub open spec fn deb_fits(&self, user: Address, new_deb: u128, epoch: u64) -> bool {
        &&& self.secured_rewards(user, epoch).is_some()
        &&& self.aggregate_under_deb(user, new_deb) <= u128::MAX
    }

    /// `self` is `before` after the boost of `user` was set to `new_deb` at
    /// `epoch`: every registered reward was folded in first, at the scores
    /// of `before`; the boosted score of the primary pool is the raw one
    /// under the new boost, and the aggregate of the primary pool moved by
    /// what that score moved; nothing else changed.
    pub open spec fn deb_updated(&self, before: &Ledger, user: Address, new_deb: u128, epoch: u64) -> bool {
        &&& self.knows(user)
        &&& self.same_other_accounts(before, user)
        &&& self.same_config(before)
        &&& self.same_rates(before)
        &&& self.user_deb(user) == new_deb
        &&& before.secured_rewards(user, epoch) == Some(
            (self.pending_map(user), self.user_checkpoints(user)),
        )
        &&& self.raw_user_scores(user) == before.raw_user_scores(user)
        &&& self.positions(user) == before.positions(user)
        &&& self.unbonding_assets(user) == before.unbonding_assets(user)
        &&& self.user_scores(user) == before.user_scores(user).spec_set(
            StakingModuleType::All,
            before.score_under_deb(user, new_deb) as u128,
        )
        &&& self.aggregated_scores == before.aggregated_scores.spec_set(
            StakingModuleType::All,
            before.aggregate_under_deb(user, new_deb) as u128,
        )
    }

    /// Sets the boost of `user_address` to `new_deb_val` at `block_epoch`.
    ///
    /// Every registered reward of the staker is folded in first, at the
    /// score under the old boost. Then the boosted score of the primary
    /// pool is taken anew from the raw score, and the aggregate of the
    /// primary pool moves by the difference. No other pool and no other
    /// staker is touched. A boost at or under the denominator counts as
    /// exactly 1.0x.
    ///
    /// On a failure the ledger stays as it was.
    pub fn update_deb(&mut self, user_address: Address, new_deb_val: u128, block_epoch: u64) -> (result:
        Result<(), StakingError>)
        requires
            old(self).wf(),
        ensures
            final(self).wf(),
            match result {
                Ok(()) => {
                    &&& old(self).deb_fits(user_address, new_deb_val, block_epoch)
                    &&& final(self).deb_updated(old(self), user_address, new_deb_val, block_epoch)
                },
                Err(error) => {
                    &&& error == StakingError::ArithmeticOverflow
                    &&& !old(self).deb_fits(user_address, new_deb_val, block_epoch)
                    &&& *final(self) == *old(self)
                },
            },
    {
        let mut context = StakingContext::for_staker(self, user_address);
        match context.secure_all_rewards(self, block_epoch) {
            Ok(()) => {},
            Err(error) => {
                return Err(error);
            },
        }
        match context.update_deb(new_deb_val) {
            Ok(()) => {},
            Err(error) => {
                return Err(error);
            },
        }
        let ghost before = *self;
        let ghost staged = context;
        proof {
            assert forall|m: StakingModuleType| #[trigger]
                staged.aggregated_scores.spec_get(m) + before.user_score(m, user_address)
                    == before.aggregated_scores.spec_get(m) + staged.scores.spec_get(m) by {
                before.lemma_user_score_bounded(m, user_address);
            }
        }
        context.commit(self);
        Ok(())
    }

    /// Both ledgers hold the same pools, reward tokens, primary reward token
    /// and unbonding time.
    pub open spec fn same_registry(&self, other: &Ledger) -> bool {
        &&& self.pool_types == other.pool_types
        &&& self.reward_tokens == other.reward_tokens
        &&& self.primary_reward_token == other.primary_reward_token
        &&& self.unbonding_time_penalty == other.unbonding_time_penalty
    }

    /// Gives the collection its pool. The primary pool cannot be given, and
    /// a collection gets a pool only once.
    pub fn register_new_staking_pool(
        &mut self,
        collection_token_identifier: TokenId,
        staking_module_type: StakingModuleType,
    ) -> (result: Result<(), StakingError>)
        requires
            old(self).wf(),
        ensures
            final(self).wf(),
            match result {
                Ok(()) => {
                    &&& staking_module_type != StakingModuleType::All
                    &&& old(self).stake_pool_type_configuration(collection_token_identifier).is_none()
                    &&& final(self).pool_types@ == old(self).pool_types@.insert(
                        collection_token_identifier,
                        staking_module_type,
                    )
                    &&& final(self).pool_type_set(old(self))
                },
                Err(error) => {
                    &&& *final(self) == *old(self)
                    &&& if staking_module_type == StakingModuleType::All {
                        error == StakingError::CannotRegisterAsAll
                    } else {
                        error == StakingError::CollectionAlreadyRegistered && old(
                            self,
                        ).stake_pool_type_configuration(collection_token_identifier).is_some()
                    }
                },
            },
    {
        if staking_module_type == StakingModuleType::All {
            return Err(StakingError::CannotRegisterAsAll);
        }
        if self.get_staking_pool_type_configuration(collection_token_identifier).is_some() {
            return Err(StakingError::CollectionAlreadyRegistered);
        }
        let ghost before = *self;
        self.pool_types.insert(collection_token_identifier, staking_module_type);
        proof {
            Ledger::lemma_wf_same_accounts(&before, self);
        }
        Ok(())
    }

    /// Between `before` and `self` nothing changed but, at most, the pools
    /// of the collections.
    pub open spec fn pool_type_set(&self, before: &Ledger) -> bool {
        &&& self.same_accounts(before)
        &&& self.same_rates(before)
        &&& self.reward_tokens == before.reward_tokens
        &&& self.primary_reward_token == before.primary_reward_token
        &&& self.unbonding_time_penalty == before.unbonding_time_penalty
        &&& self.base_scores == before.base_scores
        &&& self.nonce_scores == before.nonce_scores
        &&& self.full_set_scores == before.full_set_scores
    }

    /// Gives the collection the pool, whatever pool it had. No score is
    /// taken anew: each staker's score follows at the staker's next stake or
    /// unbonding.
    pub fn override_stake_pool_type(
        &mut self,
        collection_token_identifier: TokenId,
        staking_module_type: StakingModuleType,
    )
        requires
            old(self).wf(),
        ensures
            final(self).wf(),
            final(self).pool_types@ == old(self).pool_types@.insert(
                collection_token_identifier,
                staking_module_type,
            ),
            final(self).pool_type_set(old(self)),
    {
        let ghost before = *self;
        self.pool_types.insert(collection_token_identifier, staking_module_type);
        proof {
            Ledger::lemma_wf_same_accounts(&before, self);
        }
    }

    /// Between `before` and `self` nothing changed but, at most, the score
    /// table.
    pub open spec fn score_table_set(&self, before: &Ledger) -> bool {
        &&& self.same_accounts(before)
        &&& self.same_rates(before)
        &&& self.same_registry(before)
    }

    /// Sets what one unit of the collection weighs in the pool where its
    /// nonce has no weight of its own.
    pub fn set_base_asset_score(
        &mut self,
        collection_token_identifier: TokenId,
        staking_module: StakingModuleType,
        score: u64,
    )
        requires
            old(self).wf(),
        ensures
            final(self).wf(),
            final(self).score_table_set(old(self)),
            final(self).nonce_scores == old(self).nonce_scores,
            final(self).full_set_scores == old(self).full_set_scores,
            forall|c: TokenId, m: StakingModuleType| #[trigger]
                final(self).base_asset_score(c, m) == if c == collection_token_identifier && m
                    == staking_module {
                    score
                } else {
                    old(self).base_asset_score(c, m)
                },
    {
        let mut scores = match self.base_scores.get(&collection_token_identifier) {
            Some(scores) => *scores,
            None => PerModule::filled(0u64),
        };
        scores.set(staking_module, score);
        let ghost before = *self;
        self.base_scores.insert(collection_token_identifier, scores);
        proof {
            Ledger::lemma_wf_same_accounts(&before, self);
        }
    }

    /// Sets the bonus that each full set of the collection earns in the
    /// pool.
    pub fn set_full_set_score(
        &mut self,
        collection_token_identifier: TokenId,
        staking_module: StakingModuleType,
        score: u64,
    )
        requires
            old(self).wf(),
        ensures
            final(self).wf(),
            final(self).score_table_set(old(self)),
            final(self).nonce_scores == old(self).nonce_scores,
            final(self).base_scores == old(self).base_scores,
            forall|c: TokenId, m: StakingModuleType| #[trigger]
                final(self).full_set_score(c, m) == if c == collection_token_identifier && m
                    == staking_module {
                    score
                } else {
                    old(self).full_set_score(c, m)
                },
    {
        let mut scores = match self.full_set_scores.get(&collection_token_identifier) {
            Some(scores) => *scores,
            None => PerModule::filled(0u64),
        };
        scores.set(staking_module, score);
        let ghost before = *self;
        self.full_set_scores.insert(collection_token_identifier, scores);
        proof {
            Ledger::lemma_wf_same_accounts(&before, self);
        }
    }

    /// Sets what one unit of one nonce of the collection weighs in the pool.
    fn put_nonce_asset_score(
        &mut self,
        collection_token_identifier: TokenId,
        nonce: u64,
        staking_module: StakingModuleType,
        score: u64,
    )
        requires
            old(self).wf(),
        ensures
            final(self).wf(),
            final(self).score_table_set(old(self)),
            final(self).base_scores == old(self).base_scores,
            final(self).full_set_scores == old(self).full_set_scores,
            forall|c: TokenId, n: u64, m: StakingModuleType| #[trigger]
                final(self).nonce_asset_score(c, n, m) == if c == collection_token_identifier && n
                    == nonce && m == staking_module {
                    Some(score)
                } else {
                    old(self).nonce_asset_score(c, n, m)
                },
    {
        let key = pack_key(collection_token_identifier, nonce);
        let mut scores = match self.nonce_scores.get(&key) {
            Some(scores) => *scores,
            None => PerModule::filled(None),
        };
        scores.set(staking_module, Some(score));
        let ghost before = *self;
        self.nonce_scores.insert(key, scores);
        proof {
            let after = *self;
            Ledger::lemma_wf_same_accounts(&before, &after);
            assert forall|c: TokenId, n: u64, m: StakingModuleType| #[trigger]
                after.nonce_asset_score(c, n, m) == if c == collection_token_identifier && n
                    == nonce && m == staking_module {
                    Some(score)
                } else {
                    before.nonce_asset_score(c, n, m)
                } by {
                lemma_pair_key_injective(c, n, collection_token_identifier, nonce);
            }
        }
    }

    /// Sets what one unit weighs in the pool for each of the listed nonces
    /// of the collection.
    pub fn set_nonce_asset_score(
        &mut self,
        collection_token_identifier: TokenId,
        staking_module: StakingModuleType,
        score: u64,
        nonces: &Vec<u64>,
    )
        requires
            old(self).wf(),
        ensures
            final(self).wf(),
            final(self).score_table_set(old(self)),
            final(self).base_scores == old(self).base_scores,
            final(self).full_set_scores == old(self).full_set_scores,
            forall|c: TokenId, n: u64, m: StakingModuleType| #[trigger]
                final(self).nonce_asset_score(c, n, m) == if c == collection_token_identifier
                    && nonces@.contains(n) && m == staking_module {
                    Some(score)
                } else {
                    old(self).nonce_asset_score(c, n, m)
                },
    {
        let mut i: usize = 0;
        while i < nonces.len()
            invariant
                i <= nonces.len(),
                self.wf(),
                self.score_table_set(old(self)),
                self.base_scores == old(self).base_scores,
                self.full_set_scores == old(self).full_set_scores,
                forall|c: TokenId, n: u64, m: StakingModuleType| #[trigger]
                    self.nonce_asset_score(c, n, m) == if c == collection_token_identifier
                        && nonces@.take(i as int).contains(n) && m == staking_module {
                        Some(score)
                    } else {
                        old(self).nonce_asset_score(c, n, m)
                    },
            decreases nonces.len() - i,
        {
            let ghost before = *self;
            self.put_nonce_asset_score(collection_token_identifier, nonces[i], staking_module, score);
            proof {
                let after = *self;
                let shorter = nonces@.take(i as int);
                let longer = nonces@.take(i + 1);
                assert forall|n: u64| longer.contains(n) == (shorter.contains(n) || n
                    == nonces[i as int]) by {
                    if shorter.contains(n) {
                        let k = choose|k: int| 0 <= k < shorter.len() && shorter[k] == n;
                        assert(longer[k] == n);
                    }
                    if n == nonces[i as int] {
                        assert(longer[i as int] == n);
                    }
                    if longer.contains(n) {
                        let k = choose|k: int| 0 <= k < longer.len() && longer[k] == n;
                        if k < i {
                            assert(shorter[k] == n);
                        }
                    }
                }
                assert forall|c: TokenId, n: u64, m: StakingModuleType| #[trigger]
                    after.nonce_asset_score(c, n, m) == if c == collection_token_identifier
                        && longer.contains(n) && m == staking_module {
                        Some(score)
                    } else {
                        old(self).nonce_asset_score(c, n, m)
                    } by {
                    assert(before.nonce_asset_score(c, n, m) == if c == collection_token_identifier
                        && shorter.contains(n) && m == staking_module {
                        Some(score)
                    } else {
                        old(self).nonce_asset_score(c, n, m)
                    });
                }
            }
            i += 1;
        }
        proof {
            assert(nonces@.take(nonces.len() as int) =~= nonces@);
        }
    }

    /// Sets what one unit weighs in the pool for every nonce of the
    /// collection from `nonce_range_start` to `nonce_range_end`, both
    /// included.
    pub fn set_nonce_asset_score_by_range(
        &mut self,
        collection_token_identifier: TokenId,
        staking_module: StakingModuleType,
        score: u64,
        nonce_range_start: u64,
        nonce_range_end: u64,
    )
        requires
            old(self).wf(),
        ensures
            final(self).wf(),
            final(self).score_table_set(old(self)),
            final(self).base_scores == old(self).base_scores,
            final(self).full_set_scores == old(self).full_set_scores,
            forall|c: TokenId, n: u64, m: StakingModuleType| #[trigger]
                final(self).nonce_asset_score(c, n, m) == if c == collection_token_identifier
                    && nonce_range_start <= n <= nonce_range_end && m == staking_module {
                    Some(score)
                } else {
                    old(self).nonce_asset_score(c, n, m)
                },
    {
        if nonce_range_start > nonce_range_end {
            return ;
        }
        let mut nonce: u64 = nonce_range_start;
        loop
            invariant_except_break
                forall|c: TokenId, n: u64, m: StakingModuleType| #[trigger]
                    self.nonce_asset_score(c, n, m) == if c == collection_token_identifier
                        && nonce_range_start <= n < nonce && m == staking_module {
                        Some(score)
                    } else {
                        old(self).nonce_asset_score(c, n, m)
                    },
            invariant
                nonce_range_start <= nonce <= nonce_range_end,
                self.wf(),
                self.score_table_set(old(self)),
                self.base_scores == old(self).base_scores,
                self.full_set_scores == old(self).full_set_scores,
            ensures
                forall|c: TokenId, n: u64, m: StakingModuleType| #[trigger]
                    self.nonce_asset_score(c, n, m) == if c == collection_token_identifier
                        && nonce_range_start <= n <= nonce_range_end && m == staking_module {
                        Some(score)
                    } else {
                        old(self).nonce_asset_score(c, n, m)
                    },
            decreases nonce_range_end - nonce,
        {
            let ghost before = *self;
            self.put_nonce_asset_score(collection_token_identifier, nonce, staking_module, score);
            proof {
                let after = *self;
                assert forall|c: TokenId, n: u64, m: StakingModuleType| #[trigger]
                    after.nonce_asset_score(c, n, m) == if c == collection_token_identifier
                        && nonce_range_start <= n <= nonce && m == staking_module {
                        Some(score)
                    } else {
                        old(self).nonce_asset_score(c, n, m)
                    } by {
                    assert(before.nonce_asset_score(c, n, m) == if c == collection_token_identifier
                        && nonce_range_start <= n < nonce && m == staking_module {
                        Some(score)
                    } else {
                        old(self).nonce_asset_score(c, n, m)
                    });
                }
            }
            if nonce == nonce_range_end {
                break ;
            }
            nonce += 1;
        }
    }

    /// Registers the token as a reward of the pool. A pair already
    /// registered stays where it is.
    pub fn register_reward_token(
        &mut self,
        reward_token_identifier: TokenId,
        staking_module_type: StakingModuleType,
    )
        requires
            old(self).wf(),
        ensures
            final(self).wf(),
            final(self).same_accounts(old(self)),
            final(self).same_rates(old(self)),
            final(self).pool_types == old(self).pool_types,
            final(self).primary_reward_token == old(self).primary_reward_token,
            final(self).unbonding_time_penalty == old(self).unbonding_time_penalty,
            final(self).base_scores == old(self).base_scores,
            final(self).nonce_scores == old(self).nonce_scores,
            final(self).full_set_scores == old(self).full_set_scores,
            final(self).reward_tokens@ == if is_reward_pair(
                old(self).reward_tokens@,
                reward_token_identifier,
                staking_module_type,
            ) {
                old(self).reward_tokens@
            } else {
                old(self).reward_tokens@.push(
                    RewardTokenMapping {
                        token_identifier: reward_token_identifier,
                        staking_module_type,
                    },
                )
            },
    {
        if self.is_reward_token_for(reward_token_identifier, staking_module_type) {
            return ;
        }
        let ghost before = *self;
        self.reward_tokens.push(
            RewardTokenMapping { token_identifier: reward_token_identifier, staking_module_type },
        );
        proof {
            let pairs = self.reward_tokens@;
            assert forall|i: int, j: int| 0 <= i < j < pairs.len() implies pairs[i] != pairs[j] by {
                if j == pairs.len() - 1 {
                    assert(before.reward_tokens@[i] == pairs[i]);
                    assert(before.reward_tokens@.contains(pairs[i]));
                } else {
                    assert(before.reward_tokens@[i] != before.reward_tokens@[j]);
                }
            }
            Ledger::lemma_wf_same_accounts(&before, self);
        }
    }

    /// `self` is `before` without the position of `user` in the collection
    /// `token` and without any unbonding batch of `user`; no score moved.
    pub open spec fn position_reset(&self, before: &Ledger, user: Address, token: TokenId) -> bool {
        &&& self.same_config(before)
        &&& self.same_rates(before)
        &&& self.aggregated_scores == before.aggregated_scores
        &&& if before.knows(user) {
            &&& self.knows(user)
            &&& self.same_other_accounts(before, user)
            &&& self.user_scores(user) == before.user_scores(user)
            &&& self.raw_user_scores(user) == before.raw_user_scores(user)
            &&& self.user_deb(user) == before.user_deb(user)
            &&& self.pending_map(user) == before.pending_map(user)
            &&& self.user_checkpoints(user) == before.user_checkpoints(user)
            &&& self.unbonding_assets(user) == Seq::<UnbondingBatch>::empty()
            &&& self.positions(user) == if before.has_position(user, token) {
                before.positions(user).remove(index_of_collection(before.positions(user), token))
            } else {
                before.positions(user)
            }
        } else {
            self.users == before.users
        }
    }

    /// Strikes what `user` holds of the collection and every unbonding batch
    /// of `user`, and names the payment that hands `amount` units of the
    /// asset back, if any. The scores stay as they are.
    pub fn reset(&mut self, user: Address, token_identifier: TokenId, nonce: u64, amount: u128) -> (payment:
        Option<TokenPayment>)
        requires
            old(self).wf(),
        ensures
            final(self).wf(),
            final(self).position_reset(old(self), user, token_identifier),
            payment == if amount == 0 {
                None
            } else {
                Some(TokenPayment { token_identifier, token_nonce: nonce, amount })
            },
    {
        let payment = if amount == 0 {
            None
        } else {
            Some(TokenPayment::new(token_identifier, nonce, amount))
        };
        if !self.users.contains_key(&user) {
            return payment;
        }
        let ghost before = *self;
        match self.users.remove(&user) {
            Some(account) => {
                let mut account = account;
                proof {
                    assert(before.users@[user].wf());
                }
                let ghost held = account.positions@;
                match find_collection(&account.positions, token_identifier) {
                    Some(i) => {
                        proof {
                            lemma_index_of_collection(held, i as int);
                        }
                        account.positions.remove(i);
                        proof {
                            let kept = account.positions@;
                            assert forall|a: int, b: int| 0 <= a < b < kept.len() implies (
                            #[trigger] kept[a]).collection != (#[trigger] kept[b]).collection by {
                                let from_a = if a < i {
                                    a
                                } else {
                                    a + 1
                                };
                                let from_b = if b < i {
                                    b
                                } else {
                                    b + 1
                                };
                                assert(kept[a] == held[from_a] && kept[b] == held[from_b]);
                                assert(held[from_a].collection != held[from_b].collection);
                            }
                            assert forall|a: int| 0 <= a < kept.len() implies nonces_unique(
                                (#[trigger] kept[a]).items@,
                            ) by {
                                let from_a = if a < i {
                                    a
                                } else {
                                    a + 1
                                };
                                assert(kept[a] == held[from_a]);
                            }
                        }
                    },
                    None => {},
                }
                account.unbonding.clear();
                self.users.insert(user, account);
                proof {
                    let after = *self;
                    assert(after.users@ =~= before.users@.insert(user, after.users@[user]));
                    Ledger::lemma_wf_after_account_update(&before, &after, user);
                }
            },
            None => {
                proof {
                    assert(false);
                }
            },
        }
        payment
    }
}

} // verus!
