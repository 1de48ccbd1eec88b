//! The unit of work behind every call that changes a staker's score.
//!
//! A context is built for one call. It stages the staker's rewards, holdings
//! and scores on copies, so that a failure on the way leaves the ledger as it
//! was; `commit` writes everything at once.

use crate::boost::{
    boosted_score, lemma_apply_deb_monotone_in_score, spec_apply_deb, spec_boosted_score,
};
use crate::staking_modules::invalid::InvalidStakingModule;
use crate::errors::StakingError;
use crate::ledger::Ledger;
use crate::math::{checked_sum, fits};
use crate::staking_modules::inventory::{
    all_of_token, check_all_of_token, items_after_stake, items_after_unbonding,
    lemma_items_after_stake_fails_on, unbonding_allowed,
};
use crate::staking_modules::scoring::{
    compute_total_raw_score, holdings_of, scoring_pool, staged_holdings, total_raw_score,
};
use crate::staking_modules::staking_module_mapping::StakingModuleTypeMapping;
use crate::staking_modules::staking_module_type::{PerModule, StakingModuleType};
use crate::storage::user_data::{
    collections_unique, find_collection, holds_collection, index_of_collection, items_of,
    lemma_index_of_collection, Position, UnbondingBatch, UserAccount,
};
use crate::types::nonce_qty_pair::{copy_items, NonceQtyPair};
use crate::types::start_unbonding_payload::StartUnbondingPayload;
use crate::types::token_payment::TokenPayment;
use crate::types::{Address, TokenId};
use crate::utils::secure_all_rewards;
use std::collections::HashMap;
use vstd::prelude::*;

verus! {

/// What one call stages for one staker and one collection.
#[derive(Debug)]
pub struct StakingContext {
    /// The staker on whose behalf the call is made.
    pub caller: Address,
    /// The staker's boost, as staged.
    pub user_deb: u128,
    /// The collection acted on.
    pub token_identifier: TokenId,
    /// The pool of the collection; `Invalid` where it has none.
    pub staking_module_type: StakingModuleType,
    /// The strategy of the pool, with the holdings as staged.
    pub staking_module_impl: StakingModuleTypeMapping,
    /// The staker's raw score in every pool, as staged.
    pub raw_scores: PerModule<u128>,
    /// The staker's boosted score in every pool, as staged.
    pub scores: PerModule<u128>,
    /// The aggregated score of every pool, as staged.
    pub aggregated_scores: PerModule<u128>,
    /// The staker's claimable balances, as staged.
    pub pending_rewards: HashMap<TokenId, u128>,
    /// The staker's checkpoints, as staged.
    pub last_claimed_epoch: PerModule<u64>,
    /// The withdrawal request staged by this call, if any.
    pub unbonding_batch: Option<UnbondingBatch>,
}

/// Whether a change to the holdings of a collection of the pool `pool_type`
/// can move the raw score in `module`: it can in the primary pool, in the
/// collection's own pool and, for a collection scored as snakes are, in the
/// company-share pool.
pub open spec fn score_affected(pool_type: StakingModuleType, module: StakingModuleType) -> bool {
    ||| module == StakingModuleType::All
    ||| module == pool_type
    ||| (pool_type.strategy_pool() == StakingModuleType::SnakesSfts && module
        == StakingModuleType::SharesSfts)
}

impl StakingContext {
    /// The context is sound in its structure: the staged holdings list no
    /// nonce twice, the strategy is that of the pool and works on the
    /// collection, and no staged score exceeds the staged aggregate.
    pub open spec fn bounded(&self) -> bool {
        &&& self.staking_module_impl.wf()
        &&& self.staking_module_impl.pool_type() == self.staking_module_type.strategy_pool()
        &&& !self.staking_module_impl.is_invalid() ==> self.staking_module_impl.token()
            == self.token_identifier
        &&& forall|m: StakingModuleType| #[trigger]
            self.scores.spec_get(m) <= self.aggregated_scores.spec_get(m)
    }

    /// The staged boosted scores are the staged raw ones under the staged
    /// boost.
    pub open spec fn follows_boost(&self) -> bool {
        forall|m: StakingModuleType| #[trigger]
            self.scores.spec_get(m) as nat == spec_boosted_score(
                m,
                self.raw_scores.spec_get(m) as nat,
                self.user_deb as nat,
            )
    }

    /// The context is consistent in itself: it is sound in its structure and
    /// its scores follow its boost.
    pub open spec fn wf(&self) -> bool {
        self.bounded() && self.follows_boost()
    }

    /// The context was built on this ledger and can be committed to it:
    /// every staged aggregate differs from the ledger's by what the staged
    /// score differs.
    pub open spec fn tracks(&self, ledger: &Ledger) -> bool {
        forall|m: StakingModuleType| #[trigger]
            self.aggregated_scores.spec_get(m) + ledger.user_score(m, self.caller)
                == ledger.aggregated_scores.spec_get(m) + self.scores.spec_get(m)
    }

    /// The holdings that the staker would have with what is staged.
    pub open spec fn holdings(&self, ledger: &Ledger) -> Seq<(TokenId, Seq<NonceQtyPair>)> {
        staged_holdings(
            ledger.positions(self.caller),
            self.token_identifier,
            self.staking_module_impl.staged_items(),
        )
    }

    /// The raw score that the staker would have in `module` with what is
    /// staged.
    pub open spec fn staged_raw_score(&self, ledger: &Ledger, module: StakingModuleType) -> nat {
        total_raw_score(ledger, self.holdings(ledger), module)
    }

    /// The raw score, the boosted score and the aggregate all fit in `module`
    /// once the staged holdings are scored.
    pub open spec fn score_fits(&self, ledger: &Ledger, module: StakingModuleType) -> bool {
        let raw = self.staged_raw_score(ledger, module);
        let boosted = spec_boosted_score(module, raw, self.user_deb as nat);
        &&& raw <= u128::MAX
        &&& boosted <= u128::MAX
        &&& self.aggregated_scores.spec_get(module) - self.scores.spec_get(module) + boosted
            <= u128::MAX
    }

    /// A context for `caller` and the collection `payment_token_id`.
    pub fn new(ledger: &Ledger, payment_token_id: TokenId, caller: Address) -> (context: Self)
        requires
            ledger.wf(),
        ensures
            context.is_fresh(ledger, payment_token_id, caller),
            context.wf(),
            context.tracks(ledger),
    {
        Self::new_with_address(ledger, payment_token_id, caller)
    }

    /// The context holds exactly what the ledger holds of `caller`, with
    /// nothing staged yet.
    pub open spec fn holds_account(&self, ledger: &Ledger, caller: Address) -> bool {
        &&& self.caller == caller
        &&& self.user_deb == ledger.user_deb(caller)
        &&& self.raw_scores == ledger.raw_user_scores(caller)
        &&& self.scores == ledger.user_scores(caller)
        &&& self.aggregated_scores == ledger.aggregated_scores
        &&& self.pending_rewards@ == ledger.pending_map(caller)
        &&& self.last_claimed_epoch == ledger.user_checkpoints(caller)
        &&& self.unbonding_batch.is_none()
    }

    /// The context holds exactly what the ledger holds of `caller` and of
    /// the collection, with nothing staged yet.
    pub open spec fn is_fresh(&self, ledger: &Ledger, token: TokenId, caller: Address) -> bool {
        &&& self.holds_account(ledger, caller)
        &&& self.token_identifier == token
        &&& self.staking_module_type == scoring_pool(ledger, token)
        &&& self.staking_module_impl.is_invalid() == (self.staking_module_type
            == StakingModuleType::Invalid)
        &&& !self.staking_module_impl.is_invalid() ==> self.staking_module_impl.staged_items()
            == ledger.staked_nfts(caller, token)
    }

    /// A context for `caller` alone, for a call that touches no collection:
    /// it stages no holdings and commits none.
    pub fn for_staker(ledger: &Ledger, caller: Address) -> (context: Self)
        requires
            ledger.wf(),
        ensures
            context.holds_account(ledger, caller),
            context.staking_module_impl.is_invalid(),
            context.wf(),
            context.tracks(ledger),
    {
        let (user_deb, raw_scores, scores, pending_rewards, last_claimed_epoch) =
            match ledger.users.get(&caller) {
            Some(account) => (
                account.deb,
                account.raw_scores,
                account.scores,
                account.pending_rewards.clone(),
                account.last_claimed_epoch,
            ),
            None => (
                0u128,
                PerModule::filled(0u128),
                PerModule::filled(0u128),
                HashMap::new(),
                PerModule::filled(0u64),
            ),
        };
        let context = Self {
            caller,
            user_deb,
            token_identifier: 0,
            staking_module_type: StakingModuleType::Invalid,
            staking_module_impl: StakingModuleTypeMapping::Invalid(InvalidStakingModule::new()),
            raw_scores,
            scores,
            aggregated_scores: ledger.aggregated_scores,
            pending_rewards,
            last_claimed_epoch,
            unbonding_batch: None,
        };
        proof {
            assert forall|m: StakingModuleType| #[trigger]
                context.scores.spec_get(m) <= context.aggregated_scores.spec_get(m) by {
                ledger.lemma_user_score_bounded(m, caller);
            }
            assert forall|m: StakingModuleType| #[trigger]
                context.scores.spec_get(m) as nat == spec_boosted_score(
                    m,
                    context.raw_scores.spec_get(m) as nat,
                    context.user_deb as nat,
                ) by {
                if ledger.knows(caller) {
                    assert(ledger.users@[caller].wf());
                }
            }
        }
        context
    }

    /// A context for `caller` and the collection `payment_token_id`.
    pub fn new_with_address(ledger: &Ledger, payment_token_id: TokenId, caller: Address) -> (context:
        Self)
        requires
            ledger.wf(),
        ensures
            context.is_fresh(ledger, payment_token_id, caller),
            context.wf(),
            context.tracks(ledger),
    {
        let staking_module_type = match ledger.get_staking_pool_type_configuration(
            payment_token_id,
        ) {
            Some(module) => module,
            None => StakingModuleType::Invalid,
        };
        let staking_module_impl = staking_module_type.get_module(ledger, payment_token_id, caller);
        let (user_deb, raw_scores, scores, pending_rewards, last_claimed_epoch) =
            match ledger.users.get(&caller) {
            Some(account) => (
                account.deb,
                account.raw_scores,
                account.scores,
                account.pending_rewards.clone(),
                account.last_claimed_epoch,
            ),
            None => (
                0u128,
                PerModule::filled(0u128),
                PerModule::filled(0u128),
                HashMap::new(),
                PerModule::filled(0u64),
            ),
        };
        let context = Self {
            caller,
            user_deb,
            token_identifier: payment_token_id,
            staking_module_type,
            staking_module_impl,
            raw_scores,
            scores,
            aggregated_scores: ledger.aggregated_scores,
            pending_rewards,
            last_claimed_epoch,
            unbonding_batch: None,
        };
        proof {
            assert forall|m: StakingModuleType| #[trigger]
                context.scores.spec_get(m) <= context.aggregated_scores.spec_get(m) by {
                ledger.lemma_user_score_bounded(m, caller);
            }
            assert forall|m: StakingModuleType| #[trigger]
                context.scores.spec_get(m) as nat == spec_boosted_score(
                    m,
                    context.raw_scores.spec_get(m) as nat,
                    context.user_deb as nat,
                ) by {
                if ledger.knows(caller) {
                    assert(ledger.users@[caller].wf());
                }
            }
        }
        context
    }

    /// The raw score of the staged holdings of the collection in the pool,
    /// under the collection's strategy; where it fits.
    pub fn get_base_user_score(&self, ledger: &Ledger, staking_module_type: StakingModuleType) -> (score:
        Option<u128>)
        requires
            self.wf(),
        ensures
            score == fits(
                crate::staking_modules::scoring::strategy_score(
                    ledger,
                    self.staking_module_impl.pool_type(),
                    self.staking_module_impl.token(),
                    staking_module_type,
                    self.staking_module_impl.staged_items(),
                ),
            ),
    {
        self.staking_module_impl.get_base_user_score(ledger, staking_module_type)
    }

    /// Stages the folding of every registered reward at `block_epoch`, priced
    /// at the scores that the ledger holds. Where a balance leaves the range
    /// of `u128` nothing is staged.
    pub fn secure_all_rewards(&mut self, ledger: &Ledger, block_epoch: u64) -> (result: Result<
        (),
        StakingError,
    >)
        ensures
            match result {
                Ok(()) => {
                    &&& ledger.secured_rewards(old(self).caller, block_epoch) == Some(
                        (final(self).pending_rewards@, final(self).last_claimed_epoch),
                    )
                    &&& final(self).same_but_rewards(old(self))
                },
                Err(error) => {
                    &&& error == StakingError::ArithmeticOverflow
                    &&& ledger.secured_rewards(old(self).caller, block_epoch).is_none()
                    &&& *final(self) == *old(self)
                },
            },
    {
        match secure_all_rewards(ledger, self.caller, block_epoch) {
            Some((pending, checkpoints)) => {
                self.pending_rewards = pending;
                self.last_claimed_epoch = checkpoints;
                Ok(())
            },
            None => Err(StakingError::ArithmeticOverflow),
        }
    }

    /// Everything but the staged rewards is as in `before`.
    pub open spec fn same_but_rewards(&self, before: &StakingContext) -> bool {
        &&& self.caller == before.caller
        &&& self.user_deb == before.user_deb
        &&& self.token_identifier == before.token_identifier
        &&& self.staking_module_type == before.staking_module_type
        &&& self.staking_module_impl == before.staking_module_impl
        &&& self.raw_scores == before.raw_scores
        &&& self.scores == before.scores
        &&& self.aggregated_scores == before.aggregated_scores
        &&& self.unbonding_batch == before.unbonding_batch
    }

    /// Everything but the staged scores is as in `before`.
    pub open spec fn same_but_scores(&self, before: &StakingContext) -> bool {
        &&& self.caller == before.caller
        &&& self.user_deb == before.user_deb
        &&& self.token_identifier == before.token_identifier
        &&& self.staking_module_type == before.staking_module_type
        &&& self.staking_module_impl == before.staking_module_impl
        &&& self.pending_rewards == before.pending_rewards
        &&& self.last_claimed_epoch == before.last_claimed_epoch
        &&& self.unbonding_batch == before.unbonding_batch
    }

    /// The delta update: takes `new_base_user_score` as the staker's raw
    /// score in the pool, boosts it where the pool is the primary one, and
    /// moves the aggregate by what the boosted score moves. Where the boosted
    /// score stays, nothing is written. Where the boosted score or the
    /// aggregate leaves the range of `u128`, nothing is staged.
    ///
    /// Every change of a score goes through here, whether the holdings or
    /// the boost changed.
    pub fn update_score(&mut self, module_type: StakingModuleType, new_base_user_score: u128) -> (result:
        Result<(), StakingError>)
        requires
            old(self).bounded(),
        ensures
            final(self).bounded(),
            old(self).wf() ==> final(self).wf(),
            final(self).same_but_scores(old(self)),
            ({
                let boosted = spec_boosted_score(
                    module_type,
                    new_base_user_score as nat,
                    old(self).user_deb as nat,
                );
                let aggregate = old(self).aggregated_scores.spec_get(module_type) - old(
                    self,
                ).scores.spec_get(module_type) + boosted;
                match result {
                    Ok(()) => {
                        &&& aggregate <= u128::MAX
                        &&& final(self).raw_scores == if boosted == old(self).scores.spec_get(
                            module_type,
                        ) {
                            old(self).raw_scores
                        } else {
                            old(self).raw_scores.spec_set(module_type, new_base_user_score)
                        }
                        &&& old(self).wf() ==> final(self).raw_scores == old(
                            self,
                        ).raw_scores.spec_set(module_type, new_base_user_score)
                        &&& final(self).scores == old(self).scores.spec_set(
                            module_type,
                            boosted as u128,
                        )
                        &&& final(self).aggregated_scores == old(self).aggregated_scores.spec_set(
                            module_type,
                            aggregate as u128,
                        )
                    },
                    Err(error) => {
                        &&& error == StakingError::ArithmeticOverflow
                        &&& aggregate > u128::MAX
                        &&& *final(self) == *old(self)
                    },
                }
            }),
    {
        let initial_pool_user_score = self.scores.get(module_type);
        let aggregated_general_score = self.aggregated_scores.get(module_type);
        proof {
            assert(self.scores.spec_get(module_type) <= self.aggregated_scores.spec_get(
                module_type,
            ));
        }
        let new_pool_user_score = match boosted_score(
            module_type,
            new_base_user_score,
            self.user_deb,
        ) {
            Some(score) => score,
            None => {
                return Err(StakingError::ArithmeticOverflow);
            },
        };
        if new_pool_user_score == initial_pool_user_score {
            proof {
                let old_raw = self.raw_scores.spec_get(module_type);
                if self.wf() {
                    assert(self.scores.spec_get(module_type) as nat == spec_boosted_score(
                        module_type,
                        self.raw_scores.spec_get(module_type) as nat,
                        self.user_deb as nat,
                    ));
                }
                if self.wf() && module_type == StakingModuleType::All {
                    if old_raw < new_base_user_score {
                        lemma_apply_deb_monotone_in_score(
                            old_raw as nat,
                            new_base_user_score as nat,
                            self.user_deb as nat,
                        );
                    } else if new_base_user_score < old_raw {
                        lemma_apply_deb_monotone_in_score(
                            new_base_user_score as nat,
                            old_raw as nat,
                            self.user_deb as nat,
                        );
                    }
                }
                assert(self.wf() ==> old_raw == new_base_user_score);
                assert(self.raw_scores == self.raw_scores.spec_set(module_type, old_raw));
                assert(self.scores == self.scores.spec_set(module_type, initial_pool_user_score));
                assert(self.aggregated_scores == self.aggregated_scores.spec_set(
                    module_type,
                    aggregated_general_score,
                ));
            }
            return Ok(());
        }
        let new_aggregated_general_score = match checked_sum(
            aggregated_general_score - initial_pool_user_score,
            new_pool_user_score,
        ) {
            Some(score) => score,
            None => {
                return Err(StakingError::ArithmeticOverflow);
            },
        };
        self.scores.set(module_type, new_pool_user_score);
        self.aggregated_scores.set(module_type, new_aggregated_general_score);
        self.raw_scores.set(module_type, new_base_user_score);
        proof {
            assert forall|m: StakingModuleType| #[trigger]
                self.scores.spec_get(m) <= self.aggregated_scores.spec_get(m) by {
                assert(old(self).scores.spec_get(m) <= old(self).aggregated_scores.spec_get(m));
            }
            if old(self).wf() {
                assert forall|m: StakingModuleType| #[trigger]
                    self.scores.spec_get(m) as nat == spec_boosted_score(
                        m,
                        self.raw_scores.spec_get(m) as nat,
                        self.user_deb as nat,
                    ) by {
                    assert(old(self).scores.spec_get(m) as nat == spec_boosted_score(
                        m,
                        old(self).raw_scores.spec_get(m) as nat,
                        old(self).user_deb as nat,
                    ));
                }
            }
        }
        Ok(())
    }

    /// Stages the boost `new_deb`: the boosted score of the primary pool is
    /// taken anew from the raw score by the delta update, and no other score
    /// moves. Where the boosted score or the aggregate leaves the range of
    /// `u128`, nothing is staged.
    pub fn update_deb(&mut self, new_deb: u128) -> (result: Result<(), StakingError>)
        requires
            old(self).wf(),
        ensures
            final(self).wf(),
            ({
                let boosted = spec_apply_deb(
                    old(self).raw_scores.spec_get(StakingModuleType::All) as nat,
                    new_deb as nat,
                );
                let aggregate = old(self).aggregated_scores.spec_get(StakingModuleType::All) - old(
                    self,
                ).scores.spec_get(StakingModuleType::All) + boosted;
                match result {
                    Ok(()) => {
                        &&& aggregate <= u128::MAX
                        &&& final(self).user_deb == new_deb
                        &&& final(self).raw_scores == old(self).raw_scores
                        &&& final(self).scores == old(self).scores.spec_set(
                            StakingModuleType::All,
                            boosted as u128,
                        )
                        &&& final(self).aggregated_scores == old(self).aggregated_scores.spec_set(
                            StakingModuleType::All,
                            aggregate as u128,
                        )
                        &&& final(self).same_but_scores_and_boost(old(self))
                    },
                    Err(error) => {
                        &&& error == StakingError::ArithmeticOverflow
                        &&& aggregate > u128::MAX
                        &&& *final(self) == *old(self)
                    },
                }
            }),
    {
        let old_deb = self.user_deb;
        let raw_score = self.raw_scores.get(StakingModuleType::All);
        self.user_deb = new_deb;
        let ghost staged = *self;
        match self.update_score(StakingModuleType::All, raw_score) {
            Ok(()) => {
                proof {
                    assert(self.raw_scores == old(self).raw_scores) by {
                        assert(old(self).raw_scores == old(self).raw_scores.spec_set(
                            StakingModuleType::All,
                            raw_score,
                        ));
                    }
                    assert forall|m: StakingModuleType| #[trigger]
                        self.scores.spec_get(m) as nat == spec_boosted_score(
                            m,
                            self.raw_scores.spec_get(m) as nat,
                            self.user_deb as nat,
                        ) by {
                        assert(old(self).scores.spec_get(m) as nat == spec_boosted_score(
                            m,
                            old(self).raw_scores.spec_get(m) as nat,
                            old(self).user_deb as nat,
                        ));
                    }
                }
                Ok(())
            },
            Err(error) => {
                self.user_deb = old_deb;
                Err(error)
            },
        }
    }

    /// Everything but the staged scores and the staged boost is as in
    /// `before`.
    pub open spec fn same_but_scores_and_boost(&self, before: &StakingContext) -> bool {
        &&& self.caller == before.caller
        &&& self.token_identifier == before.token_identifier
        &&& self.staking_module_type == before.staking_module_type
        &&& self.staking_module_impl == before.staking_module_impl
        &&& self.pending_rewards == before.pending_rewards
        &&& self.last_claimed_epoch == before.last_claimed_epoch
        &&& self.unbonding_batch == before.unbonding_batch
    }

    /// Why a batch of payments cannot be staged, if it cannot: the payments
    /// are not all of the collection; the collection has no usable pool; a
    /// reward balance or a quantity held would leave the range of `u128`.
    pub open spec fn add_to_stake_error(
        &self,
        ledger: &Ledger,
        payments: Seq<TokenPayment>,
        block_epoch: u64,
    ) -> Option<StakingError> {
        if !all_of_token(payments, self.token_identifier) {
            Some(StakingError::OneTokenIdSupported)
        } else if self.staking_module_impl.is_invalid() {
            Some(StakingError::InvalidStakedTokenId)
        } else if ledger.secured_rewards(self.caller, block_epoch).is_none() {
            Some(StakingError::ArithmeticOverflow)
        } else if items_after_stake(self.staking_module_impl.staged_items(), payments).is_none() {
            Some(StakingError::ArithmeticOverflow)
        } else {
            None
        }
    }

    /// Stages the folding of every registered reward, then the payments: a
    /// nonce already held is topped up, a new one is listed last.
    ///
    /// After a failure nothing is staged.
    pub fn add_to_stake(&mut self, ledger: &Ledger, payments: &Vec<TokenPayment>, block_epoch: u64) -> (result:
        Result<(), StakingError>)
        requires
            old(self).wf(),
        ensures
            final(self).wf(),
            final(self).same_but_rewards_and_holdings(old(self)),
            final(self).unbonding_batch == old(self).unbonding_batch,
            match result {
                Ok(()) => {
                    &&& old(self).add_to_stake_error(ledger, payments@, block_epoch).is_none()
                    &&& ledger.secured_rewards(old(self).caller, block_epoch) == Some(
                        (final(self).pending_rewards@, final(self).last_claimed_epoch),
                    )
                    &&& Some(final(self).staking_module_impl.staged_items()) == items_after_stake(
                        old(self).staking_module_impl.staged_items(),
                        payments@,
                    )
                },
                Err(error) => {
                    &&& old(self).add_to_stake_error(ledger, payments@, block_epoch) == Some(error)
                    &&& final(self).staking_module_impl.staged_items() == old(
                        self,
                    ).staking_module_impl.staged_items()
                    &&& final(self).pending_rewards == old(self).pending_rewards
                    &&& final(self).last_claimed_epoch == old(self).last_claimed_epoch
                },
            },
    {
        if !check_all_of_token(payments, self.token_identifier) {
            return Err(StakingError::OneTokenIdSupported);
        }
        let held_so_far = match self.staking_module_impl.staked_assets() {
            Some(items) => copy_items(items),
            None => {
                return Err(StakingError::InvalidStakedTokenId);
            },
        };
        let (pending, checkpoints) = match secure_all_rewards(ledger, self.caller, block_epoch) {
            Some(secured) => secured,
            None => {
                return Err(StakingError::ArithmeticOverflow);
            },
        };
        let mut i: usize = 0;
        while i < payments.len()
            invariant
                i <= payments.len(),
                self.wf(),
                self.same_but_rewards_and_holdings(old(self)),
                self.unbonding_batch == old(self).unbonding_batch,
                self.pending_rewards == old(self).pending_rewards,
                self.last_claimed_epoch == old(self).last_claimed_epoch,
                !self.staking_module_impl.is_invalid(),
                all_of_token(payments@, old(self).token_identifier),
                ledger.secured_rewards(old(self).caller, block_epoch).is_some(),
                held_so_far@ == old(self).staking_module_impl.staged_items(),
                old(self).wf(),
                Some(self.staking_module_impl.staged_items()) == items_after_stake(
                    old(self).staking_module_impl.staged_items(),
                    payments@.take(i as int),
                ),
            decreases payments.len() - i,
        {
            let payment = payments[i];
            proof {
                assert(payments@.take(i + 1).drop_last() =~= payments@.take(i as int));
                lemma_items_after_stake_fails_on(
                    old(self).staking_module_impl.staged_items(),
                    payments@,
                    i + 1,
                );
            }
            if !self.staking_module_impl.add_to_storage(payment.token_nonce, payment.amount) {
                self.staking_module_impl.replace_staked_assets(held_so_far);
                return Err(StakingError::ArithmeticOverflow);
            }
            i += 1;
        }
        proof {
            assert(payments@.take(payments.len() as int) =~= payments@);
        }
        self.pending_rewards = pending;
        self.last_claimed_epoch = checkpoints;
        Ok(())
    }

    /// Everything but the staged rewards, holdings and withdrawal request is
    /// as in `before`, and the strategy still works on the same collection.
    pub open spec fn same_but_rewards_and_holdings(&self, before: &StakingContext) -> bool {
        &&& self.caller == before.caller
        &&& self.user_deb == before.user_deb
        &&& self.token_identifier == before.token_identifier
        &&& self.staking_module_type == before.staking_module_type
        &&& self.staking_module_impl.pool_type() == before.staking_module_impl.pool_type()
        &&& self.staking_module_impl.token() == before.staking_module_impl.token()
        &&& self.staking_module_impl.is_invalid() == before.staking_module_impl.is_invalid()
        &&& self.raw_scores == before.raw_scores
        &&& self.scores == before.scores
        &&& self.aggregated_scores == before.aggregated_scores
    }

    /// Stages the folding of every registered reward, then the withdrawal of
    /// every item of the request, all of them or none, and the request itself
    /// as a batch made at `block_timestamp`.
    ///
    /// The answer is `false`, and no withdrawal is staged, where the request
    /// cannot be served: the collection has no usable pool, a nonce is asked
    /// twice, a nonce asked is not held in the quantity asked, or nothing is
    /// asked at all. It is a failure, and nothing is staged, where a reward
    /// balance would leave the range of `u128`.
    pub fn start_unbonding(
        &mut self,
        ledger: &Ledger,
        payload: StartUnbondingPayload,
        block_epoch: u64,
        block_timestamp: u64,
    ) -> (result: Result<bool, StakingError>)
        requires
            old(self).wf(),
        ensures
            final(self).wf(),
            final(self).same_but_rewards_and_holdings(old(self)),
            match result {
                Ok(served) => {
                    &&& ledger.secured_rewards(old(self).caller, block_epoch) == Some(
                        (final(self).pending_rewards@, final(self).last_claimed_epoch),
                    )
                    &&& served == (!old(self).staking_module_impl.is_invalid()
                        && unbonding_allowed(
                        old(self).staking_module_impl.staged_items(),
                        payload.items@,
                    ))
                    &&& if served {
                        &&& final(self).staking_module_impl.staged_items() == items_after_unbonding(
                            old(self).staking_module_impl.staged_items(),
                            payload.items@,
                        )
                        &&& final(self).unbonding_batch == Some(
                            UnbondingBatch { timestamp: block_timestamp, payload },
                        )
                    } else {
                        &&& final(self).staking_module_impl.staged_items() == old(
                            self,
                        ).staking_module_impl.staged_items()
                        &&& final(self).unbonding_batch == old(self).unbonding_batch
                    }
                },
                Err(error) => {
                    &&& error == StakingError::ArithmeticOverflow
                    &&& ledger.secured_rewards(old(self).caller, block_epoch).is_none()
                    &&& *final(self) == *old(self)
                },
            },
    {
        match self.secure_all_rewards(ledger, block_epoch) {
            Ok(()) => {},
            Err(error) => {
                return Err(error);
            },
        }
        let unbonding_result = self.staking_module_impl.start_unbonding(&payload);
        if unbonding_result {
            self.unbonding_batch = Some(UnbondingBatch { timestamp: block_timestamp, payload });
        }
        Ok(unbonding_result)
    }

    /// The staged scores of `module` are those of the staged holdings: the
    /// raw score is the total over everything held, the boosted score is the
    /// raw one under the boost, and the aggregate moved from `before` by
    /// what the boosted score moved.
    pub open spec fn score_refreshed(
        &self,
        before: &StakingContext,
        ledger: &Ledger,
        module: StakingModuleType,
    ) -> bool {
        let raw = before.staged_raw_score(ledger, module);
        let boosted = spec_boosted_score(module, raw, before.user_deb as nat);
        &&& self.raw_scores.spec_get(module) == raw
        &&& self.scores.spec_get(module) == boosted
        &&& self.aggregated_scores.spec_get(module) == before.aggregated_scores.spec_get(module)
            - before.scores.spec_get(module) + boosted
    }

    /// The staged scores of `module` are as in `before`.
    pub open spec fn score_kept(&self, before: &StakingContext, module: StakingModuleType) -> bool {
        &&& self.raw_scores.spec_get(module) == before.raw_scores.spec_get(module)
        &&& self.scores.spec_get(module) == before.scores.spec_get(module)
        &&& self.aggregated_scores.spec_get(module) == before.aggregated_scores.spec_get(module)
    }

    /// Scores the staged holdings in one pool and stages the result by the
    /// delta update.
    fn update_module_score(
        &mut self,
        ledger: &Ledger,
        positions: &Vec<Position>,
        module: StakingModuleType,
    ) -> (result: Result<(), StakingError>)
        requires
            old(self).wf(),
            ledger.wf(),
            !old(self).staking_module_impl.is_invalid(),
            positions@ == ledger.positions(old(self).caller),
        ensures
            final(self).wf(),
            final(self).same_but_scores(old(self)),
            match result {
                Ok(()) => {
                    &&& old(self).score_fits(ledger, module)
                    &&& final(self).score_refreshed(old(self), ledger, module)
                    &&& forall|m: StakingModuleType|
                        m != module ==> #[trigger] final(self).score_kept(old(self), m)
                },
                Err(error) => {
                    &&& error == StakingError::ArithmeticOverflow
                    &&& !old(self).score_fits(ledger, module)
                    &&& *final(self) == *old(self)
                },
            },
    {
        proof {
            if ledger.knows(self.caller) {
                assert(ledger.users@[self.caller].wf());
            }
        }
        let new_base_user_score = match self.staking_module_impl.staked_assets() {
            Some(staged_items) => match compute_total_raw_score(
                ledger,
                positions,
                self.token_identifier,
                staged_items,
                module,
            ) {
                Some(score) => score,
                None => {
                    return Err(StakingError::ArithmeticOverflow);
                },
            },
            None => {
                return Err(StakingError::ArithmeticOverflow);
            },
        };
        self.update_score(module, new_base_user_score)
    }

    /// Scores the staged holdings in the primary pool.
    fn update_primary_score(&mut self, ledger: &Ledger, positions: &Vec<Position>) -> (result:
        Result<(), StakingError>)
        requires
            old(self).wf(),
            ledger.wf(),
            !old(self).staking_module_impl.is_invalid(),
            positions@ == ledger.positions(old(self).caller),
        ensures
            final(self).wf(),
            final(self).same_but_scores(old(self)),
            match result {
                Ok(()) => {
                    &&& old(self).score_fits(ledger, StakingModuleType::All)
                    &&& final(self).score_refreshed(old(self), ledger, StakingModuleType::All)
                    &&& forall|m: StakingModuleType|
                        m != StakingModuleType::All ==> #[trigger] final(self).score_kept(
                            old(self),
                            m,
                        )
                },
                Err(error) => {
                    &&& error == StakingError::ArithmeticOverflow
                    &&& !old(self).score_fits(ledger, StakingModuleType::All)
                    &&& *final(self) == *old(self)
                },
            },
    {
        self.update_module_score(ledger, positions, StakingModuleType::All)
    }

    /// Scores the staged holdings in the collection's own pool.
    fn update_secondary_score(&mut self, ledger: &Ledger, positions: &Vec<Position>) -> (result:
        Result<(), StakingError>)
        requires
            old(self).wf(),
            ledger.wf(),
            !old(self).staking_module_impl.is_invalid(),
            positions@ == ledger.positions(old(self).caller),
        ensures
            final(self).wf(),
            final(self).same_but_scores(old(self)),
            match result {
                Ok(()) => {
                    &&& old(self).score_fits(ledger, old(self).staking_module_type)
                    &&& final(self).score_refreshed(
                        old(self),
                        ledger,
                        old(self).staking_module_type,
                    )
                    &&& forall|m: StakingModuleType|
                        m != old(self).staking_module_type ==> #[trigger] final(self).score_kept(
                            old(self),
                            m,
                        )
                },
                Err(error) => {
                    &&& error == StakingError::ArithmeticOverflow
                    &&& !old(self).score_fits(ledger, old(self).staking_module_type)
                    &&& *final(self) == *old(self)
                },
            },
    {
        let module = self.staking_module_type;
        self.update_module_score(ledger, positions, module)
    }

    /// Every pool that the staged holdings can move has room for their
    /// score.
    pub open spec fn scores_fit(&self, ledger: &Ledger) -> bool {
        forall|m: StakingModuleType|
            score_affected(self.staking_module_type, m) ==> #[trigger] self.score_fits(ledger, m)
    }

    /// The staged scores are those of the staged holdings in every pool that
    /// the holdings can move, and as in `before` in every other.
    pub open spec fn scores_refreshed(&self, before: &StakingContext, ledger: &Ledger) -> bool {
        forall|m: StakingModuleType| #[trigger] self.score_settled(before, ledger, m)
    }

    /// The staged scores of `module` are those of the staged holdings where
    /// the holdings can move them, and as in `before` where they cannot.
    pub open spec fn score_settled(
        &self,
        before: &StakingContext,
        ledger: &Ledger,
        module: StakingModuleType,
    ) -> bool {
        if score_affected(before.staking_module_type, module) {
            self.score_refreshed(before, ledger, module)
        } else {
            self.score_kept(before, module)
        }
    }

    /// Scores everything the staker would hold with what is staged, and
    /// stages the result by the delta update: in the primary pool, in the
    /// collection's own pool and, for a collection scored as snakes are, in
    /// the company-share pool.
    ///
    /// Where the collection has no usable pool nothing is staged; after a
    /// failure nothing is staged either.
    pub fn update_staking_scores(&mut self, ledger: &Ledger) -> (result: Result<(), StakingError>)
        requires
            old(self).wf(),
            ledger.wf(),
        ensures
            final(self).wf(),
            final(self).same_but_scores(old(self)),
            match result {
                Ok(()) => if old(self).staking_module_impl.is_invalid() {
                    *final(self) == *old(self)
                } else {
                    &&& old(self).scores_fit(ledger)
                    &&& final(self).scores_refreshed(old(self), ledger)
                },
                Err(error) => {
                    &&& error == StakingError::ArithmeticOverflow
                    &&& !old(self).staking_module_impl.is_invalid()
                    &&& !old(self).scores_fit(ledger)
                    &&& *final(self) == *old(self)
                },
            },
    {
        if self.staking_module_impl.staked_assets().is_none() {
            return Ok(());
        }
        let raw_scores_so_far = self.raw_scores;
        let scores_so_far = self.scores;
        let aggregated_scores_so_far = self.aggregated_scores;
        let no_positions: Vec<Position> = Vec::new();
        let positions: &Vec<Position> = match ledger.users.get(&self.caller) {
            Some(account) => &account.positions,
            None => &no_positions,
        };
        let ghost start = *self;
        let pool_type = self.staking_module_type;
        match self.update_primary_score(ledger, positions) {
            Ok(()) => {},
            Err(error) => {
                proof {
                    assert(score_affected(pool_type, StakingModuleType::All));
                }
                return Err(error);
            },
        }
        let ghost after_primary = *self;
        match self.update_secondary_score(ledger, positions) {
            Ok(()) => {},
            Err(error) => {
                proof {
                    assert(score_affected(pool_type, pool_type));
                    assert(after_primary.score_kept(&start, pool_type)
                        || after_primary.score_refreshed(&start, ledger, pool_type));
                    assert(!start.score_fits(ledger, pool_type));
                }
                self.raw_scores = raw_scores_so_far;
                self.scores = scores_so_far;
                self.aggregated_scores = aggregated_scores_so_far;
                return Err(error);
            },
        }
        let ghost after_secondary = *self;
        proof {
            assert forall|m: StakingModuleType|
                m != StakingModuleType::All && m != pool_type implies after_secondary.score_kept(
                &start,
                m,
            ) by {
                assert(after_primary.score_kept(&start, m));
                assert(after_secondary.score_kept(&after_primary, m));
            }
            assert(after_secondary.score_refreshed(&start, ledger, pool_type)) by {
                if pool_type != StakingModuleType::All {
                    assert(after_primary.score_kept(&start, pool_type));
                }
            }
            assert(after_secondary.score_refreshed(&start, ledger, StakingModuleType::All)) by {
                if pool_type != StakingModuleType::All {
                    assert(after_secondary.score_kept(&after_primary, StakingModuleType::All));
                }
            }
        }
        if pool_type.get_strategy_pool() == StakingModuleType::SnakesSfts {
            match self.update_module_score(ledger, positions, StakingModuleType::SharesSfts) {
                Ok(()) => {},
                Err(error) => {
                    proof {
                        assert(score_affected(pool_type, StakingModuleType::SharesSfts));
                        assert(after_secondary.score_kept(&start, StakingModuleType::SharesSfts)
                            || after_secondary.score_refreshed(
                            &start,
                            ledger,
                            StakingModuleType::SharesSfts,
                        ));
                        assert(!start.score_fits(ledger, StakingModuleType::SharesSfts));
                    }
                    self.raw_scores = raw_scores_so_far;
                    self.scores = scores_so_far;
                    self.aggregated_scores = aggregated_scores_so_far;
                    return Err(error);
                },
            }
            proof {
                assert forall|m: StakingModuleType|
                    m != StakingModuleType::SharesSfts implies self.score_kept(
                    &after_secondary,
                    m,
                ) by {}
                assert(self.score_refreshed(&start, ledger, StakingModuleType::SharesSfts)) by {
                    if pool_type != StakingModuleType::SharesSfts {
                        assert(after_secondary.score_kept(&start, StakingModuleType::SharesSfts));
                    }
                }
            }
        }
        proof {
            assert forall|m: StakingModuleType|
                score_affected(start.staking_module_type, m) implies #[trigger] start.score_fits(
                ledger,
                m,
            ) by {
                if m == StakingModuleType::All {
                } else if m == pool_type {
                    assert(after_primary.score_kept(&start, m));
                } else {
                    assert(after_secondary.score_kept(&start, m));
                }
            }
            assert forall|m: StakingModuleType| #[trigger]
                self.score_settled(&start, ledger, m) by {
                if pool_type.strategy_pool() == StakingModuleType::SnakesSfts {
                    if m != StakingModuleType::SharesSfts {
                        assert(self.score_kept(&after_secondary, m));
                    }
                }
                if m != StakingModuleType::All && m != pool_type {
                    assert(after_secondary.score_kept(&start, m));
                }
            }
        }
        Ok(())
    }

    /// `after` holds the staged holdings for the collection and, of every
    /// other collection, what `before` held; where the collection has no
    /// usable pool, `after` holds what `before` held.
    pub open spec fn holdings_committed(&self, before: &Ledger, after: &Ledger) -> bool {
        if self.staking_module_impl.is_invalid() {
            after.positions(self.caller) == before.positions(self.caller)
        } else {
            &&& holdings_of(after.positions(self.caller)) == self.holdings(before)
            &&& after.has_position(self.caller, self.token_identifier)
            &&& after.staked_nfts(self.caller, self.token_identifier)
                == self.staking_module_impl.staged_items()
            &&& forall|other: TokenId|
                other != self.token_identifier ==> (#[trigger] after.has_position(
                    self.caller,
                    other,
                )) == before.has_position(self.caller, other)
            &&& forall|other: TokenId|
                other != self.token_identifier ==> (#[trigger] after.staked_nfts(
                    self.caller,
                    other,
                )) == before.staked_nfts(self.caller, other)
        }
    }

    /// `after` has the staged withdrawal request, if there is one, as the
    /// staker's newest batch, and the batches of `before` ahead of it.
    pub open spec fn batch_committed(&self, before: &Ledger, after: &Ledger) -> bool {
        after.unbonding_assets(self.caller) == match self.unbonding_batch {
            Some(batch) => before.unbonding_assets(self.caller).push(batch),
            None => before.unbonding_assets(self.caller),
        }
    }

    /// `after` has the staged rewards, scores, aggregates and boost.
    pub open spec fn scores_committed(&self, before: &Ledger, after: &Ledger) -> bool {
        &&& after.aggregated_scores == self.aggregated_scores
        &&& after.user_scores(self.caller) == self.scores
        &&& after.raw_user_scores(self.caller) == self.raw_scores
        &&& after.user_checkpoints(self.caller) == self.last_claimed_epoch
        &&& after.pending_map(self.caller) == self.pending_rewards@
        &&& after.user_deb(self.caller) == self.user_deb
    }

    /// `after` is `before` with everything that this context stages written
    /// for the staker, and nothing else changed.
    pub open spec fn committed(&self, before: &Ledger, after: &Ledger) -> bool {
        &&& after.knows(self.caller)
        &&& after.same_other_accounts(before, self.caller)
        &&& after.same_config(before)
        &&& after.same_rates(before)
        &&& self.scores_committed(before, after)
        &&& self.holdings_committed(before, after)
        &&& self.batch_committed(before, after)
    }

    /// Writes everything staged to the ledger, at once.
    pub fn commit(self, ledger: &mut Ledger)
        requires
            old(ledger).wf(),
            self.wf(),
            self.tracks(old(ledger)),
        ensures
            final(ledger).wf(),
            self.committed(old(ledger), final(ledger)),
    {
        let ghost before = *ledger;
        let ghost context = self;
        let StakingContext {
            caller,
            user_deb,
            token_identifier,
            staking_module_type,
            staking_module_impl,
            raw_scores,
            scores,
            aggregated_scores,
            pending_rewards,
            last_claimed_epoch,
            unbonding_batch,
        } = self;
        let mut account = match ledger.users.remove(&caller) {
            Some(account) => account,
            None => UserAccount::empty(),
        };
        proof {
            if before.knows(caller) {
                assert(before.users@[caller].wf());
            }
        }
        let ghost old_positions = account.positions@;
        let invalid = staking_module_impl.staked_assets().is_none();
        if !invalid {
            let staked_assets = staking_module_impl.into_staked_assets();
            match find_collection(&account.positions, token_identifier) {
                Some(i) => {
                    account.positions[i] = Position {
                        collection: token_identifier,
                        items: staked_assets,
                    };
                    proof {
                        lemma_index_of_collection(old_positions, i as int);
                        lemma_position_replaced(
                            old_positions,
                            account.positions@,
                            i as int,
                            token_identifier,
                        );
                    }
                },
                None => {
                    account.positions.push(
                        Position { collection: token_identifier, items: staked_assets },
                    );
                    proof {
                        lemma_position_added(old_positions, account.positions@, token_identifier);
                    }
                },
            }
            proof {
                assert(holdings_of(account.positions@) =~= context.holdings(&before));
            }
        }
        account.deb = user_deb;
        account.raw_scores = raw_scores;
        account.scores = scores;
        account.last_claimed_epoch = last_claimed_epoch;
        account.pending_rewards = pending_rewards;
        match unbonding_batch {
            Some(batch) => {
                account.unbonding.push(batch);
            },
            None => {},
        }
        proof {
            assert(account.scores.spec_get(StakingModuleType::All) as nat == spec_boosted_score(
                StakingModuleType::All,
                account.raw_scores.spec_get(StakingModuleType::All) as nat,
                user_deb as nat,
            ));
            assert forall|m: StakingModuleType|
                m != StakingModuleType::All implies account.scores.spec_get(m)
                == account.raw_scores.spec_get(m) by {
                assert(account.scores.spec_get(m) as nat == spec_boosted_score(
                    m,
                    account.raw_scores.spec_get(m) as nat,
                    user_deb as nat,
                ));
            }
            assert(account.wf());
        }
        ledger.users.insert(caller, account);
        ledger.aggregated_scores = aggregated_scores;
        proof {
            assert(ledger.users@ =~= before.users@.insert(caller, ledger.users@[caller]));
            assert forall|m: StakingModuleType| #[trigger]
                ledger.aggregated_scores.spec_get(m) + before.user_score(m, caller)
                    == before.aggregated_scores.spec_get(m) + ledger.user_score(m, caller) by {
                assert(context.aggregated_scores.spec_get(m) + before.user_score(m, caller)
                    == before.aggregated_scores.spec_get(m) + context.scores.spec_get(m));
            }
            Ledger::lemma_wf_after_account_update(&before, ledger, caller);
            let after = *ledger;
            assert(after.positions(caller) == after.users@[caller].positions@);
            assert(before.positions(caller) == old_positions);
            if !context.staking_module_impl.is_invalid() {
                assert(holdings_of(after.positions(caller)) == context.holdings(&before));
                assert(after.has_position(caller, token_identifier));
                assert forall|other: TokenId| other != token_identifier implies (
                #[trigger] after.has_position(caller, other)) == before.has_position(
                    caller,
                    other,
                ) by {
                    assert(items_of(after.positions(caller), other) == items_of(
                        old_positions,
                        other,
                    ));
                }
                assert forall|other: TokenId| other != token_identifier implies (
                #[trigger] after.staked_nfts(caller, other)) == before.staked_nfts(
                    caller,
                    other,
                ) by {
                    assert(items_of(after.positions(caller), other) == items_of(
                        old_positions,
                        other,
                    ));
                }
            }
            assert(context.holdings_committed(&before, &after));
            assert(context.batch_committed(&before, &after));
            assert(context.scores_committed(&before, &after));
        }
    }
}

/// Where one position is rewritten for the same collection, the list stays
/// free of repeats and every other collection keeps what it held.
pub proof fn lemma_position_replaced(
    before: Seq<Position>,
    after: Seq<Position>,
    at: int,
    token: TokenId,
)
    requires
        collections_unique(before),
        0 <= at < before.len(),
        before[at].collection == token,
        after.len() == before.len(),
        after[at].collection == token,
        forall|i: int| 0 <= i < before.len() && i != at ==> after[i] == before[i],
    ensures
        collections_unique(after),
        holds_collection(after, token),
        items_of(after, token) == after[at].items@,
        forall|other: TokenId|
            other != token ==> holds_collection(after, other) == holds_collection(before, other)
                && #[trigger] items_of(after, other) == items_of(before, other),
{
    assert forall|i: int, j: int| 0 <= i < j < after.len() implies (#[trigger] after[i]).collection
        != (#[trigger] after[j]).collection by {
        assert(after[i].collection == before[i].collection);
        assert(after[j].collection == before[j].collection);
    }
    lemma_index_of_collection(after, at);
    assert forall|other: TokenId| other != token implies holds_collection(after, other)
        == holds_collection(before, other) && #[trigger] items_of(after, other) == items_of(
        before,
        other,
    ) by {
        if holds_collection(before, other) {
            let k = index_of_collection(before, other);
            assert(after[k] == before[k]);
            lemma_index_of_collection(before, k);
            lemma_index_of_collection(after, k);
        }
        if holds_collection(after, other) {
            let k = index_of_collection(after, other);
            assert(after[k] == before[k]);
            lemma_index_of_collection(before, k);
        }
    }
}

/// Where a position is added for a collection not yet held, the list stays
/// free of repeats and every other collection keeps what it held.
pub proof fn lemma_position_added(before: Seq<Position>, after: Seq<Position>, token: TokenId)
    requires
        collections_unique(before),
        !holds_collection(before, token),
        after.len() == before.len() + 1,
        after[before.len() as int].collection == token,
        forall|i: int| 0 <= i < before.len() ==> after[i] == before[i],
    ensures
        collections_unique(after),
        holds_collection(after, token),
        items_of(after, token) == after[before.len() as int].items@,
        forall|other: TokenId|
            other != token ==> holds_collection(after, other) == holds_collection(before, other)
                && #[trigger] items_of(after, other) == items_of(before, other),
{
    let last = before.len() as int;
    assert forall|i: int, j: int| 0 <= i < j < after.len() implies (#[trigger] after[i]).collection
        != (#[trigger] after[j]).collection by {
        if j < last {
            assert(after[i] == before[i] && after[j] == before[j]);
        } else {
            assert(after[i] == before[i]);
        }
    }
    lemma_index_of_collection(after, last);
    assert forall|other: TokenId| other != token implies holds_collection(after, other)
        == holds_collection(before, other) && #[trigger] items_of(after, other) == items_of(
        before,
        other,
    ) by {
        if holds_collection(before, other) {
            let k = index_of_collection(before, other);
            assert(after[k] == before[k]);
            lemma_index_of_collection(before, k);
            lemma_index_of_collection(after, k);
        }
        if holds_collection(after, other) {
            let k = index_of_collection(after, other);
            assert(k < last);
            assert(after[k] == before[k]);
            lemma_index_of_collection(before, k);
        }
    }
}

} // verus!
