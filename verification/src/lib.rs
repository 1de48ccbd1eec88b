//! A verified ledger for staking NFT and SFT collections into reward pools.
//!
//! The ledger keeps a weighted score per staker and per pool, moves the
//! aggregated score of each pool by deltas only, prices every epoch's reward
//! per unit of score, and folds unclaimed epochs lazily into each staker's
//! pending balance. Withdrawals pass through a cooling-off queue.
//!
//! Identity, clock and asset transfers are the caller's business: every entry
//! point takes the acting address, the epoch and the timestamp as plain
//! values, and hands outgoing payments back as plain values.

pub mod boost;
pub mod constants;
pub mod errors;
pub mod laws;
pub mod ledger;
pub mod math;
pub mod owner;
pub mod staking_context;
pub mod staking_modules;
pub mod storage;
pub mod types;
pub mod unbonding;
pub mod utils;
pub mod views;

use crate::boost::spec_boosted_score;
use crate::errors::StakingError;
use crate::ledger::Ledger;
use crate::staking_context::{score_affected, StakingContext};
use crate::staking_modules::inventory::{
    all_of_token, check_all_of_token, has_duplicate_nonces, items_after_stake,
    items_after_unbonding, unbonding_allowed,
};
use crate::staking_modules::scoring::{holdings_of, scoring_pool, staged_holdings, total_raw_score};
use crate::staking_modules::staking_module_type::StakingModuleType;
use crate::storage::user_data::{find_collection, UnbondingBatch};
use crate::types::nonce_qty_pair::{nonces_unique, NonceQtyPair};
use crate::types::start_unbonding_payload::StartUnbondingPayload;
use crate::types::token_payment::TokenPayment;
use crate::types::{Address, TokenId};
use crate::unbonding::{
    collect_matured_payments, matured_payments, pending_batches, remove_matured,
};
use crate::utils::{
    claim_all_pending_rewards, cleared, collect_pending_payments, pending_payments,
    secure_all_rewards,
};
use vstd::prelude::*;

verus! {

impl Ledger {
    /// The raw score that `user` would have in `module` with `items` held of
    /// the collection `token`.
    pub open spec fn raw_score_with(
        &self,
        user: Address,
        token: TokenId,
        items: Seq<NonceQtyPair>,
        module: StakingModuleType,
    ) -> nat {
        total_raw_score(self, staged_holdings(self.positions(user), token, items), module)
    }

    /// The boosted score that `user` would have in `module` with `items`
    /// held of the collection `token`.
    pub open spec fn score_with(
        &self,
        user: Address,
        token: TokenId,
        items: Seq<NonceQtyPair>,
        module: StakingModuleType,
    ) -> nat {
        spec_boosted_score(
            module,
            self.raw_score_with(user, token, items, module),
            self.user_deb(user) as nat,
        )
    }

    /// With `items` held of the collection `token`, the raw score and the
    /// boosted score of `user` in `module`, and the aggregate of `module`,
    /// all stay in the range of `u128`.
    pub open spec fn score_fits_with(
        &self,
        user: Address,
        token: TokenId,
        items: Seq<NonceQtyPair>,
        module: StakingModuleType,
    ) -> bool {
        &&& self.raw_score_with(user, token, items, module) <= u128::MAX
        &&& self.score_with(user, token, items, module) <= u128::MAX
        &&& self.aggregated_scores.spec_get(module) - self.user_score(module, user)
            + self.score_with(user, token, items, module) <= u128::MAX
    }

    /// Every pool whose score the holdings of `token` can move has room for
    /// the score of `user` with `items` held of it.
    pub open spec fn scores_fit_with(
        &self,
        user: Address,
        token: TokenId,
        items: Seq<NonceQtyPair>,
    ) -> bool {
        forall|m: StakingModuleType|
            score_affected(scoring_pool(self, token), m) ==> #[trigger] self.score_fits_with(
                user,
                token,
                items,
                m,
            )
    }

    /// The scores of `user` in `module` are, in `self`, what holding `items`
    /// of `token` makes them in `before`, with the aggregate moved by what
    /// the boosted score moved; in a pool that the holdings cannot move they
    /// are as in `before`.
    pub open spec fn score_follows(
        &self,
        before: &Ledger,
        user: Address,
        token: TokenId,
        items: Seq<NonceQtyPair>,
        module: StakingModuleType,
    ) -> bool {
        if score_affected(scoring_pool(before, token), module) {
            &&& self.raw_user_score(module, user) == before.raw_score_with(
                user,
                token,
                items,
                module,
            )
            &&& self.user_score(module, user) == before.score_with(user, token, items, module)
            &&& self.aggregated_scores.spec_get(module) == before.aggregated_scores.spec_get(module)
                - before.user_score(module, user) + before.score_with(user, token, items, module)
        } else {
            &&& self.raw_user_score(module, user) == before.raw_user_score(module, user)
            &&& self.user_score(module, user) == before.user_score(module, user)
            &&& self.aggregated_scores.spec_get(module) == before.aggregated_scores.spec_get(
                module,
            )
        }
    }

    /// `self` is `before` after `user` came to hold `items` of the
    /// collection `token` at `epoch`: every registered reward was folded in
    /// first, at the scores of `before`; the holdings of the collection are
    /// `items` and those of every other collection are untouched; the scores
    /// follow the holdings; `batch`, if there is one, is the newest
    /// withdrawal request; and nothing else changed.
    pub open spec fn position_updated(
        &self,
        before: &Ledger,
        user: Address,
        token: TokenId,
        items: Seq<NonceQtyPair>,
        epoch: u64,
        batch: Option<UnbondingBatch>,
    ) -> bool {
        &&& self.knows(user)
        &&& self.same_other_accounts(before, user)
        &&& self.same_config(before)
        &&& self.same_rates(before)
        &&& self.user_deb(user) == before.user_deb(user)
        &&& before.secured_rewards(user, epoch) == Some(
            (self.pending_map(user), self.user_checkpoints(user)),
        )
        &&& self.has_position(user, token)
        &&& self.staked_nfts(user, token) == items
        &&& holdings_of(self.positions(user)) == staged_holdings(
            before.positions(user),
            token,
            items,
        )
        &&& forall|other: TokenId|
            other != token ==> (#[trigger] self.has_position(user, other)) == before.has_position(
                user,
                other,
            )
        &&& forall|other: TokenId|
            other != token ==> (#[trigger] self.staked_nfts(user, other)) == before.staked_nfts(
                user,
                other,
            )
        &&& forall|m: StakingModuleType| #[trigger] self.score_follows(before, user, token, items, m)
        &&& self.unbonding_assets(user) == match batch {
            Some(batch) => before.unbonding_assets(user).push(batch),
            None => before.unbonding_assets(user),
        }
    }

    /// Why a batch of payments cannot be staked, if it cannot: it is empty or
    /// mixes collections; the collection has no usable pool; a reward
    /// balance, a quantity held, a score or an aggregate would leave the
    /// range of `u128`.
    pub open spec fn stake_error(
        &self,
        caller: Address,
        payments: Seq<TokenPayment>,
        block_epoch: u64,
    ) -> Option<StakingError> {
        if payments.len() == 0 || !all_of_token(payments, payments[0].token_identifier) {
            Some(StakingError::OneTokenIdSupported)
        } else {
            let token = payments[0].token_identifier;
            if scoring_pool(self, token) == StakingModuleType::Invalid {
                Some(StakingError::InvalidStakedTokenId)
            } else if self.secured_rewards(caller, block_epoch).is_none() {
                Some(StakingError::ArithmeticOverflow)
            } else {
                match items_after_stake(self.staked_nfts(caller, token), payments) {
                    None => Some(StakingError::ArithmeticOverflow),
                    Some(items) => if self.scores_fit_with(caller, token, items) {
                        None
                    } else {
                        Some(StakingError::ArithmeticOverflow)
                    },
                }
            }
        }
    }

    /// Whether every payment is of the collection of the first. An empty
    /// batch names no collection and does not pass.
    pub fn require_same_token_id(payments: &Vec<TokenPayment>) -> (same: bool)
        ensures
            same == (payments.len() > 0 && all_of_token(
                payments@,
                payments[0].token_identifier,
            )),
    {
        if payments.len() == 0 {
            return false;
        }
        check_all_of_token(payments, payments[0].token_identifier)
    }

    /// Whether the collection can be staked: it has a pool.
    pub fn require_stake_token_identifier_can_be_staked(&self, token_identifier: TokenId) -> (eligible:
        bool)
        ensures
            eligible == self.stake_pool_type_configuration(token_identifier).is_some(),
    {
        self.get_staking_pool_type_configuration(token_identifier).is_some()
    }

    /// Whether `caller` ever staked the collection.
    pub fn holds_position(&self, caller: Address, token_identifier: TokenId) -> (held: bool)
        ensures
            held == self.has_position(caller, token_identifier),
    {
        match self.users.get(&caller) {
            Some(account) => find_collection(&account.positions, token_identifier).is_some(),
            None => false,
        }
    }

    /// Whether an unbonding request of `caller` is worth looking at: the
    /// caller has a position in the collection, and the request names at
    /// least one item and no nonce twice.
    pub fn require_unbonding_is_valid(&self, caller: Address, payload: &StartUnbondingPayload) -> (valid:
        bool)
        ensures
            valid == (self.has_position(caller, payload.token_identifier) && payload.items.len()
                > 0 && nonces_unique(payload.items@)),
    {
        self.holds_position(caller, payload.token_identifier) && !payload.is_empty()
            && !has_duplicate_nonces(&payload.items)
    }

    /// Stakes the payments for `caller` at `block_epoch`.
    ///
    /// All payments must be of one collection, and the collection must have
    /// a usable pool. Every registered reward of the caller is folded in
    /// first, at the score held so far. Then each payment is added to what
    /// the caller holds of the collection: a nonce already held is topped
    /// up. Then the caller's raw score is taken anew over everything held,
    /// in the primary pool and in the pool of the collection, and each
    /// aggregate moves by what the boosted score moved.
    ///
    /// On any failure the ledger stays as it was.
    pub fn stake(&mut self, caller: Address, payments: &Vec<TokenPayment>, block_epoch: u64) -> (result:
        Result<(), StakingError>)
        requires
            old(self).wf(),
        ensures
            final(self).wf(),
            match result {
                Ok(()) => {
                    &&& old(self).stake_error(caller, payments@, block_epoch).is_none()
                    &&& final(self).position_updated(
                        old(self),
                        caller,
                        payments[0].token_identifier,
                        items_after_stake(
                            old(self).staked_nfts(caller, payments[0].token_identifier),
                            payments@,
                        ).unwrap(),
                        block_epoch,
                        None,
                    )
                },
                Err(error) => {
                    &&& old(self).stake_error(caller, payments@, block_epoch) == Some(error)
                    &&& *final(self) == *old(self)
                },
            },
    {
        if !Self::require_same_token_id(payments) {
            return Err(StakingError::OneTokenIdSupported);
        }
        let token = payments[0].token_identifier;
        let mut context = StakingContext::new(self, token, caller);
        match context.add_to_stake(self, payments, block_epoch) {
            Ok(()) => {},
            Err(error) => {
                return Err(error);
            },
        }
        let ghost staged = context;
        proof {
            self.lemma_context_scores(&staged, caller, token);
        }
        match context.update_staking_scores(self) {
            Ok(()) => {},
            Err(error) => {
                return Err(error);
            },
        }
        let ghost before = *self;
        let ghost scored = context;
        proof {
            assert forall|m: StakingModuleType| #[trigger]
                scored.aggregated_scores.spec_get(m) + before.user_score(m, caller)
                    == before.aggregated_scores.spec_get(m) + scored.scores.spec_get(m) by {
                assert(scored.score_settled(&staged, &before, m));
            }
        }
        context.commit(self);
        proof {
            let after = *self;
            let items = staged.staking_module_impl.staged_items();
            assert forall|m: StakingModuleType| #[trigger]
                after.score_follows(&before, caller, token, items, m) by {
                assert(scored.score_settled(&staged, &before, m));
            }
        }
        Ok(())
    }

    /// Why an unbonding request cannot be served, if it cannot: the caller
    /// has no position in the collection, or the request names no item or a
    /// nonce twice; a reward balance would leave the range of `u128`; the
    /// collection has no usable pool, a nonce asked is not held in the
    /// quantity asked, or nothing is asked at all; a score or an aggregate
    /// would leave the range of `u128`.
    pub open spec fn start_unbonding_error(
        &self,
        caller: Address,
        token: TokenId,
        requests: Seq<NonceQtyPair>,
        block_epoch: u64,
    ) -> Option<StakingError> {
        let held = self.staked_nfts(caller, token);
        if !(self.has_position(caller, token) && requests.len() > 0 && nonces_unique(requests)) {
            Some(StakingError::FailedUnbonding)
        } else if self.secured_rewards(caller, block_epoch).is_none() {
            Some(StakingError::ArithmeticOverflow)
        } else if scoring_pool(self, token) == StakingModuleType::Invalid || !unbonding_allowed(
            held,
            requests,
        ) {
            Some(StakingError::FailedUnbonding)
        } else if !self.scores_fit_with(caller, token, items_after_unbonding(held, requests)) {
            Some(StakingError::ArithmeticOverflow)
        } else {
            None
        }
    }

    /// Starts the unbonding of the requested assets of `caller`, at
    /// `block_epoch` and `block_timestamp`.
    ///
    /// Every item is checked against what the caller holds before anything
    /// is taken: the request is served whole or not at all. Every registered
    /// reward of the caller is folded in first, at the score held so far.
    /// Then the quantities leave the caller's holdings, the request joins
    /// the caller's unbonding queue under the timestamp, and the scores are
    /// taken anew.
    ///
    /// Two requests under one timestamp are two batches: neither replaces
    /// the other. On any failure the ledger stays as it was.
    pub fn start_unbonding(
        &mut self,
        caller: Address,
        payload: StartUnbondingPayload,
        block_epoch: u64,
        block_timestamp: u64,
    ) -> (result: Result<(), StakingError>)
        requires
            old(self).wf(),
        ensures
            final(self).wf(),
            match result {
                Ok(()) => {
                    &&& old(self).start_unbonding_error(
                        caller,
                        payload.token_identifier,
                        payload.items@,
                        block_epoch,
                    ).is_none()
                    &&& final(self).position_updated(
                        old(self),
                        caller,
                        payload.token_identifier,
                        items_after_unbonding(
                            old(self).staked_nfts(caller, payload.token_identifier),
                            payload.items@,
                        ),
                        block_epoch,
                        Some(UnbondingBatch { timestamp: block_timestamp, payload }),
                    )
                },
                Err(error) => {
                    &&& old(self).start_unbonding_error(
                        caller,
                        payload.token_identifier,
                        payload.items@,
                        block_epoch,
                    ) == Some(error)
                    &&& *final(self) == *old(self)
                },
            },
    {
        if !self.require_unbonding_is_valid(caller, &payload) {
            return Err(StakingError::FailedUnbonding);
        }
        let token = payload.token_identifier;
        let mut context = StakingContext::new(self, token, caller);
        match context.start_unbonding(self, payload, block_epoch, block_timestamp) {
            Ok(is_unbonding_successful) => {
                if !is_unbonding_successful {
                    return Err(StakingError::FailedUnbonding);
                }
            },
            Err(error) => {
                return Err(error);
            },
        }
        let ghost staged = context;
        proof {
            self.lemma_context_scores(&staged, caller, token);
        }
        match context.update_staking_scores(self) {
            Ok(()) => {},
            Err(error) => {
                return Err(error);
            },
        }
        let ghost before = *self;
        let ghost scored = context;
        proof {
            assert forall|m: StakingModuleType| #[trigger]
                scored.aggregated_scores.spec_get(m) + before.user_score(m, caller)
                    == before.aggregated_scores.spec_get(m) + scored.scores.spec_get(m) by {
                assert(scored.score_settled(&staged, &before, m));
            }
        }
        context.commit(self);
        proof {
            let after = *self;
            let items = staged.staking_module_impl.staged_items();
            assert forall|m: StakingModuleType| #[trigger]
                after.score_follows(&before, caller, token, items, m) by {
                assert(scored.score_settled(&staged, &before, m));
            }
        }
        Ok(())
    }

    /// Between `before` and `self` nothing changed but the unbonding queue of
    /// `user`.
    pub open spec fn only_unbonding_changed(&self, before: &Ledger, user: Address) -> bool {
        &&& self.knows(user)
        &&& self.same_other_accounts(before, user)
        &&& self.same_config(before)
        &&& self.same_rates(before)
        &&& self.aggregated_scores == before.aggregated_scores
        &&& self.user_scores(user) == before.user_scores(user)
        &&& self.raw_user_scores(user) == before.raw_user_scores(user)
        &&& self.user_deb(user) == before.user_deb(user)
        &&& self.pending_map(user) == before.pending_map(user)
        &&& self.user_checkpoints(user) == before.user_checkpoints(user)
        &&& self.positions(user) == before.positions(user)
    }

    /// Hands out the assets of every unbonding batch of `caller` that has
    /// cooled off at `block_timestamp`, oldest batch first, and strikes those
    /// batches from the queue. A batch has cooled off once the unbonding time
    /// penalty has passed since its request.
    ///
    /// Where nothing has cooled off the call fails and the ledger stays as
    /// it was.
    pub fn claim_unbonded(&mut self, caller: Address, block_timestamp: u64) -> (result: Result<
        Vec<TokenPayment>,
        StakingError,
    >)
        requires
            old(self).wf(),
        ensures
            final(self).wf(),
            match result {
                Ok(payments) => {
                    &&& payments.len() > 0
                    &&& payments@ == matured_payments(
                        old(self).unbonding_assets(caller),
                        block_timestamp,
                        old(self).unbonding_time_penalty,
                    )
                    &&& final(self).unbonding_assets(caller) == pending_batches(
                        old(self).unbonding_assets(caller),
                        block_timestamp,
                        old(self).unbonding_time_penalty,
                    )
                    &&& final(self).only_unbonding_changed(old(self), caller)
                },
                Err(error) => {
                    &&& error == StakingError::NothingToClaim
                    &&& matured_payments(
                        old(self).unbonding_assets(caller),
                        block_timestamp,
                        old(self).unbonding_time_penalty,
                    ).len() == 0
                    &&& *final(self) == *old(self)
                },
            },
    {
        let unbonding_time_penalty = self.unbonding_time_penalty;
        let payments = match self.users.get(&caller) {
            Some(account) => collect_matured_payments(
                &account.unbonding,
                block_timestamp,
                unbonding_time_penalty,
            ),
            None => Vec::new(),
        };
        if payments.len() == 0 {
            return Err(StakingError::NothingToClaim);
        }
        let ghost before = *self;
        match self.users.remove(&caller) {
            Some(account) => {
                let mut account = account;
                remove_matured(&mut account.unbonding, block_timestamp, unbonding_time_penalty);
                proof {
                    assert(before.users@[caller].wf());
                }
                self.users.insert(caller, account);
            },
            None => {
                proof {
                    assert(false);
                }
            },
        }
        proof {
            assert(self.users@ =~= before.users@.insert(caller, self.users@[caller]));
            Ledger::lemma_wf_after_account_update(&before, self, caller);
        }
        Ok(payments)
    }

    /// Pays out the rewards of `caller` at `block_epoch`: every registered
    /// reward is folded in, then the claimable balance of every reward token
    /// is emptied and handed out, one payment for each token that had a
    /// balance.
    ///
    /// Where there is nothing to pay out, or a balance leaves the range of
    /// `u128`, the call fails and the ledger stays as it was.
    pub fn claim_rewards(&mut self, caller: Address, block_epoch: u64) -> (result: Result<
        Vec<TokenPayment>,
        StakingError,
    >)
        requires
            old(self).wf(),
        ensures
            final(self).wf(),
            match result {
                Ok(payments) => {
                    &&& payments.len() > 0
                    &&& old(self).secured_rewards(caller, block_epoch).is_some()
                    &&& payments@ == pending_payments(
                        old(self).reward_tokens@,
                        old(self).secured_rewards(caller, block_epoch).unwrap().0,
                    )
                    &&& final(self).pending_map(caller) == cleared(
                        old(self).reward_tokens@,
                        old(self).secured_rewards(caller, block_epoch).unwrap().0,
                    )
                    &&& final(self).user_checkpoints(caller) == old(self).secured_rewards(
                        caller,
                        block_epoch,
                    ).unwrap().1
                    &&& final(self).only_rewards_changed(old(self), caller)
                },
                Err(error) => {
                    &&& *final(self) == *old(self)
                    &&& match old(self).secured_rewards(caller, block_epoch) {
                        None => error == StakingError::ArithmeticOverflow,
                        Some(secured) => error == StakingError::NothingToClaim && pending_payments(
                            old(self).reward_tokens@,
                            secured.0,
                        ).len() == 0,
                    }
                },
            },
    {
        let pending_rewards = match self.get_pending_reward(caller, block_epoch) {
            Ok(payments) => payments,
            Err(error) => {
                return Err(error);
            },
        };
        if pending_rewards.len() == 0 {
            return Err(StakingError::NothingToClaim);
        }
        claim_all_pending_rewards(self, caller, block_epoch)
    }

    /// What `address` could claim at `block_epoch`: one payment for each
    /// reward token that would have a balance once every registered reward
    /// is folded in. The ledger is only read.
    pub fn get_pending_reward(&self, address: Address, block_epoch: u64) -> (result: Result<
        Vec<TokenPayment>,
        StakingError,
    >)
        ensures
            match result {
                Ok(payments) => {
                    &&& self.secured_rewards(address, block_epoch).is_some()
                    &&& payments@ == pending_payments(
                        self.reward_tokens@,
                        self.secured_rewards(address, block_epoch).unwrap().0,
                    )
                },
                Err(error) => {
                    &&& error == StakingError::ArithmeticOverflow
                    &&& self.secured_rewards(address, block_epoch).is_none()
                },
            },
    {
        match secure_all_rewards(self, address, block_epoch) {
            Some((pending, _)) => Ok(collect_pending_payments(&self.reward_tokens, &pending)),
            None => Err(StakingError::ArithmeticOverflow),
        }
    }

    /// A context that still holds the scores of the ledger it was built on
    /// finds room for the staged holdings exactly where the ledger does.
    pub proof fn lemma_context_scores(&self, context: &StakingContext, caller: Address, token: TokenId)
        requires
            context.caller == caller,
            context.token_identifier == token,
            context.user_deb == self.user_deb(caller),
            context.staking_module_type == scoring_pool(self, token),
            context.scores == self.user_scores(caller),
            context.aggregated_scores == self.aggregated_scores,
        ensures
            context.scores_fit(self) == self.scores_fit_with(
                caller,
                token,
                context.staking_module_impl.staged_items(),
            ),
    {
        let items = context.staking_module_impl.staged_items();
        assert forall|m: StakingModuleType|
            context.score_fits(self, m) == self.score_fits_with(caller, token, items, m) by {}
        if context.scores_fit(self) {
            assert forall|m: StakingModuleType|
                score_affected(scoring_pool(self, token), m) implies #[trigger] self.score_fits_with(
                caller,
                token,
                items,
                m,
            ) by {
                assert(context.score_fits(self, m));
            }
        }
        if self.scores_fit_with(caller, token, items) {
            assert forall|m: StakingModuleType|
                score_affected(context.staking_module_type, m) implies #[trigger] context.score_fits(
                self,
                m,
            ) by {
                assert(self.score_fits_with(caller, token, items, m));
            }
        }
    }
}

} // verus!
