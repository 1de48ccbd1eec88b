//! What the ledger keeps of each staker, and of each epoch's reward.

use crate::boost::{apply_deb, spec_apply_deb};
use crate::staking_modules::inventory::has_duplicate_nonces;
use crate::ledger::Ledger;
use crate::staking_modules::staking_module_type::{PerModule, StakingModuleType};
use crate::storage::score::{pair_key, pack_key};
use crate::types::nonce_qty_pair::{copy_items, nonces_unique, NonceQtyPair};
use crate::types::start_unbonding_payload::StartUnbondingPayload;
use crate::types::{Address, TokenId};
use std::collections::HashMap;
use vstd::prelude::*;

verus! {

/// What a staker holds of one collection.
#[derive(Debug)]
pub struct Position {
    pub collection: TokenId,
    pub items: Vec<NonceQtyPair>,
}

/// A withdrawal request, with the time at which it was made.
#[derive(Debug)]
pub struct UnbondingBatch {
    pub timestamp: u64,
    pub payload: StartUnbondingPayload,
}

/// Everything the ledger keeps of one staker.
#[derive(Debug)]
pub struct UserAccount {
    /// The boost numerator; zero where none was ever set.
    pub deb: u128,
    /// One entry for each collection ever staked.
    pub positions: Vec<Position>,
    /// The raw score in each pool.
    pub raw_scores: PerModule<u128>,
    /// The boosted score in each pool, the one that the aggregate sums.
    pub scores: PerModule<u128>,
    /// The epoch up to which the rewards of each pool are folded in.
    pub last_claimed_epoch: PerModule<u64>,
    /// The claimable balance of each reward token.
    pub pending_rewards: HashMap<TokenId, u128>,
    /// The withdrawal requests not yet claimed, oldest first.
    pub unbonding: Vec<UnbondingBatch>,
}

/// No collection occurs twice in `positions`.
pub open spec fn collections_unique(positions: Seq<Position>) -> bool {
    forall|i: int, j: int|
        0 <= i < j < positions.len() ==> (#[trigger] positions[i]).collection
            != (#[trigger] positions[j]).collection
}

/// Some position is of the collection.
pub open spec fn holds_collection(positions: Seq<Position>, collection: TokenId) -> bool {
    exists|i: int| 0 <= i < positions.len() && (#[trigger] positions[i]).collection == collection
}

/// An index at which `positions` has the collection, where one exists.
pub open spec fn index_of_collection(positions: Seq<Position>, collection: TokenId) -> int {
    choose|i: int| 0 <= i < positions.len() && (#[trigger] positions[i]).collection == collection
}

/// The items held of the collection: none where there is no position.
pub open spec fn items_of(positions: Seq<Position>, collection: TokenId) -> Seq<NonceQtyPair> {
    if holds_collection(positions, collection) {
        positions[index_of_collection(positions, collection)].items@
    } else {
        Seq::empty()
    }
}

/// In a list without repeated collections, the place of a collection is the
/// only one.
pub proof fn lemma_index_of_collection(positions: Seq<Position>, i: int)
    requires
        collections_unique(positions),
        0 <= i < positions.len(),
    ensures
        holds_collection(positions, positions[i].collection),
        index_of_collection(positions, positions[i].collection) == i,
        items_of(positions, positions[i].collection) == positions[i].items@,
{
    let collection = positions[i].collection;
    let j = index_of_collection(positions, collection);
    assert(0 <= j < positions.len() && positions[j].collection == collection);
    if j < i {
        assert(positions[j].collection != positions[i].collection);
    } else if i < j {
        assert(positions[i].collection != positions[j].collection);
    }
}

/// Where the position of the collection stands.
pub fn find_collection(positions: &Vec<Position>, collection: TokenId) -> (found: Option<usize>)
    ensures
        match found {
            Some(i) => i < positions.len() && positions[i as int].collection == collection,
            None => !holds_collection(positions@, collection),
        },
{
    let mut i: usize = 0;
    while i < positions.len()
        invariant
            i <= positions.len(),
            forall|j: int| 0 <= j < i ==> (#[trigger] positions[j]).collection != collection,
        decreases positions.len() - i,
    {
        if positions[i].collection == collection {
            return Some(i);
        }
        i += 1;
    }
    None
}

/// Whether some collection occurs twice in `positions`.
pub fn has_duplicate_collections(positions: &Vec<Position>) -> (duplicate: bool)
    ensures
        duplicate == !collections_unique(positions@),
{
    let mut j: usize = 0;
    while j < positions.len()
        invariant
            j <= positions.len(),
            collections_unique(positions@.take(j as int)),
        decreases positions.len() - j,
    {
        let mut i: usize = 0;
        while i < j
            invariant
                i <= j < positions.len(),
                forall|k: int|
                    0 <= k < i ==> (#[trigger] positions[k]).collection
                        != positions[j as int].collection,
            decreases j - i,
        {
            if positions[i].collection == positions[j].collection {
                return true;
            }
            i += 1;
        }
        proof {
            let longer = positions@.take(j + 1);
            let shorter = positions@.take(j as int);
            assert forall|a: int, b: int| 0 <= a < b < longer.len() implies (
            #[trigger] longer[a]).collection != (#[trigger] longer[b]).collection by {
                if b < j {
                    assert(shorter[a].collection != shorter[b].collection);
                }
            }
        }
        j += 1;
    }
    proof {
        assert(positions@.take(positions.len() as int) =~= positions@);
    }
    false
}

impl UserAccount {
    /// Whether the account is consistent: no collection and no nonce is
    /// listed twice, the boosted score of the primary pool is the raw one
    /// under the boost, and the boosted score of every other pool is the
    /// raw one.
    pub fn is_consistent(&self) -> (consistent: bool)
        ensures
            consistent == self.wf(),
    {
        if has_duplicate_collections(&self.positions) {
            return false;
        }
        let mut i: usize = 0;
        while i < self.positions.len()
            invariant
                i <= self.positions.len(),
                forall|k: int| 0 <= k < i ==> nonces_unique((#[trigger] self.positions[k]).items@),
            decreases self.positions.len() - i,
        {
            if has_duplicate_nonces(&self.positions[i].items) {
                return false;
            }
            i += 1;
        }
        let boosted = apply_deb(self.raw_scores.all, self.deb);
        let primary_follows = match boosted {
            Some(score) => score == self.scores.all,
            None => false,
        };
        let others_follow = self.scores.invalid == self.raw_scores.invalid
            && self.scores.coding_division_sfts == self.raw_scores.coding_division_sfts
            && self.scores.x_bunnies == self.raw_scores.x_bunnies && self.scores.bloodshed
            == self.raw_scores.bloodshed && self.scores.nosferatu == self.raw_scores.nosferatu
            && self.scores.vesta_x_dao == self.raw_scores.vesta_x_dao && self.scores.snakes_sfts
            == self.raw_scores.snakes_sfts && self.scores.shares_sfts
            == self.raw_scores.shares_sfts;
        proof {
            if others_follow {
                assert forall|m: StakingModuleType| m != StakingModuleType::All implies self.scores.spec_get(
                    m,
                ) == self.raw_scores.spec_get(m) by {}
            } else {
                assert(exists|m: StakingModuleType|
                    m != StakingModuleType::All && self.scores.spec_get(m)
                        != self.raw_scores.spec_get(m)) by {
                    if self.scores.invalid != self.raw_scores.invalid {
                        assert(self.scores.spec_get(StakingModuleType::Invalid)
                            != self.raw_scores.spec_get(StakingModuleType::Invalid));
                    } else if self.scores.coding_division_sfts
                        != self.raw_scores.coding_division_sfts {
                        assert(self.scores.spec_get(StakingModuleType::CodingDivisionSfts)
                            != self.raw_scores.spec_get(StakingModuleType::CodingDivisionSfts));
                    } else if self.scores.x_bunnies != self.raw_scores.x_bunnies {
                        assert(self.scores.spec_get(StakingModuleType::XBunnies)
                            != self.raw_scores.spec_get(StakingModuleType::XBunnies));
                    } else if self.scores.bloodshed != self.raw_scores.bloodshed {
                        assert(self.scores.spec_get(StakingModuleType::Bloodshed)
                            != self.raw_scores.spec_get(StakingModuleType::Bloodshed));
                    } else if self.scores.nosferatu != self.raw_scores.nosferatu {
                        assert(self.scores.spec_get(StakingModuleType::Nosferatu)
                            != self.raw_scores.spec_get(StakingModuleType::Nosferatu));
                    } else if self.scores.vesta_x_dao != self.raw_scores.vesta_x_dao {
                        assert(self.scores.spec_get(StakingModuleType::VestaXDAO)
                            != self.raw_scores.spec_get(StakingModuleType::VestaXDAO));
                    } else if self.scores.snakes_sfts != self.raw_scores.snakes_sfts {
                        assert(self.scores.spec_get(StakingModuleType::SnakesSfts)
                            != self.raw_scores.spec_get(StakingModuleType::SnakesSfts));
                    } else {
                        assert(self.scores.spec_get(StakingModuleType::SharesSfts)
                            != self.raw_scores.spec_get(StakingModuleType::SharesSfts));
                    }
                }
            }
        }
        primary_follows && others_follow
    }

    /// The account of someone who never staked.
    pub fn empty() -> (account: UserAccount)
        ensures
            account.deb == 0,
            account.positions@ == Seq::<Position>::empty(),
            account.unbonding@ == Seq::<UnbondingBatch>::empty(),
            account.pending_rewards@ == Map::<TokenId, u128>::empty(),
            account.raw_scores == PerModule::spec_filled(0u128),
            account.scores == PerModule::spec_filled(0u128),
            account.last_claimed_epoch == PerModule::spec_filled(0u64),
            forall|m: StakingModuleType|
                account.raw_scores.spec_get(m) == 0 && account.scores.spec_get(m) == 0
                    && account.last_claimed_epoch.spec_get(m) == 0,
            account.wf(),
    {
        let account = UserAccount {
            deb: 0,
            positions: Vec::new(),
            raw_scores: PerModule::filled(0u128),
            scores: PerModule::filled(0u128),
            last_claimed_epoch: PerModule::filled(0u64),
            pending_rewards: HashMap::new(),
            unbonding: Vec::new(),
        };
        proof {
            assert(account.scores.spec_get(StakingModuleType::All) == 0);
            assert(account.raw_scores.spec_get(StakingModuleType::All) == 0);
        }
        account
    }

    /// The claimable balance of the token: zero where none was ever folded in.
    pub open spec fn pending(&self, token: TokenId) -> u128 {
        if self.pending_rewards@.contains_key(token) {
            self.pending_rewards@[token]
        } else {
            0
        }
    }

    /// The account is consistent: no collection and no nonce is listed twice,
    /// the boosted score of the primary pool is the raw one under the boost,
    /// and the boosted score of every other pool is the raw one.
    pub open spec fn wf(&self) -> bool {
        &&& collections_unique(self.positions@)
        &&& forall|i: int|
            0 <= i < self.positions.len() ==> nonces_unique((#[trigger] self.positions[i]).items@)
        &&& self.scores.spec_get(StakingModuleType::All) as nat == spec_apply_deb(
            self.raw_scores.spec_get(StakingModuleType::All) as nat,
            self.deb as nat,
        )
        &&& forall|m: StakingModuleType|
            m != StakingModuleType::All ==> self.scores.spec_get(m) == self.raw_scores.spec_get(m)
    }
}

impl Ledger {
    /// Whether the ledger has an account for the address.
    pub open spec fn knows(&self, user: Address) -> bool {
        self.users@.contains_key(user)
    }

    /// The boost numerator of the staker; zero where none was set.
    pub open spec fn user_deb(&self, user: Address) -> u128 {
        if self.knows(user) {
            self.users@[user].deb
        } else {
            0
        }
    }

    /// The raw score of the staker in the pool.
    pub open spec fn raw_user_score(&self, module: StakingModuleType, user: Address) -> u128 {
        if self.knows(user) {
            self.users@[user].raw_scores.spec_get(module)
        } else {
            0
        }
    }

    /// The boosted score of the staker in the pool.
    pub open spec fn user_score(&self, module: StakingModuleType, user: Address) -> u128 {
        if self.knows(user) {
            self.users@[user].scores.spec_get(module)
        } else {
            0
        }
    }

    /// The epoch up to which the staker's rewards of the pool are folded in.
    pub open spec fn last_claimed_epoch(&self, module: StakingModuleType, user: Address) -> u64 {
        if self.knows(user) {
            self.users@[user].last_claimed_epoch.spec_get(module)
        } else {
            0
        }
    }

    /// The claimable balance that the staker has of the token.
    pub open spec fn pending_rewards(&self, user: Address, token: TokenId) -> u128 {
        if self.knows(user) {
            self.users@[user].pending(token)
        } else {
            0
        }
    }

    /// The positions of the staker: none where the ledger has no account
    /// for the address.
    pub open spec fn positions(&self, user: Address) -> Seq<Position> {
        if self.knows(user) {
            self.users@[user].positions@
        } else {
            Seq::empty()
        }
    }

    /// The raw score of the staker in every pool.
    pub open spec fn raw_user_scores(&self, user: Address) -> PerModule<u128> {
        if self.knows(user) {
            self.users@[user].raw_scores
        } else {
            PerModule::spec_filled(0u128)
        }
    }

    /// Whether the staker ever staked the collection.
    pub open spec fn has_position(&self, user: Address, collection: TokenId) -> bool {
        self.knows(user) && holds_collection(self.users@[user].positions@, collection)
    }

    /// What the staker holds of the collection.
    pub open spec fn staked_nfts(&self, user: Address, collection: TokenId) -> Seq<NonceQtyPair> {
        if self.knows(user) {
            items_of(self.users@[user].positions@, collection)
        } else {
            Seq::empty()
        }
    }

    /// The staker's withdrawal requests not yet claimed, oldest first.
    pub open spec fn unbonding_assets(&self, user: Address) -> Seq<UnbondingBatch> {
        if self.knows(user) {
            self.users@[user].unbonding@
        } else {
            Seq::empty()
        }
    }

    /// The reward per unit of score that the epoch has for the pool and the
    /// token, where one was set.
    pub open spec fn reward_rate(
        &self,
        epoch: u64,
        module: StakingModuleType,
        token: TokenId,
    ) -> Option<u128> {
        if self.reward_rates@.contains_key(pair_key(token, epoch)) {
            self.reward_rates@[pair_key(token, epoch)].spec_get(module)
        } else {
            None
        }
    }

    /// The time at which the token was distributed in the epoch, where it was.
    pub open spec fn reward_distribution_timestamp(&self, epoch: u64, token: TokenId) -> Option<
        u64,
    > {
        if self.distribution_timestamps@.contains_key(pair_key(token, epoch)) {
            Some(self.distribution_timestamps@[pair_key(token, epoch)])
        } else {
            None
        }
    }

    /// In a consistent ledger no staker holds a nonce twice.
    pub proof fn lemma_staked_nfts_unique(&self, user: Address, collection: TokenId)
        requires
            self.wf(),
        ensures
            nonces_unique(self.staked_nfts(user, collection)),
    {
        if self.has_position(user, collection) {
            let positions = self.users@[user].positions@;
            let i = index_of_collection(positions, collection);
            assert(self.users@[user].wf());
            assert(nonces_unique(positions[i].items@));
        }
    }

    /// Takes a stored account back into the ledger under a new address, and
    /// the account's scores into the aggregates.
    ///
    /// The answer is `false`, and nothing changes, where the address has an
    /// account already, the account is not consistent, or an aggregate would
    /// leave the range of `u128`.
    pub fn restore_account(&mut self, user: Address, account: UserAccount) -> (restored: bool)
        requires
            old(self).wf(),
        ensures
            final(self).wf(),
            restored == (!old(self).knows(user) && account.wf() && forall|m: StakingModuleType|
                old(self).aggregated_scores.spec_get(m) + #[trigger] account.scores.spec_get(m)
                    <= u128::MAX),
            restored ==> final(self).users@ == old(self).users@.insert(user, account)
                && final(self).same_config(old(self)) && final(self).same_rates(old(self))
                && forall|m: StakingModuleType| #[trigger]
                final(self).aggregated_scores.spec_get(m) == old(self).aggregated_scores.spec_get(m)
                    + account.scores.spec_get(m),
            !restored ==> *final(self) == *old(self),
    {
        if self.users.contains_key(&user) {
            return false;
        }
        if !account.is_consistent() {
            return false;
        }
        let aggregated = match self.aggregated_scores.checked_add(&account.scores) {
            Some(aggregated) => aggregated,
            None => {
                return false;
            },
        };
        let ghost before = *self;
        self.users.insert(user, account);
        self.aggregated_scores = aggregated;
        proof {
            let after = *self;
            assert(after.users@ =~= before.users@.insert(user, after.users@[user]));
            assert forall|m: StakingModuleType| #[trigger]
                after.aggregated_scores.spec_get(m) + before.user_score(m, user)
                    == before.aggregated_scores.spec_get(m) + after.user_score(m, user) by {
                assert(after.aggregated_scores.spec_get(m) == before.aggregated_scores.spec_get(m)
                    + account.scores.spec_get(m));
            }
            Ledger::lemma_wf_after_account_update(&before, &after, user);
        }
        true
    }

    /// The boost numerator of the staker; zero where none was set.
    pub fn get_user_deb(&self, user: Address) -> (deb: u128)
        ensures
            deb == self.user_deb(user),
    {
        match self.users.get(&user) {
            Some(account) => account.deb,
            None => 0,
        }
    }

    /// The raw score of the staker in the pool.
    pub fn get_raw_aggregated_user_staking_score(
        &self,
        module: StakingModuleType,
        user: Address,
    ) -> (score: u128)
        ensures
            score == self.raw_user_score(module, user),
    {
        match self.users.get(&user) {
            Some(account) => account.raw_scores.get(module),
            None => 0,
        }
    }

    /// The boosted score of the staker in the pool.
    pub fn get_aggregated_user_staking_score(
        &self,
        module: StakingModuleType,
        user: Address,
    ) -> (score: u128)
        ensures
            score == self.user_score(module, user),
    {
        match self.users.get(&user) {
            Some(account) => account.scores.get(module),
            None => 0,
        }
    }

    /// The sum of every staker's boosted score in the pool.
    pub fn get_aggregated_staking_score(&self, module: StakingModuleType) -> (score: u128)
        ensures
            score == self.aggregated_scores.spec_get(module),
    {
        self.aggregated_scores.get(module)
    }

    /// The epoch up to which the staker's rewards of the pool are folded in.
    pub fn get_last_claimed_epoch(&self, module: StakingModuleType, user: Address) -> (epoch: u64)
        ensures
            epoch == self.last_claimed_epoch(module, user),
    {
        match self.users.get(&user) {
            Some(account) => account.last_claimed_epoch.get(module),
            None => 0,
        }
    }

    /// The claimable balance that the staker has of the token.
    pub fn get_pending_rewards(&self, user: Address, token: TokenId) -> (amount: u128)
        ensures
            amount == self.pending_rewards(user, token),
    {
        match self.users.get(&user) {
            Some(account) => match account.pending_rewards.get(&token) {
                Some(amount) => *amount,
                None => 0,
            },
            None => 0,
        }
    }

    /// What the staker holds of the collection, in the order in which the
    /// nonces were first staked.
    pub fn get_staked_nfts(&self, user: Address, collection: TokenId) -> (items: Vec<NonceQtyPair>)
        requires
            self.wf(),
        ensures
            items@ == self.staked_nfts(user, collection),
    {
        match self.users.get(&user) {
            Some(account) => match find_collection(&account.positions, collection) {
                Some(i) => {
                    proof {
                        lemma_index_of_collection(account.positions@, i as int);
                    }
                    copy_items(&account.positions[i].items)
                },
                None => Vec::new(),
            },
            None => Vec::new(),
        }
    }

    /// The reward per unit of score that the epoch has for the pool and the
    /// token, where one was set.
    pub fn get_reward_rate(&self, epoch: u64, module: StakingModuleType, token: TokenId) -> (rate:
        Option<u128>)
        ensures
            rate == self.reward_rate(epoch, module, token),
    {
        let key = pack_key(token, epoch);
        match self.reward_rates.get(&key) {
            Some(rates) => rates.get(module),
            None => None,
        }
    }

    /// The time at which the token was distributed in the epoch, where it was.
    pub fn get_reward_distribution_timestamp(&self, epoch: u64, token: TokenId) -> (timestamp:
        Option<u64>)
        ensures
            timestamp == self.reward_distribution_timestamp(epoch, token),
    {
        let key = pack_key(token, epoch);
        match self.distribution_timestamps.get(&key) {
            Some(timestamp) => Some(*timestamp),
            None => None,
        }
    }
}

} // verus!
