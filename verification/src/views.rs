//! Read-only views of the ledger for a front end.

use crate::boost::{apply_deb, spec_apply_deb};
use crate::errors::StakingError;
use crate::ledger::Ledger;
use crate::math::fits;
use crate::staking_context::StakingContext;
use crate::staking_modules::scoring::{compute_strategy_score, scoring_pool, strategy_score};
use crate::staking_modules::staking_module_type::StakingModuleType;
use crate::storage::user_data::{Position, UnbondingBatch};
use crate::types::ui_types::{
    UIAggregatedPoolScore, UIExtendedAggregatedPoolScore, UIUnbondingAsset, UIUserDataPayload,
    UIUserPoolData,
};
use crate::types::{Address, TokenId};
use crate::utils::pending_payments;
use vstd::prelude::*;

verus! {

/// The collections of which `positions` hold at least one item, in their
/// order.
pub open spec fn held_collections(positions: Seq<Position>) -> Seq<TokenId>
    decreases positions.len(),
{
    if positions.len() == 0 {
        Seq::empty()
    } else {
        let earlier = held_collections(positions.drop_last());
        if positions.last().items.len() > 0 {
            earlier.push(positions.last().collection)
        } else {
            earlier
        }
    }
}

impl Ledger {
    /// What the holdings of `user` in the collection score in the primary
    /// pool, before the boost.
    pub open spec fn raw_pool_score(&self, user: Address, token: TokenId) -> nat {
        strategy_score(
            self,
            scoring_pool(self, token).strategy_pool(),
            token,
            StakingModuleType::All,
            self.staked_nfts(user, token),
        )
    }

    /// What the holdings of `user` in the collection score in the primary
    /// pool, under the boost of `user`.
    pub open spec fn boosted_pool_score(&self, user: Address, token: TokenId) -> nat {
        spec_apply_deb(self.raw_pool_score(user, token), self.user_deb(user) as nat)
    }

    /// `data` shows what `user` holds of the collection and what it scores.
    pub open spec fn shows_pool(&self, user: Address, token: TokenId, data: UIUserPoolData) -> bool {
        &&& data.pool_token_identifier == token
        &&& data.pool_staked_assets@ == self.staked_nfts(user, token)
        &&& data.pool_score_data.pool_type == scoring_pool(self, token).spec_code()
        &&& data.pool_score_data.raw_pool_score == self.raw_pool_score(user, token)
        &&& data.pool_score_data.pool_score == self.boosted_pool_score(user, token)
    }

    /// The aggregated score of every pool, in the order of the pools.
    pub fn get_general_staking_data(&self) -> (staking_data: Vec<UIAggregatedPoolScore>)
        ensures
            staking_data.len() == StakingModuleType::spec_iter().len(),
            forall|i: int|
                0 <= i < staking_data.len() ==> #[trigger] staking_data[i] == (
                UIAggregatedPoolScore {
                    pool_type: StakingModuleType::spec_iter()[i].spec_code(),
                    pool_score: self.aggregated_scores.spec_get(StakingModuleType::spec_iter()[i]),
                }),
    {
        let pools = StakingModuleType::iter();
        let mut staking_data: Vec<UIAggregatedPoolScore> = Vec::new();
        let mut i: usize = 0;
        while i < pools.len()
            invariant
                i <= pools.len(),
                pools@ == StakingModuleType::spec_iter(),
                staking_data.len() == i,
                forall|k: int|
                    0 <= k < i ==> #[trigger] staking_data[k] == (UIAggregatedPoolScore {
                        pool_type: pools[k].spec_code(),
                        pool_score: self.aggregated_scores.spec_get(pools[k]),
                    }),
            decreases pools.len() - i,
        {
            let pool_type = pools[i];
            let general_score = self.get_aggregated_staking_score(pool_type);
            staking_data.push(
                UIAggregatedPoolScore { pool_type: pool_type.code(), pool_score: general_score },
            );
            i += 1;
        }
        staking_data
    }

    /// What `address` holds of the collection and what it scores; none
    /// where nothing is held. It fails where a score leaves the range of
    /// `u128`.
    pub fn get_user_pool_data(&self, address: Address, token_identifier: TokenId) -> (result:
        Result<Option<UIUserPoolData>, StakingError>)
        requires
            self.wf(),
        ensures
            match result {
                Ok(None) => self.staked_nfts(address, token_identifier).len() == 0,
                Ok(Some(data)) => {
                    &&& self.staked_nfts(address, token_identifier).len() > 0
                    &&& self.shows_pool(address, token_identifier, data)
                },
                Err(error) => {
                    &&& error == StakingError::ArithmeticOverflow
                    &&& self.staked_nfts(address, token_identifier).len() > 0
                    &&& self.boosted_pool_score(address, token_identifier) > u128::MAX
                },
            },
    {
        let pool_staked_assets = self.get_staked_nfts(address, token_identifier);
        if pool_staked_assets.len() == 0 {
            return Ok(None);
        }
        proof {
            self.lemma_staked_nfts_unique(address, token_identifier);
            crate::laws::lemma_apply_deb_at_least(
                self.raw_pool_score(address, token_identifier),
                self.user_deb(address) as nat,
            );
        }
        let pool_module_type = match self.get_staking_pool_type_configuration(token_identifier) {
            Some(module) => module,
            None => StakingModuleType::Invalid,
        };
        let raw_pool_score = match compute_strategy_score(
            self,
            pool_module_type.get_strategy_pool(),
            token_identifier,
            StakingModuleType::All,
            &pool_staked_assets,
        ) {
            Some(score) => score,
            None => {
                return Err(StakingError::ArithmeticOverflow);
            },
        };
        let pool_score = match apply_deb(raw_pool_score, self.get_user_deb(address)) {
            Some(score) => score,
            None => {
                return Err(StakingError::ArithmeticOverflow);
            },
        };
        let pool_score_data = UIExtendedAggregatedPoolScore {
            pool_type: pool_module_type.code(),
            pool_score,
            raw_pool_score,
        };
        Ok(
            Some(
                UIUserPoolData {
                    pool_token_identifier: token_identifier,
                    pool_score_data,
                    pool_staked_assets,
                },
            ),
        )
    }

    /// What the holdings of `user` in the collection score in the pool,
    /// under the collection's strategy and before any boost; where it fits.
    pub fn get_base_user_score(
        &self,
        token_identifier: TokenId,
        staking_module_type: StakingModuleType,
        user: Address,
    ) -> (score: Option<u128>)
        requires
            self.wf(),
        ensures
            score == fits(
                strategy_score(
                    self,
                    scoring_pool(self, token_identifier).strategy_pool(),
                    token_identifier,
                    staking_module_type,
                    if scoring_pool(self, token_identifier) == StakingModuleType::Invalid {
                        Seq::empty()
                    } else {
                        self.staked_nfts(user, token_identifier)
                    },
                ),
            ),
    {
        let context = StakingContext::new_with_address(self, token_identifier, user);
        context.get_base_user_score(self, staking_module_type)
    }

    /// The unbonding batches of `address`, oldest first, each with the time
    /// of its request.
    pub fn parse_unbonding_assets(&self, address: Address) -> (unbonding_assets: Vec<
        UIUnbondingAsset,
    >)
        ensures
            unbonding_assets.len() == self.unbonding_assets(address).len(),
            forall|i: int|
                0 <= i < unbonding_assets.len() ==> shows_batch(
                    self.unbonding_assets(address)[i],
                    #[trigger] unbonding_assets[i],
                ),
    {
        let mut unbonding_assets: Vec<UIUnbondingAsset> = Vec::new();
        match self.users.get(&address) {
            Some(account) => {
                let mut i: usize = 0;
                while i < account.unbonding.len()
                    invariant
                        i <= account.unbonding.len(),
                        unbonding_assets.len() == i,
                        forall|k: int|
                            0 <= k < i ==> shows_batch(
                                account.unbonding[k],
                                #[trigger] unbonding_assets[k],
                            ),
                    decreases account.unbonding.len() - i,
                {
                    let batch = &account.unbonding[i];
                    unbonding_assets.push(
                        UIUnbondingAsset {
                            timestamp: batch.timestamp,
                            assets: batch.payload.duplicate(),
                        },
                    );
                    i += 1;
                }
            },
            None => {},
        }
        unbonding_assets
    }

    /// Everything a front end shows of `address` at `block_epoch`: the
    /// boost, what could be claimed, what is held of each collection with
    /// its score, and the unbonding queue. It fails where a balance or a
    /// score leaves the range of `u128`.
    pub fn get_user_staking_data(&self, address: Address, block_epoch: u64) -> (result: Result<
        UIUserDataPayload,
        StakingError,
    >)
        requires
            self.wf(),
        ensures
            match result {
                Ok(payload) => {
                    &&& payload.user_deb == self.user_deb(address)
                    &&& self.secured_rewards(address, block_epoch).is_some()
                    &&& payload.pending_rewards@ == pending_payments(
                        self.reward_tokens@,
                        self.secured_rewards(address, block_epoch).unwrap().0,
                    )
                    &&& payload.user_pool_data.len() == held_collections(
                        self.positions(address),
                    ).len()
                    &&& forall|i: int|
                        0 <= i < payload.user_pool_data.len() ==> self.shows_pool(
                            address,
                            held_collections(self.positions(address))[i],
                            #[trigger] payload.user_pool_data[i],
                        )
                    &&& payload.unbonding_assets.len() == self.unbonding_assets(address).len()
                    &&& forall|i: int|
                        0 <= i < payload.unbonding_assets.len() ==> shows_batch(
                            self.unbonding_assets(address)[i],
                            #[trigger] payload.unbonding_assets[i],
                        )
                },
                Err(error) => {
                    &&& error == StakingError::ArithmeticOverflow
                    &&& self.secured_rewards(address, block_epoch).is_none() || exists|i: int|
                        0 <= i < self.positions(address).len() && (
                        #[trigger] self.positions(address)[i]).items.len() > 0
                            && self.boosted_pool_score(
                            address,
                            self.positions(address)[i].collection,
                        ) > u128::MAX
                },
            },
    {
        let user_deb = self.get_user_deb(address);
        let pending_rewards = match self.get_pending_reward(address, block_epoch) {
            Ok(payments) => payments,
            Err(error) => {
                return Err(error);
            },
        };
        let mut user_pool_data: Vec<UIUserPoolData> = Vec::new();
        match self.users.get(&address) {
            Some(account) => {
                let mut i: usize = 0;
                while i < account.positions.len()
                    invariant
                        i <= account.positions.len(),
                        self.wf(),
                        self.users@.contains_key(address),
                        *account == self.users@[address],
                        user_pool_data.len() == held_collections(
                            account.positions@.take(i as int),
                        ).len(),
                        forall|k: int|
                            0 <= k < user_pool_data.len() ==> self.shows_pool(
                                address,
                                held_collections(account.positions@.take(i as int))[k],
                                #[trigger] user_pool_data[k],
                            ),
                    decreases account.positions.len() - i,
                {
                    let token_id = account.positions[i].collection;
                    proof {
                        assert(account.positions@.take(i + 1).drop_last()
                            =~= account.positions@.take(i as int));
                        assert(account.wf());
                        crate::storage::user_data::lemma_index_of_collection(
                            account.positions@,
                            i as int,
                        );
                    }
                    match self.get_user_pool_data(address, token_id) {
                        Ok(Some(current_pool_data)) => {
                            user_pool_data.push(current_pool_data);
                        },
                        Ok(None) => {},
                        Err(error) => {
                            proof {
                                let held = self.positions(address);
                                assert(held[i as int].items.len() > 0);
                                assert(self.boosted_pool_score(address, held[i as int].collection)
                                    > u128::MAX);
                            }
                            return Err(error);
                        },
                    }
                    i += 1;
                }
                proof {
                    assert(account.positions@.take(account.positions.len() as int)
                        =~= account.positions@);
                }
            },
            None => {},
        }
        let unbonding_assets = self.parse_unbonding_assets(address);
        Ok(UIUserDataPayload { pending_rewards, user_pool_data, unbonding_assets, user_deb })
    }
}

/// `shown` is the batch as a front end sees it.
pub open spec fn shows_batch(batch: UnbondingBatch, shown: UIUnbondingAsset) -> bool {
    &&& shown.timestamp == batch.timestamp
    &&& shown.assets.token_identifier == batch.payload.token_identifier
    &&& shown.assets.items@ == batch.payload.items@
}

} // verus!
