//! The strategy of the snakes collection: nothing in the primary pool, the
//! snake itself in its own pool, and company shares on the side.

use crate::ledger::Ledger;
use crate::math::fits;
use crate::staking_modules::default::{
    compute_weighted_score, weighted_score, DefaultStakingModule, ScoreRule,
};
use crate::staking_modules::inventory::{items_after_add, items_after_unbonding, unbonding_allowed};
use crate::staking_modules::staking_module_type::StakingModuleType;
use crate::types::nonce_qty_pair::{quantity_of, NonceQtyPair};
use crate::types::start_unbonding_payload::StartUnbondingPayload;
use crate::types::{Address, TokenId};
use vstd::prelude::*;

verus! {

/// The raw score of a snakes holding in the pool: zero in the primary pool,
/// which snakes take no part in; elsewhere the unit score of the snake
/// itself times the quantity held of it.
pub open spec fn snakes_user_score(
    ledger: &Ledger,
    token: TokenId,
    module: StakingModuleType,
    items: Seq<NonceQtyPair>,
) -> nat {
    if module == StakingModuleType::All {
        0
    } else {
        weighted_score(ledger, token, module, ScoreRule::SnakesOnly, items)
    }
}

/// The company-share score that a snakes holding earns on the side: for
/// every nonce held, its score in the company-share pool times the quantity.
pub open spec fn shares_user_score(ledger: &Ledger, token: TokenId, items: Seq<NonceQtyPair>) -> nat {
    weighted_score(ledger, token, StakingModuleType::SharesSfts, ScoreRule::CompanyShares, items)
}

/// The raw score of a snakes holding in the pool, where it fits.
pub fn compute_snakes_user_score(
    ledger: &Ledger,
    token: TokenId,
    module: StakingModuleType,
    items: &Vec<NonceQtyPair>,
) -> (score: Option<u128>)
    ensures
        score == fits(snakes_user_score(ledger, token, module, items@)),
{
    // Snakes take no share of the primary reward: their own pool pays them.
    if module == StakingModuleType::All {
        return Some(0);
    }
    compute_weighted_score(ledger, token, module, ScoreRule::SnakesOnly, items)
}

/// The company-share score of a snakes holding, where it fits.
pub fn compute_shares_user_score(ledger: &Ledger, token: TokenId, items: &Vec<NonceQtyPair>) -> (score:
    Option<u128>)
    ensures
        score == fits(shares_user_score(ledger, token, items@)),
{
    compute_weighted_score(
        ledger,
        token,
        StakingModuleType::SharesSfts,
        ScoreRule::CompanyShares,
        items,
    )
}

/// The snakes strategy at work on one staker's holdings.
#[derive(Debug)]
pub struct SnakesSftStakingModule {
    pub default_impl: DefaultStakingModule,
}

impl SnakesSftStakingModule {
    /// The strategy is usable: no nonce is held twice.
    pub open spec fn wf(&self) -> bool {
        self.default_impl.wf()
    }

    /// The strategy at work on what `user_address` holds of `impl_token_id`.
    pub fn new(
        ledger: &Ledger,
        impl_token_id: TokenId,
        user_address: Address,
        module_type: StakingModuleType,
    ) -> (module: Self)
        requires
            ledger.wf(),
        ensures
            module.default_impl.impl_token_id == impl_token_id,
            module.default_impl.user_address == user_address,
            module.default_impl.module_type == module_type,
            module.default_impl.staked_assets@ == ledger.staked_nfts(user_address, impl_token_id),
            module.wf(),
    {
        let default_impl = DefaultStakingModule::new(
            ledger,
            impl_token_id,
            user_address,
            module_type,
        );
        Self { default_impl }
    }

    /// The raw score of the staged holdings in the pool.
    pub fn get_base_user_score(&self, ledger: &Ledger, staking_module_type: StakingModuleType) -> (score:
        Option<u128>)
        ensures
            score == fits(
                snakes_user_score(
                    ledger,
                    self.default_impl.impl_token_id,
                    staking_module_type,
                    self.default_impl.staked_assets@,
                ),
            ),
    {
        compute_snakes_user_score(
            ledger,
            self.default_impl.impl_token_id,
            staking_module_type,
            &self.default_impl.staked_assets,
        )
    }

    /// The company-share score that the staged holdings earn on the side.
    pub fn get_shares_score(&self, ledger: &Ledger) -> (score: Option<u128>)
        ensures
            score == fits(
                shares_user_score(
                    ledger,
                    self.default_impl.impl_token_id,
                    self.default_impl.staked_assets@,
                ),
            ),
    {
        compute_shares_user_score(
            ledger,
            self.default_impl.impl_token_id,
            &self.default_impl.staked_assets,
        )
    }

    /// Stages `quantity` more units of `nonce`, as the default strategy does.
    pub fn add_to_storage(&mut self, nonce: u64, quantity: u128) -> (added: bool)
        requires
            old(self).wf(),
        ensures
            added == (quantity_of(old(self).default_impl.staked_assets@, nonce) + quantity
                <= u128::MAX),
            added ==> final(self).default_impl.staked_assets@ == items_after_add(
                old(self).default_impl.staked_assets@,
                nonce,
                quantity,
            ),
            !added ==> final(self).default_impl.staked_assets@ == old(
                self,
            ).default_impl.staked_assets@,
            final(self).default_impl.impl_token_id == old(self).default_impl.impl_token_id,
            final(self).default_impl.user_address == old(self).default_impl.user_address,
            final(self).default_impl.module_type == old(self).default_impl.module_type,
            final(self).wf(),
    {
        self.default_impl.add_to_storage(nonce, quantity)
    }

    /// Stages the withdrawal of the request, as the default strategy does.
    pub fn start_unbonding(&mut self, payload: &StartUnbondingPayload) -> (served: bool)
        requires
            old(self).wf(),
        ensures
            served == unbonding_allowed(old(self).default_impl.staked_assets@, payload.items@),
            served ==> final(self).default_impl.staked_assets@ == items_after_unbonding(
                old(self).default_impl.staked_assets@,
                payload.items@,
            ),
            !served ==> final(self).default_impl.staked_assets@ == old(
                self,
            ).default_impl.staked_assets@,
            final(self).default_impl.impl_token_id == old(self).default_impl.impl_token_id,
            final(self).default_impl.user_address == old(self).default_impl.user_address,
            final(self).default_impl.module_type == old(self).default_impl.module_type,
            final(self).wf(),
    {
        self.default_impl.start_unbonding(payload)
    }
}

} // verus!
