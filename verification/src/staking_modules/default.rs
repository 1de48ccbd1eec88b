//! The default scoring strategy: every unit held weighs what the score table
//! says of its nonce.

use crate::constants::SNAKES_SCORED_NONCE;
use crate::ledger::Ledger;
use crate::math::{checked_product, checked_sum, fits};
use crate::staking_modules::inventory::{
    add_item, items_after_add, items_after_unbonding, remove_items, unbonding_allowed,
};
use crate::staking_modules::staking_module_type::StakingModuleType;
use crate::types::nonce_qty_pair::{nonces_unique, quantity_of, NonceQtyPair};
use crate::types::start_unbonding_payload::StartUnbondingPayload;
use crate::types::{Address, TokenId};
use vstd::prelude::*;

verus! {

/// How the units of a collection are weighed.
#[derive(Clone, Copy, PartialEq, Eq, Debug, Structural)]
pub enum ScoreRule {
    /// Every nonce weighs its unit score in the pool.
    PerUnit,
    /// Only the snake itself weighs its unit score in the pool; every other
    /// nonce weighs nothing.
    SnakesOnly,
    /// Every nonce weighs the score that it was given in the company-share
    /// pool, and nothing where it was given none.
    CompanyShares,
}

/// What one unit of `nonce` weighs under the rule.
pub open spec fn item_weight(
    ledger: &Ledger,
    token: TokenId,
    module: StakingModuleType,
    rule: ScoreRule,
    nonce: u64,
) -> nat {
    match rule {
        ScoreRule::PerUnit => ledger.unit_score(token, module, nonce),
        ScoreRule::SnakesOnly => if nonce == SNAKES_SCORED_NONCE {
            ledger.unit_score(token, module, nonce)
        } else {
            0
        },
        ScoreRule::CompanyShares => match ledger.nonce_asset_score(
            token,
            nonce,
            StakingModuleType::SharesSfts,
        ) {
            Some(score) => score as nat,
            None => 0,
        },
    }
}

/// The sum, over `items`, of the weight of each nonce times the quantity held.
pub open spec fn weighted_score(
    ledger: &Ledger,
    token: TokenId,
    module: StakingModuleType,
    rule: ScoreRule,
    items: Seq<NonceQtyPair>,
) -> nat
    decreases items.len(),
{
    if items.len() == 0 {
        0
    } else {
        weighted_score(ledger, token, module, rule, items.drop_last()) + item_weight(
            ledger,
            token,
            module,
            rule,
            items.last().nonce,
        ) * items.last().quantity as nat
    }
}

/// The score of the first items never exceeds the score of all.
pub proof fn lemma_weighted_score_prefix(
    ledger: &Ledger,
    token: TokenId,
    module: StakingModuleType,
    rule: ScoreRule,
    items: Seq<NonceQtyPair>,
    n: int,
)
    requires
        0 <= n <= items.len(),
    ensures
        weighted_score(ledger, token, module, rule, items.take(n)) <= weighted_score(
            ledger,
            token,
            module,
            rule,
            items,
        ),
    decreases items.len(),
{
    if n == items.len() {
        assert(items.take(n) =~= items);
    } else {
        lemma_weighted_score_prefix(ledger, token, module, rule, items.drop_last(), n);
        assert(items.drop_last().take(n) =~= items.take(n));
        assert(0 <= item_weight(ledger, token, module, rule, items.last().nonce)
            * items.last().quantity as nat) by (nonlinear_arith);
    }
}

/// What one unit of `nonce` weighs under the rule.
pub fn get_item_weight(
    ledger: &Ledger,
    token: TokenId,
    module: StakingModuleType,
    rule: ScoreRule,
    nonce: u64,
) -> (weight: u64)
    ensures
        weight == item_weight(ledger, token, module, rule, nonce),
{
    match rule {
        ScoreRule::PerUnit => ledger.get_unit_score(token, module, nonce),
        ScoreRule::SnakesOnly => if nonce == SNAKES_SCORED_NONCE {
            ledger.get_unit_score(token, module, nonce)
        } else {
            0
        },
        ScoreRule::CompanyShares => match ledger.get_nonce_asset_score(
            token,
            nonce,
            StakingModuleType::SharesSfts,
        ) {
            Some(score) => score,
            None => 0,
        },
    }
}

/// The weighted score of `items`, where it fits.
pub fn compute_weighted_score(
    ledger: &Ledger,
    token: TokenId,
    module: StakingModuleType,
    rule: ScoreRule,
    items: &Vec<NonceQtyPair>,
) -> (score: Option<u128>)
    ensures
        score == fits(weighted_score(ledger, token, module, rule, items@)),
{
    let mut score: u128 = 0;
    let mut i: usize = 0;
    while i < items.len()
        invariant
            i <= items.len(),
            score == weighted_score(ledger, token, module, rule, items@.take(i as int)),
        decreases items.len() - i,
    {
        let item = items[i];
        let weight = get_item_weight(ledger, token, module, rule, item.nonce);
        proof {
            assert(items@.take(i + 1).drop_last() =~= items@.take(i as int));
            lemma_weighted_score_prefix(ledger, token, module, rule, items@, i + 1);
            assert(0 <= weighted_score(ledger, token, module, rule, items@.take(i as int)));
        }
        let term = match checked_product(weight as u128, item.quantity) {
            Some(term) => term,
            None => {
                return None;
            },
        };
        score = match checked_sum(score, term) {
            Some(sum) => sum,
            None => {
                return None;
            },
        };
        i += 1;
    }
    proof {
        assert(items@.take(items.len() as int) =~= items@);
    }
    Some(score)
}

/// The default strategy at work on one staker's holdings of one collection.
/// It works on a copy: nothing reaches the ledger before the caller commits.
#[derive(Debug)]
pub struct DefaultStakingModule {
    pub impl_token_id: TokenId,
    pub user_address: Address,
    pub module_type: StakingModuleType,
    pub staked_assets: Vec<NonceQtyPair>,
}

impl DefaultStakingModule {
    /// The strategy is usable: no nonce is held twice.
    pub open spec fn wf(&self) -> bool {
        nonces_unique(self.staked_assets@)
    }

    /// The strategy at work on what `user_address` holds of `impl_token_id`.
    pub fn new(
        ledger: &Ledger,
        impl_token_id: TokenId,
        user_address: Address,
        module_type: StakingModuleType,
    ) -> (module: Self)
        requires
            ledger.wf(),
        ensures
            module.impl_token_id == impl_token_id,
            module.user_address == user_address,
            module.module_type == module_type,
            module.staked_assets@ == ledger.staked_nfts(user_address, impl_token_id),
            module.wf(),
    {
        let staked_assets = Self::get_staked_assets(ledger, impl_token_id, user_address);
        Self { impl_token_id, user_address, module_type, staked_assets }
    }

    /// What the ledger holds for the staker of the collection, whatever was
    /// staged here since.
    pub fn get_staked_nfts_data(&self, ledger: &Ledger) -> (items: Vec<NonceQtyPair>)
        requires
            ledger.wf(),
        ensures
            items@ == ledger.staked_nfts(self.user_address, self.impl_token_id),
    {
        Self::get_staked_assets(ledger, self.impl_token_id, self.user_address)
    }

    fn get_staked_assets(ledger: &Ledger, impl_token_id: TokenId, user_address: Address) -> (items:
        Vec<NonceQtyPair>)
        requires
            ledger.wf(),
        ensures
            items@ == ledger.staked_nfts(user_address, impl_token_id),
            nonces_unique(items@),
    {
        proof {
            ledger.lemma_staked_nfts_unique(user_address, impl_token_id);
        }
        ledger.get_staked_nfts(user_address, impl_token_id)
    }

    /// The raw score of the staged holdings in the pool: for every nonce
    /// held, its unit score times the quantity.
    pub fn get_base_user_score(&self, ledger: &Ledger, staking_module_type: StakingModuleType) -> (score:
        Option<u128>)
        ensures
            score == fits(
                weighted_score(
                    ledger,
                    self.impl_token_id,
                    staking_module_type,
                    ScoreRule::PerUnit,
                    self.staked_assets@,
                ),
            ),
    {
        compute_weighted_score(
            ledger,
            self.impl_token_id,
            staking_module_type,
            ScoreRule::PerUnit,
            &self.staked_assets,
        )
    }

    /// Stages `quantity` more units of `nonce`. Where the quantity held
    /// would leave the range of `u128`, nothing changes and the answer is
    /// `false`.
    pub fn add_to_storage(&mut self, nonce: u64, quantity: u128) -> (added: bool)
        requires
            old(self).wf(),
        ensures
            added == (quantity_of(old(self).staked_assets@, nonce) + quantity <= u128::MAX),
            added ==> final(self).staked_assets@ == items_after_add(
                old(self).staked_assets@,
                nonce,
                quantity,
            ),
            !added ==> final(self).staked_assets@ == old(self).staked_assets@,
            final(self).impl_token_id == old(self).impl_token_id,
            final(self).user_address == old(self).user_address,
            final(self).module_type == old(self).module_type,
            final(self).wf(),
    {
        add_item(&mut self.staked_assets, nonce, quantity)
    }

    /// Stages the withdrawal of every item of the request, all of them or
    /// none: where one cannot be served, nothing changes and the answer is
    /// `false`.
    pub fn start_unbonding(&mut self, payload: &StartUnbondingPayload) -> (served: bool)
        requires
            old(self).wf(),
        ensures
            served == unbonding_allowed(old(self).staked_assets@, payload.items@),
            served ==> final(self).staked_assets@ == items_after_unbonding(
                old(self).staked_assets@,
                payload.items@,
            ),
            !served ==> final(self).staked_assets@ == old(self).staked_assets@,
            final(self).impl_token_id == old(self).impl_token_id,
            final(self).user_address == old(self).user_address,
            final(self).module_type == old(self).module_type,
            final(self).wf(),
    {
        remove_items(&mut self.staked_assets, &payload.items)
    }
}

} // verus!
