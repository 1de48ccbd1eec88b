//! The strategy of the coding-division collection: the default score, and a
//! bonus for every full set held.

use crate::constants::VESTA_CODING_DIVISION_FULL_SET_MAX_NONCE;
use crate::ledger::Ledger;
use crate::math::{checked_product, checked_sum, fits};
use crate::staking_modules::default::{
    compute_weighted_score, weighted_score, DefaultStakingModule, ScoreRule,
};
use crate::staking_modules::inventory::{items_after_add, items_after_unbonding, unbonding_allowed};
use crate::staking_modules::staking_module_type::StakingModuleType;
use crate::types::nonce_qty_pair::{
    find_nonce, lemma_index_of_nonce, nonces_unique, quantity_of, NonceQtyPair,
};
use crate::types::start_unbonding_payload::StartUnbondingPayload;
use crate::types::{Address, TokenId};
use vstd::prelude::*;

verus! {

/// The least quantity held of any of the nonces `1..=upto`.
pub open spec fn least_held(items: Seq<NonceQtyPair>, upto: nat) -> nat
    decreases upto,
{
    if upto <= 1 {
        quantity_of(items, 1)
    } else {
        let rest = least_held(items, (upto - 1) as nat);
        let held = quantity_of(items, upto as u64);
        if held < rest {
            held
        } else {
            rest
        }
    }
}

/// The number of full sets in `items`: the least quantity held of any
/// required nonce, so zero where one of them is missing.
pub open spec fn spec_count_full_sets(items: Seq<NonceQtyPair>) -> nat {
    least_held(items, VESTA_CODING_DIVISION_FULL_SET_MAX_NONCE as nat)
}

/// The raw score of a coding-division holding in the pool: the default score
/// plus the pool's full-set bonus for every full set.
pub open spec fn full_set_user_score(
    ledger: &Ledger,
    token: TokenId,
    module: StakingModuleType,
    items: Seq<NonceQtyPair>,
) -> nat {
    weighted_score(ledger, token, module, ScoreRule::PerUnit, items) + spec_count_full_sets(items)
        * ledger.full_set_score(token, module) as nat
}

/// The quantity that `items` holds of the nonce.
pub fn held_quantity(items: &Vec<NonceQtyPair>, nonce: u64) -> (quantity: u128)
    requires
        nonces_unique(items@),
    ensures
        quantity == quantity_of(items@, nonce),
{
    match find_nonce(items, nonce) {
        Some(i) => {
            proof {
                lemma_index_of_nonce(items@, i as int);
            }
            items[i].quantity
        },
        None => 0,
    }
}

/// The number of full sets in `items`.
pub fn count_full_sets_of(items: &Vec<NonceQtyPair>) -> (full_sets: u128)
    requires
        nonces_unique(items@),
    ensures
        full_sets == spec_count_full_sets(items@),
{
    let mut full_sets: u128 = held_quantity(items, 1);
    let mut set_nonce: u64 = 2;
    while set_nonce <= VESTA_CODING_DIVISION_FULL_SET_MAX_NONCE
        invariant
            2 <= set_nonce <= VESTA_CODING_DIVISION_FULL_SET_MAX_NONCE + 1,
            nonces_unique(items@),
            full_sets == least_held(items@, (set_nonce - 1) as nat),
        decreases VESTA_CODING_DIVISION_FULL_SET_MAX_NONCE + 1 - set_nonce,
    {
        let item_quantity = held_quantity(items, set_nonce);
        if item_quantity < full_sets {
            full_sets = item_quantity;
        }
        set_nonce += 1;
    }
    full_sets
}

/// The raw score of a coding-division holding in the pool, where it fits.
pub fn compute_full_set_user_score(
    ledger: &Ledger,
    token: TokenId,
    module: StakingModuleType,
    items: &Vec<NonceQtyPair>,
) -> (score: Option<u128>)
    requires
        nonces_unique(items@),
    ensures
        score == fits(full_set_user_score(ledger, token, module, items@)),
{
    let default_base_score = match compute_weighted_score(
        ledger,
        token,
        module,
        ScoreRule::PerUnit,
        items,
    ) {
        Some(score) => score,
        None => {
            proof {
                assert(0 <= spec_count_full_sets(items@) * ledger.full_set_score(token, module) as nat)
                    by (nonlinear_arith);
            }
            return None;
        },
    };
    let full_sets = count_full_sets_of(items);
    let full_set_score = ledger.get_full_set_score(token, module);
    match checked_product(full_sets, full_set_score as u128) {
        Some(bonus) => checked_sum(default_base_score, bonus),
        None => None,
    }
}

/// The coding-division strategy at work on one staker's holdings.
#[derive(Debug)]
pub struct CodingDivisionSftStakingModule {
    pub default_impl: DefaultStakingModule,
}

impl CodingDivisionSftStakingModule {
    /// The strategy is usable: no nonce is held twice.
    pub open spec fn wf(&self) -> bool {
        self.default_impl.wf()
    }

    /// The strategy at work on what `user_address` holds of `impl_token_id`.
    pub fn new(
        ledger: &Ledger,
        impl_token_id: TokenId,
        user_address: Address,
        module_type: StakingModuleType,
    ) -> (module: Self)
        requires
            ledger.wf(),
        ensures
            module.default_impl.impl_token_id == impl_token_id,
            module.default_impl.user_address == user_address,
            module.default_impl.module_type == module_type,
            module.default_impl.staked_assets@ == ledger.staked_nfts(user_address, impl_token_id),
            module.wf(),
    {
        let default_impl = DefaultStakingModule::new(
            ledger,
            impl_token_id,
            user_address,
            module_type,
        );
        Self { default_impl }
    }

    /// The number of full sets among the staged holdings.
    pub fn count_full_sets(&self) -> (full_sets: u128)
        requires
            self.wf(),
        ensures
            full_sets == spec_count_full_sets(self.default_impl.staked_assets@),
    {
        count_full_sets_of(&self.default_impl.staked_assets)
    }

    /// `default_base_score` with the pool's bonus for every full set staged,
    /// where it fits.
    pub fn apply_full_set_bonus(
        &self,
        ledger: &Ledger,
        default_base_score: u128,
        staking_module_type: StakingModuleType,
    ) -> (score: Option<u128>)
        requires
            self.wf(),
        ensures
            score == fits(
                default_base_score as nat + spec_count_full_sets(self.default_impl.staked_assets@)
                    * ledger.full_set_score(
                    self.default_impl.impl_token_id,
                    staking_module_type,
                ) as nat,
            ),
    {
        let full_sets = self.count_full_sets();
        if full_sets == 0 {
            proof {
                assert(0 * ledger.full_set_score(
                    self.default_impl.impl_token_id,
                    staking_module_type,
                ) as nat == 0);
            }
            return Some(default_base_score);
        }
        let full_set_score = ledger.get_full_set_score(
            self.default_impl.impl_token_id,
            staking_module_type,
        );
        match checked_product(full_sets, full_set_score as u128) {
            Some(bonus) => checked_sum(default_base_score, bonus),
            None => None,
        }
    }

    /// The raw score of the staged holdings in the pool: the default score
    /// plus the bonus for every full set.
    pub fn get_base_user_score(&self, ledger: &Ledger, staking_module_type: StakingModuleType) -> (score:
        Option<u128>)
        requires
            self.wf(),
        ensures
            score == fits(
                full_set_user_score(
                    ledger,
                    self.default_impl.impl_token_id,
                    staking_module_type,
                    self.default_impl.staked_assets@,
                ),
            ),
    {
        match self.default_impl.get_base_user_score(ledger, staking_module_type) {
            Some(default_base_score) => self.apply_full_set_bonus(
                ledger,
                default_base_score,
                staking_module_type,
            ),
            None => {
                proof {
                    assert(0 <= spec_count_full_sets(self.default_impl.staked_assets@)
                        * ledger.full_set_score(
                        self.default_impl.impl_token_id,
                        staking_module_type,
                    ) as nat) by (nonlinear_arith);
                }
                None
            },
        }
    }

    /// Stages `quantity` more units of `nonce`, as the default strategy does.
    pub fn add_to_storage(&mut self, nonce: u64, quantity: u128) -> (added: bool)
        requires
            old(self).wf(),
        ensures
            added == (quantity_of(old(self).default_impl.staked_assets@, nonce) + quantity
                <= u128::MAX),
            added ==> final(self).default_impl.staked_assets@ == items_after_add(
                old(self).default_impl.staked_assets@,
                nonce,
                quantity,
            ),
            !added ==> final(self).default_impl.staked_assets@ == old(
                self,
            ).default_impl.staked_assets@,
            final(self).default_impl.impl_token_id == old(self).default_impl.impl_token_id,
            final(self).default_impl.user_address == old(self).default_impl.user_address,
            final(self).default_impl.module_type == old(self).default_impl.module_type,
            final(self).wf(),
    {
        self.default_impl.add_to_storage(nonce, quantity)
    }

    /// Stages the withdrawal of the request, as the default strategy does.
    pub fn start_unbonding(&mut self, payload: &StartUnbondingPayload) -> (served: bool)
        requires
            old(self).wf(),
        ensures
            served == unbonding_allowed(old(self).default_impl.staked_assets@, payload.items@),
            served ==> final(self).default_impl.staked_assets@ == items_after_unbonding(
                old(self).default_impl.staked_assets@,
                payload.items@,
            ),
            !served ==> final(self).default_impl.staked_assets@ == old(
                self,
            ).default_impl.staked_assets@,
            final(self).default_impl.impl_token_id == old(self).default_impl.impl_token_id,
            final(self).default_impl.user_address == old(self).default_impl.user_address,
            final(self).default_impl.module_type == old(self).default_impl.module_type,
            final(self).wf(),
    {
        self.default_impl.start_unbonding(payload)
    }
}

} // verus!
