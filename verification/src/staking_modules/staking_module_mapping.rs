//! The scoring strategies as one closed union, and the choice of a strategy
//! by pool.

use crate::ledger::Ledger;
use crate::math::fits;
use crate::staking_modules::coding_division_sft_staking_module::CodingDivisionSftStakingModule;
use crate::staking_modules::default::DefaultStakingModule;
use crate::staking_modules::inventory::{items_after_add, items_after_unbonding, unbonding_allowed};
use crate::staking_modules::invalid::InvalidStakingModule;
use crate::staking_modules::scoring::strategy_score;
use crate::staking_modules::snakes_sft_staking_module::SnakesSftStakingModule;
use crate::staking_modules::staking_module_type::StakingModuleType;
use crate::types::nonce_qty_pair::{nonces_unique, quantity_of, NonceQtyPair};
use crate::types::start_unbonding_payload::StartUnbondingPayload;
use crate::types::{Address, TokenId};
use vstd::prelude::*;

verus! {

/// A strategy at work, under the name of the pool that chose it.
#[derive(Debug)]
pub enum StakingModuleTypeMapping {
    Invalid(InvalidStakingModule),
    CodingDivisionSfts(CodingDivisionSftStakingModule),
    XBunnies(DefaultStakingModule),
    Bloodshed(DefaultStakingModule),
    Nosferatu(DefaultStakingModule),
    VestaXDAO(DefaultStakingModule),
    SnakesSfts(SnakesSftStakingModule),
    SharesSfts(DefaultStakingModule),
    All(DefaultStakingModule),
}

impl StakingModuleTypeMapping {
    /// The pool under whose name the strategy works.
    pub open spec fn pool_type(&self) -> StakingModuleType {
        match self {
            StakingModuleTypeMapping::Invalid(_) => StakingModuleType::Invalid,
            StakingModuleTypeMapping::CodingDivisionSfts(_) => StakingModuleType::CodingDivisionSfts,
            StakingModuleTypeMapping::XBunnies(_) => StakingModuleType::XBunnies,
            StakingModuleTypeMapping::Bloodshed(_) => StakingModuleType::Bloodshed,
            StakingModuleTypeMapping::Nosferatu(_) => StakingModuleType::Nosferatu,
            StakingModuleTypeMapping::VestaXDAO(_) => StakingModuleType::VestaXDAO,
            StakingModuleTypeMapping::SnakesSfts(_) => StakingModuleType::SnakesSfts,
            StakingModuleTypeMapping::SharesSfts(_) => StakingModuleType::SharesSfts,
            StakingModuleTypeMapping::All(_) => StakingModuleType::All,
        }
    }

    /// Whether this is the strategy that takes nothing in.
    pub open spec fn is_invalid(&self) -> bool {
        self is Invalid
    }

    /// The collection that the strategy works on.
    pub open spec fn token(&self) -> TokenId {
        match self {
            StakingModuleTypeMapping::Invalid(_) => 0,
            StakingModuleTypeMapping::CodingDivisionSfts(module) => module.default_impl.impl_token_id,
            StakingModuleTypeMapping::SnakesSfts(module) => module.default_impl.impl_token_id,
            StakingModuleTypeMapping::XBunnies(module)
            | StakingModuleTypeMapping::Bloodshed(module)
            | StakingModuleTypeMapping::Nosferatu(module)
            | StakingModuleTypeMapping::VestaXDAO(module)
            | StakingModuleTypeMapping::SharesSfts(module)
            | StakingModuleTypeMapping::All(module) => module.impl_token_id,
        }
    }

    /// The holdings as staged so far.
    pub open spec fn staged_items(&self) -> Seq<NonceQtyPair> {
        match self {
            StakingModuleTypeMapping::Invalid(_) => Seq::empty(),
            StakingModuleTypeMapping::CodingDivisionSfts(module) => module.default_impl.staked_assets@,
            StakingModuleTypeMapping::SnakesSfts(module) => module.default_impl.staked_assets@,
            StakingModuleTypeMapping::XBunnies(module)
            | StakingModuleTypeMapping::Bloodshed(module)
            | StakingModuleTypeMapping::Nosferatu(module)
            | StakingModuleTypeMapping::VestaXDAO(module)
            | StakingModuleTypeMapping::SharesSfts(module)
            | StakingModuleTypeMapping::All(module) => module.staked_assets@,
        }
    }

    /// The strategy is usable: no nonce is staged twice.
    pub open spec fn wf(&self) -> bool {
        nonces_unique(self.staged_items())
    }

    /// The raw score of the staged holdings in the pool, where it fits.
    pub fn get_base_user_score(&self, ledger: &Ledger, module_type: StakingModuleType) -> (score:
        Option<u128>)
        requires
            self.wf(),
        ensures
            score == fits(
                strategy_score(
                    ledger,
                    self.pool_type(),
                    self.token(),
                    module_type,
                    self.staged_items(),
                ),
            ),
    {
        match self {
            StakingModuleTypeMapping::Invalid(module) => module.get_base_user_score(module_type),
            StakingModuleTypeMapping::CodingDivisionSfts(module) => module.get_base_user_score(
                ledger,
                module_type,
            ),
            StakingModuleTypeMapping::XBunnies(module) => module.get_base_user_score(
                ledger,
                module_type,
            ),
            StakingModuleTypeMapping::Bloodshed(module) => module.get_base_user_score(
                ledger,
                module_type,
            ),
            StakingModuleTypeMapping::Nosferatu(module) => module.get_base_user_score(
                ledger,
                module_type,
            ),
            StakingModuleTypeMapping::VestaXDAO(module) => module.get_base_user_score(
                ledger,
                module_type,
            ),
            StakingModuleTypeMapping::SnakesSfts(module) => module.get_base_user_score(
                ledger,
                module_type,
            ),
            StakingModuleTypeMapping::SharesSfts(module) => module.get_base_user_score(
                ledger,
                module_type,
            ),
            StakingModuleTypeMapping::All(module) => module.get_base_user_score(ledger, module_type),
        }
    }

    /// Stages `quantity` more units of `nonce`. The answer is `false`, and
    /// nothing changes, where the strategy takes nothing in or the quantity
    /// held would leave the range of `u128`.
    pub fn add_to_storage(&mut self, nonce: u64, amount: u128) -> (added: bool)
        requires
            old(self).wf(),
        ensures
            added == (!old(self).is_invalid() && quantity_of(old(self).staged_items(), nonce)
                + amount <= u128::MAX),
            added ==> final(self).staged_items() == items_after_add(
                old(self).staged_items(),
                nonce,
                amount,
            ),
            !added ==> final(self).staged_items() == old(self).staged_items(),
            final(self).pool_type() == old(self).pool_type(),
            final(self).token() == old(self).token(),
            final(self).wf(),
    {
        match self {
            StakingModuleTypeMapping::Invalid(module) => module.add_to_storage(nonce, amount),
            StakingModuleTypeMapping::CodingDivisionSfts(module) => module.add_to_storage(
                nonce,
                amount,
            ),
            StakingModuleTypeMapping::XBunnies(module) => module.add_to_storage(nonce, amount),
            StakingModuleTypeMapping::Bloodshed(module) => module.add_to_storage(nonce, amount),
            StakingModuleTypeMapping::Nosferatu(module) => module.add_to_storage(nonce, amount),
            StakingModuleTypeMapping::VestaXDAO(module) => module.add_to_storage(nonce, amount),
            StakingModuleTypeMapping::SnakesSfts(module) => module.add_to_storage(nonce, amount),
            StakingModuleTypeMapping::SharesSfts(module) => module.add_to_storage(nonce, amount),
            StakingModuleTypeMapping::All(module) => module.add_to_storage(nonce, amount),
        }
    }

    /// Stages the withdrawal of every item of the request, all of them or
    /// none. The answer is `false`, and nothing changes, where the strategy
    /// holds nothing or one item cannot be served.
    pub fn start_unbonding(&mut self, payload: &StartUnbondingPayload) -> (served: bool)
        requires
            old(self).wf(),
        ensures
            served == (!old(self).is_invalid() && unbonding_allowed(
                old(self).staged_items(),
                payload.items@,
            )),
            served ==> final(self).staged_items() == items_after_unbonding(
                old(self).staged_items(),
                payload.items@,
            ),
            !served ==> final(self).staged_items() == old(self).staged_items(),
            final(self).pool_type() == old(self).pool_type(),
            final(self).token() == old(self).token(),
            final(self).wf(),
    {
        match self {
            StakingModuleTypeMapping::Invalid(module) => module.start_unbonding(payload),
            StakingModuleTypeMapping::CodingDivisionSfts(module) => module.start_unbonding(payload),
            StakingModuleTypeMapping::XBunnies(module) => module.start_unbonding(payload),
            StakingModuleTypeMapping::Bloodshed(module) => module.start_unbonding(payload),
            StakingModuleTypeMapping::Nosferatu(module) => module.start_unbonding(payload),
            StakingModuleTypeMapping::VestaXDAO(module) => module.start_unbonding(payload),
            StakingModuleTypeMapping::SnakesSfts(module) => module.start_unbonding(payload),
            StakingModuleTypeMapping::SharesSfts(module) => module.start_unbonding(payload),
            StakingModuleTypeMapping::All(module) => module.start_unbonding(payload),
        }
    }

    /// The holdings as staged so far; none for the strategy that holds
    /// nothing.
    pub fn staked_assets(&self) -> (items: Option<&Vec<NonceQtyPair>>)
        ensures
            match items {
                Some(items) => !self.is_invalid() && items@ == self.staged_items(),
                None => self.is_invalid(),
            },
    {
        match self {
            StakingModuleTypeMapping::Invalid(_) => None,
            StakingModuleTypeMapping::CodingDivisionSfts(module) => Some(
                &module.default_impl.staked_assets,
            ),
            StakingModuleTypeMapping::SnakesSfts(module) => Some(&module.default_impl.staked_assets),
            StakingModuleTypeMapping::XBunnies(module) => Some(&module.staked_assets),
            StakingModuleTypeMapping::Bloodshed(module) => Some(&module.staked_assets),
            StakingModuleTypeMapping::Nosferatu(module) => Some(&module.staked_assets),
            StakingModuleTypeMapping::VestaXDAO(module) => Some(&module.staked_assets),
            StakingModuleTypeMapping::SharesSfts(module) => Some(&module.staked_assets),
            StakingModuleTypeMapping::All(module) => Some(&module.staked_assets),
        }
    }

    /// Puts `items` in the place of the staged holdings. The strategy that
    /// holds nothing takes none.
    pub fn replace_staked_assets(&mut self, items: Vec<NonceQtyPair>)
        requires
            nonces_unique(items@),
        ensures
            final(self).staged_items() == if old(self).is_invalid() {
                Seq::empty()
            } else {
                items@
            },
            final(self).pool_type() == old(self).pool_type(),
            final(self).token() == old(self).token(),
            final(self).is_invalid() == old(self).is_invalid(),
            final(self).wf(),
    {
        match self {
            StakingModuleTypeMapping::Invalid(_) => {},
            StakingModuleTypeMapping::CodingDivisionSfts(module) => {
                module.default_impl.staked_assets = items;
            },
            StakingModuleTypeMapping::SnakesSfts(module) => {
                module.default_impl.staked_assets = items;
            },
            StakingModuleTypeMapping::XBunnies(module) => {
                module.staked_assets = items;
            },
            StakingModuleTypeMapping::Bloodshed(module) => {
                module.staked_assets = items;
            },
            StakingModuleTypeMapping::Nosferatu(module) => {
                module.staked_assets = items;
            },
            StakingModuleTypeMapping::VestaXDAO(module) => {
                module.staked_assets = items;
            },
            StakingModuleTypeMapping::SharesSfts(module) => {
                module.staked_assets = items;
            },
            StakingModuleTypeMapping::All(module) => {
                module.staked_assets = items;
            },
        }
    }

    /// The holdings as staged so far, to be written back; nothing for the
    /// strategy that holds nothing.
    pub fn into_staked_assets(self) -> (items: Vec<NonceQtyPair>)
        ensures
            items@ == self.staged_items(),
    {
        match self {
            StakingModuleTypeMapping::Invalid(_) => Vec::new(),
            StakingModuleTypeMapping::CodingDivisionSfts(module) => module.default_impl.staked_assets,
            StakingModuleTypeMapping::SnakesSfts(module) => module.default_impl.staked_assets,
            StakingModuleTypeMapping::XBunnies(module) => module.staked_assets,
            StakingModuleTypeMapping::Bloodshed(module) => module.staked_assets,
            StakingModuleTypeMapping::Nosferatu(module) => module.staked_assets,
            StakingModuleTypeMapping::VestaXDAO(module) => module.staked_assets,
            StakingModuleTypeMapping::SharesSfts(module) => module.staked_assets,
            StakingModuleTypeMapping::All(module) => module.staked_assets,
        }
    }
}

impl StakingModuleType {
    /// The strategy of this pool, at work on what `user_address` holds of
    /// `token_identifier`.
    pub fn get_module(&self, ledger: &Ledger, token_identifier: TokenId, user_address: Address) -> (module:
        StakingModuleTypeMapping)
        requires
            ledger.wf(),
        ensures
            module.pool_type() == self.strategy_pool(),
            module.is_invalid() == (*self == StakingModuleType::Invalid),
            !module.is_invalid() ==> module.token() == token_identifier && module.staged_items()
                == ledger.staked_nfts(user_address, token_identifier),
            module.wf(),
    {
        match self {
            StakingModuleType::Invalid => StakingModuleTypeMapping::Invalid(
                InvalidStakingModule::new(),
            ),
            StakingModuleType::CodingDivisionSfts => StakingModuleTypeMapping::CodingDivisionSfts(
                CodingDivisionSftStakingModule::new(ledger, token_identifier, user_address, *self),
            ),
            StakingModuleType::XBunnies => StakingModuleTypeMapping::XBunnies(
                DefaultStakingModule::new(ledger, token_identifier, user_address, *self),
            ),
            StakingModuleType::Bloodshed => StakingModuleTypeMapping::Bloodshed(
                DefaultStakingModule::new(ledger, token_identifier, user_address, *self),
            ),
            StakingModuleType::Nosferatu => StakingModuleTypeMapping::Nosferatu(
                DefaultStakingModule::new(ledger, token_identifier, user_address, *self),
            ),
            StakingModuleType::VestaXDAO => StakingModuleTypeMapping::VestaXDAO(
                DefaultStakingModule::new(ledger, token_identifier, user_address, *self),
            ),
            StakingModuleType::SnakesSfts => StakingModuleTypeMapping::SnakesSfts(
                SnakesSftStakingModule::new(ledger, token_identifier, user_address, *self),
            ),
            StakingModuleType::SharesSfts => StakingModuleTypeMapping::SnakesSfts(
                SnakesSftStakingModule::new(ledger, token_identifier, user_address, *self),
            ),
            StakingModuleType::All => StakingModuleTypeMapping::All(
                DefaultStakingModule::new(ledger, token_identifier, user_address, *self),
            ),
        }
    }
}

} // verus!
