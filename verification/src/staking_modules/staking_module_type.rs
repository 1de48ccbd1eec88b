//! The closed list of reward pools, and a table with one slot per pool.

use vstd::prelude::*;

verus! {

/// The reward pool that a collection, a score or a rate belongs to. `All` is
/// the primary pool, which every staked collection also scores in.
#[derive(Clone, Copy, PartialEq, Eq, Debug, Structural)]
pub enum StakingModuleType {
    Invalid,
    CodingDivisionSfts,
    XBunnies,
    Bloodshed,
    Nosferatu,
    VestaXDAO,
    SnakesSfts,
    SharesSfts,
    All,
}

impl StakingModuleType {
    /// Every pool, in declaration order.
    pub open spec fn spec_iter() -> Seq<StakingModuleType> {
        seq![
            StakingModuleType::Invalid,
            StakingModuleType::CodingDivisionSfts,
            StakingModuleType::XBunnies,
            StakingModuleType::Bloodshed,
            StakingModuleType::Nosferatu,
            StakingModuleType::VestaXDAO,
            StakingModuleType::SnakesSfts,
            StakingModuleType::SharesSfts,
            StakingModuleType::All,
        ]
    }

    /// Every pool, in declaration order.
    pub fn iter() -> (all: Vec<StakingModuleType>)
        ensures
            all@ == Self::spec_iter(),
            forall|m: StakingModuleType| all@.contains(m),
    {
        let all = vec![
            StakingModuleType::Invalid,
            StakingModuleType::CodingDivisionSfts,
            StakingModuleType::XBunnies,
            StakingModuleType::Bloodshed,
            StakingModuleType::Nosferatu,
            StakingModuleType::VestaXDAO,
            StakingModuleType::SnakesSfts,
            StakingModuleType::SharesSfts,
            StakingModuleType::All,
        ];
        proof {
            assert(all@ =~= Self::spec_iter());
            assert forall|m: StakingModuleType| all@.contains(m) by {
                let i: int = m.spec_index();
                assert(all@[i] == m);
            }
        }
        all
    }

    /// Position of the pool in `spec_iter`.
    pub open spec fn spec_index(self) -> int {
        match self {
            StakingModuleType::Invalid => 0,
            StakingModuleType::CodingDivisionSfts => 1,
            StakingModuleType::XBunnies => 2,
            StakingModuleType::Bloodshed => 3,
            StakingModuleType::Nosferatu => 4,
            StakingModuleType::VestaXDAO => 5,
            StakingModuleType::SnakesSfts => 6,
            StakingModuleType::SharesSfts => 7,
            StakingModuleType::All => 8,
        }
    }

    /// The pool under whose name the strategy of this pool works: its own,
    /// but for the company-share pool, which is scored as snakes are.
    pub open spec fn strategy_pool(self) -> StakingModuleType {
        if self == StakingModuleType::SharesSfts {
            StakingModuleType::SnakesSfts
        } else {
            self
        }
    }

    /// The pool under whose name the strategy of this pool works.
    pub fn get_strategy_pool(&self) -> (pool: StakingModuleType)
        ensures
            pool == self.strategy_pool(),
    {
        match self {
            StakingModuleType::SharesSfts => StakingModuleType::SnakesSfts,
            _ => *self,
        }
    }

    /// The number by which the pool is known outside the ledger.
    pub open spec fn spec_code(self) -> u8 {
        match self {
            StakingModuleType::Invalid => 0,
            StakingModuleType::CodingDivisionSfts => 1,
            StakingModuleType::XBunnies => 2,
            StakingModuleType::Bloodshed => 3,
            StakingModuleType::Nosferatu => 4,
            StakingModuleType::VestaXDAO => 5,
            StakingModuleType::SnakesSfts => 6,
            StakingModuleType::SharesSfts => 7,
            StakingModuleType::All => 100,
        }
    }

    /// The number by which the pool is known outside the ledger.
    pub fn code(&self) -> (code: u8)
        ensures
            code == self.spec_code(),
    {
        match self {
            StakingModuleType::Invalid => 0,
            StakingModuleType::CodingDivisionSfts => 1,
            StakingModuleType::XBunnies => 2,
            StakingModuleType::Bloodshed => 3,
            StakingModuleType::Nosferatu => 4,
            StakingModuleType::VestaXDAO => 5,
            StakingModuleType::SnakesSfts => 6,
            StakingModuleType::SharesSfts => 7,
            StakingModuleType::All => 100,
        }
    }
}

/// One value per pool.
#[derive(Clone, Copy, Debug)]
pub struct PerModule<T> {
    pub invalid: T,
    pub coding_division_sfts: T,
    pub x_bunnies: T,
    pub bloodshed: T,
    pub nosferatu: T,
    pub vesta_x_dao: T,
    pub snakes_sfts: T,
    pub shares_sfts: T,
    pub all: T,
}

impl<T: Copy> PerModule<T> {
    /// The value kept for `module`.
    pub open spec fn spec_get(self, module: StakingModuleType) -> T {
        match module {
            StakingModuleType::Invalid => self.invalid,
            StakingModuleType::CodingDivisionSfts => self.coding_division_sfts,
            StakingModuleType::XBunnies => self.x_bunnies,
            StakingModuleType::Bloodshed => self.bloodshed,
            StakingModuleType::Nosferatu => self.nosferatu,
            StakingModuleType::VestaXDAO => self.vesta_x_dao,
            StakingModuleType::SnakesSfts => self.snakes_sfts,
            StakingModuleType::SharesSfts => self.shares_sfts,
            StakingModuleType::All => self.all,
        }
    }

    /// The table with `value` in the slot of `module` and every other slot
    /// as it was.
    pub open spec fn spec_set(self, module: StakingModuleType, value: T) -> PerModule<T> {
        match module {
            StakingModuleType::Invalid => PerModule { invalid: value, ..self },
            StakingModuleType::CodingDivisionSfts => PerModule {
                coding_division_sfts: value,
                ..self
            },
            StakingModuleType::XBunnies => PerModule { x_bunnies: value, ..self },
            StakingModuleType::Bloodshed => PerModule { bloodshed: value, ..self },
            StakingModuleType::Nosferatu => PerModule { nosferatu: value, ..self },
            StakingModuleType::VestaXDAO => PerModule { vesta_x_dao: value, ..self },
            StakingModuleType::SnakesSfts => PerModule { snakes_sfts: value, ..self },
            StakingModuleType::SharesSfts => PerModule { shares_sfts: value, ..self },
            StakingModuleType::All => PerModule { all: value, ..self },
        }
    }

    /// The table that holds `value` in every slot.
    pub open spec fn spec_filled(value: T) -> PerModule<T> {
        PerModule {
            invalid: value,
            coding_division_sfts: value,
            x_bunnies: value,
            bloodshed: value,
            nosferatu: value,
            vesta_x_dao: value,
            snakes_sfts: value,
            shares_sfts: value,
            all: value,
        }
    }

    /// A table that holds `value` in every slot.
    pub fn filled(value: T) -> (table: PerModule<T>)
        ensures
            table == Self::spec_filled(value),
            forall|m: StakingModuleType| table.spec_get(m) == value,
    {
        PerModule {
            invalid: value,
            coding_division_sfts: value,
            x_bunnies: value,
            bloodshed: value,
            nosferatu: value,
            vesta_x_dao: value,
            snakes_sfts: value,
            shares_sfts: value,
            all: value,
        }
    }

    /// The value kept for `module`.
    pub fn get(&self, module: StakingModuleType) -> (value: T)
        ensures
            value == self.spec_get(module),
    {
        match module {
            StakingModuleType::Invalid => self.invalid,
            StakingModuleType::CodingDivisionSfts => self.coding_division_sfts,
            StakingModuleType::XBunnies => self.x_bunnies,
            StakingModuleType::Bloodshed => self.bloodshed,
            StakingModuleType::Nosferatu => self.nosferatu,
            StakingModuleType::VestaXDAO => self.vesta_x_dao,
            StakingModuleType::SnakesSfts => self.snakes_sfts,
            StakingModuleType::SharesSfts => self.shares_sfts,
            StakingModuleType::All => self.all,
        }
    }

    /// Puts `value` in the slot of `module`.
    pub fn set(&mut self, module: StakingModuleType, value: T)
        ensures
            *final(self) == old(self).spec_set(module, value),
            final(self).spec_get(module) == value,
            forall|m: StakingModuleType|
                m != module ==> final(self).spec_get(m) == old(self).spec_get(m),
    {
        match module {
            StakingModuleType::Invalid => { self.invalid = value; },
            StakingModuleType::CodingDivisionSfts => { self.coding_division_sfts = value; },
            StakingModuleType::XBunnies => { self.x_bunnies = value; },
            StakingModuleType::Bloodshed => { self.bloodshed = value; },
            StakingModuleType::Nosferatu => { self.nosferatu = value; },
            StakingModuleType::VestaXDAO => { self.vesta_x_dao = value; },
            StakingModuleType::SnakesSfts => { self.snakes_sfts = value; },
            StakingModuleType::SharesSfts => { self.shares_sfts = value; },
            StakingModuleType::All => { self.all = value; },
        }
    }
}

impl PerModule<u128> {
    /// The table of the sums, slot by slot; none where a sum leaves the
    /// range of `u128`.
    pub fn checked_add(&self, other: &PerModule<u128>) -> (sums: Option<PerModule<u128>>)
        ensures
            sums.is_some() == forall|m: StakingModuleType|
                self.spec_get(m) + #[trigger] other.spec_get(m) <= u128::MAX,
            match sums {
                Some(sums) => forall|m: StakingModuleType| #[trigger]
                    sums.spec_get(m) == self.spec_get(m) + other.spec_get(m),
                None => true,
            },
    {
        let sums = match (
            self.invalid.checked_add(other.invalid),
            self.coding_division_sfts.checked_add(other.coding_division_sfts),
            self.x_bunnies.checked_add(other.x_bunnies),
            self.bloodshed.checked_add(other.bloodshed),
            self.nosferatu.checked_add(other.nosferatu),
            self.vesta_x_dao.checked_add(other.vesta_x_dao),
            self.snakes_sfts.checked_add(other.snakes_sfts),
            self.shares_sfts.checked_add(other.shares_sfts),
            self.all.checked_add(other.all),
        ) {
            (
                Some(invalid),
                Some(coding_division_sfts),
                Some(x_bunnies),
                Some(bloodshed),
                Some(nosferatu),
                Some(vesta_x_dao),
                Some(snakes_sfts),
                Some(shares_sfts),
                Some(all),
            ) => Some(
                PerModule {
                    invalid,
                    coding_division_sfts,
                    x_bunnies,
                    bloodshed,
                    nosferatu,
                    vesta_x_dao,
                    snakes_sfts,
                    shares_sfts,
                    all,
                },
            ),
            _ => None,
        };
        proof {
            if sums.is_none() {
                let full = |m: StakingModuleType| self.spec_get(m) + other.spec_get(m) > u128::MAX;
                assert(full(StakingModuleType::Invalid) || full(
                    StakingModuleType::CodingDivisionSfts,
                ) || full(StakingModuleType::XBunnies) || full(StakingModuleType::Bloodshed) || full(
                    StakingModuleType::Nosferatu,
                ) || full(StakingModuleType::VestaXDAO) || full(StakingModuleType::SnakesSfts)
                    || full(StakingModuleType::SharesSfts) || full(StakingModuleType::All));
            }
        }
        sums
    }
}

} // verus!
