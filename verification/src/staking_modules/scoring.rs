//! The raw score of a staker: what each holding earns under the strategy of
//! its collection, summed over everything held.

use crate::ledger::Ledger;
use crate::math::{checked_sum, fits};
use crate::staking_modules::coding_division_sft_staking_module::{
    compute_full_set_user_score, full_set_user_score,
};
use crate::staking_modules::default::{compute_weighted_score, weighted_score, ScoreRule};
use crate::staking_modules::snakes_sft_staking_module::{
    compute_shares_user_score, compute_snakes_user_score, shares_user_score, snakes_user_score,
};
use crate::staking_modules::staking_module_type::StakingModuleType;
use crate::storage::user_data::{holds_collection, Position};
use crate::types::nonce_qty_pair::{nonces_unique, NonceQtyPair};
use crate::types::TokenId;
use vstd::prelude::*;

verus! {

/// What `items` of the collection `token` score in `module` under the
/// strategy that works under the name of the pool `strategy`.
pub open spec fn strategy_score(
    ledger: &Ledger,
    strategy: StakingModuleType,
    token: TokenId,
    module: StakingModuleType,
    items: Seq<NonceQtyPair>,
) -> nat {
    match strategy {
        StakingModuleType::Invalid => 0,
        StakingModuleType::CodingDivisionSfts => full_set_user_score(ledger, token, module, items),
        StakingModuleType::SnakesSfts => snakes_user_score(
            ledger,
            token,
            module,
            items,
        ),
        _ => weighted_score(ledger, token, module, ScoreRule::PerUnit, items),
    }
}

/// What `items` earn on the side in the company-share pool: something only
/// under the snakes strategy.
pub open spec fn strategy_shares_score(
    ledger: &Ledger,
    strategy: StakingModuleType,
    token: TokenId,
    items: Seq<NonceQtyPair>,
) -> nat {
    match strategy {
        StakingModuleType::SnakesSfts => shares_user_score(
            ledger,
            token,
            items,
        ),
        _ => 0,
    }
}

/// The pool whose strategy scores the collection: `Invalid` where the
/// collection has no pool.
pub open spec fn scoring_pool(ledger: &Ledger, token: TokenId) -> StakingModuleType {
    match ledger.stake_pool_type_configuration(token) {
        Some(pool_type) => pool_type,
        None => StakingModuleType::Invalid,
    }
}

/// What holding `items` of the collection `token` adds to a staker's raw
/// score in `module`: the strategy's score in the primary pool and in the
/// collection's own pool, nothing in any other, and on top the company shares
/// that the holding earns on the side.
pub open spec fn position_score(
    ledger: &Ledger,
    token: TokenId,
    items: Seq<NonceQtyPair>,
    module: StakingModuleType,
) -> nat {
    let pool_type = scoring_pool(ledger, token);
    let own = if module == StakingModuleType::All || module == pool_type {
        strategy_score(ledger, pool_type.strategy_pool(), token, module, items)
    } else {
        0
    };
    let side = if module == StakingModuleType::SharesSfts {
        strategy_shares_score(ledger, pool_type.strategy_pool(), token, items)
    } else {
        0
    };
    own + side
}

/// The raw score in `module` of someone who holds `holdings`: a list of
/// collections, each with the items held of it.
pub open spec fn total_raw_score(
    ledger: &Ledger,
    holdings: Seq<(TokenId, Seq<NonceQtyPair>)>,
    module: StakingModuleType,
) -> nat
    decreases holdings.len(),
{
    if holdings.len() == 0 {
        0
    } else {
        total_raw_score(ledger, holdings.drop_last(), module) + position_score(
            ledger,
            holdings.last().0,
            holdings.last().1,
            module,
        )
    }
}

/// The holdings that a list of positions stands for.
pub open spec fn holdings_of(positions: Seq<Position>) -> Seq<(TokenId, Seq<NonceQtyPair>)> {
    Seq::new(positions.len(), |i: int| (positions[i].collection, positions[i].items@))
}

/// The holdings that `positions` would stand for with `items` held of the
/// collection `token`: in the place of the position of that collection, or
/// at the end where there is none.
pub open spec fn staged_holdings(
    positions: Seq<Position>,
    token: TokenId,
    items: Seq<NonceQtyPair>,
) -> Seq<(TokenId, Seq<NonceQtyPair>)> {
    let kept = Seq::new(
        positions.len(),
        |i: int|
            if positions[i].collection == token {
                (token, items)
            } else {
                (positions[i].collection, positions[i].items@)
            },
    );
    if holds_collection(positions, token) {
        kept
    } else {
        kept.push((token, items))
    }
}

/// The score of the first holdings never exceeds the score of all.
pub proof fn lemma_total_raw_score_prefix(
    ledger: &Ledger,
    holdings: Seq<(TokenId, Seq<NonceQtyPair>)>,
    module: StakingModuleType,
    n: int,
)
    requires
        0 <= n <= holdings.len(),
    ensures
        total_raw_score(ledger, holdings.take(n), module) <= total_raw_score(
            ledger,
            holdings,
            module,
        ),
    decreases holdings.len(),
{
    if n == holdings.len() {
        assert(holdings.take(n) =~= holdings);
    } else {
        lemma_total_raw_score_prefix(ledger, holdings.drop_last(), module, n);
        assert(holdings.drop_last().take(n) =~= holdings.take(n));
    }
}

/// What `items` score in `module` under the strategy that works under the
/// name of the pool `strategy`, where it fits.
pub fn compute_strategy_score(
    ledger: &Ledger,
    strategy: StakingModuleType,
    token: TokenId,
    module: StakingModuleType,
    items: &Vec<NonceQtyPair>,
) -> (score: Option<u128>)
    requires
        nonces_unique(items@),
    ensures
        score == fits(strategy_score(ledger, strategy, token, module, items@)),
{
    match strategy {
        StakingModuleType::Invalid => Some(0),
        StakingModuleType::CodingDivisionSfts => compute_full_set_user_score(
            ledger,
            token,
            module,
            items,
        ),
        StakingModuleType::SnakesSfts => compute_snakes_user_score(
            ledger,
            token,
            module,
            items,
        ),
        _ => compute_weighted_score(ledger, token, module, ScoreRule::PerUnit, items),
    }
}

/// What `items` earn on the side in the company-share pool, where it fits.
pub fn compute_strategy_shares_score(
    ledger: &Ledger,
    strategy: StakingModuleType,
    token: TokenId,
    items: &Vec<NonceQtyPair>,
) -> (score: Option<u128>)
    ensures
        score == fits(strategy_shares_score(ledger, strategy, token, items@)),
{
    match strategy {
        StakingModuleType::SnakesSfts => compute_shares_user_score(
            ledger,
            token,
            items,
        ),
        _ => Some(0),
    }
}

/// What holding `items` of the collection adds to a staker's raw score in
/// `module`, where it fits.
pub fn compute_position_score(
    ledger: &Ledger,
    token: TokenId,
    items: &Vec<NonceQtyPair>,
    module: StakingModuleType,
) -> (score: Option<u128>)
    requires
        nonces_unique(items@),
    ensures
        score == fits(position_score(ledger, token, items@, module)),
{
    let pool_type = match ledger.get_staking_pool_type_configuration(token) {
        Some(pool_type) => pool_type,
        None => StakingModuleType::Invalid,
    };
    let strategy = pool_type.get_strategy_pool();
    let own: u128 = if module == StakingModuleType::All || module == pool_type {
        match compute_strategy_score(ledger, strategy, token, module, items) {
            Some(score) => score,
            None => {
                return None;
            },
        }
    } else {
        0
    };
    let side: u128 = if module == StakingModuleType::SharesSfts {
        match compute_strategy_shares_score(ledger, strategy, token, items) {
            Some(score) => score,
            None => {
                return None;
            },
        }
    } else {
        0
    };
    checked_sum(own, side)
}

/// The raw score in `module` of the staker who holds `positions`, with
/// `staged_items` in the place of what is held of `staged_token`; where it
/// fits.
pub fn compute_total_raw_score(
    ledger: &Ledger,
    positions: &Vec<Position>,
    staged_token: TokenId,
    staged_items: &Vec<NonceQtyPair>,
    module: StakingModuleType,
) -> (score: Option<u128>)
    requires
        nonces_unique(staged_items@),
        forall|i: int| 0 <= i < positions.len() ==> nonces_unique((#[trigger] positions[i]).items@),
    ensures
        score == fits(
            total_raw_score(
                ledger,
                staged_holdings(positions@, staged_token, staged_items@),
                module,
            ),
        ),
{
    let ghost holdings = staged_holdings(positions@, staged_token, staged_items@);
    let mut score: u128 = 0;
    let mut found = false;
    let mut i: usize = 0;
    while i < positions.len()
        invariant
            i <= positions.len(),
            nonces_unique(staged_items@),
            forall|k: int|
                0 <= k < positions.len() ==> nonces_unique((#[trigger] positions[k]).items@),
            holdings == staged_holdings(positions@, staged_token, staged_items@),
            score == total_raw_score(ledger, holdings.take(i as int), module),
            found == exists|k: int|
                0 <= k < i && (#[trigger] positions[k]).collection == staged_token,
        decreases positions.len() - i,
    {
        let position = &positions[i];
        proof {
            assert(holdings.take(i + 1).drop_last() =~= holdings.take(i as int));
            lemma_total_raw_score_prefix(ledger, holdings, module, i + 1);
        }
        let part = if position.collection == staged_token {
            found = true;
            compute_position_score(ledger, staged_token, staged_items, module)
        } else {
            compute_position_score(ledger, position.collection, &position.items, module)
        };
        score = match part {
            Some(part) => match checked_sum(score, part) {
                Some(sum) => sum,
                None => {
                    return None;
                },
            },
            None => {
                return None;
            },
        };
        i += 1;
    }
    if found {
        proof {
            assert(holdings.take(positions.len() as int) =~= holdings);
        }
        Some(score)
    } else {
        proof {
            assert(holdings.drop_last() =~= holdings.take(positions.len() as int));
        }
        match compute_position_score(ledger, staged_token, staged_items, module) {
            Some(part) => checked_sum(score, part),
            None => None,
        }
    }
}

} // verus!
