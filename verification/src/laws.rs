//! What holds of the ledger as a whole: the laws that its operations keep.

use crate::boost::{
    effective_deb, lemma_apply_deb_monotone_in_deb, lemma_apply_deb_strict, spec_apply_deb,
};
use crate::constants::DEB_DENOMINATION;
use crate::ledger::Ledger;
use crate::math::{lemma_map_sum_scale, map_sum, scaled};
use crate::staking_modules::staking_module_type::{PerModule, StakingModuleType};
use crate::types::{Address, TokenId};
use crate::utils::{checkpoint_epoch, epoch_reward, secured, unstored_rewards};
use vstd::prelude::*;

verus! {

/// The score ledger balances: in a consistent ledger the aggregated score of
/// every pool is the sum of the boosted scores of all stakers in that pool.
///
/// A new ledger is consistent and every operation keeps it so; hence this
/// holds in every state that the operations can reach.
pub proof fn lemma_aggregated_score_is_sum(ledger: &Ledger, module: StakingModuleType)
    requires
        ledger.wf(),
    ensures
        ledger.aggregated_scores.spec_get(module) as nat == map_sum(ledger.score_map(module)),
        forall|user: Address| #[trigger]
            ledger.score_map(module).contains_key(user) ==> ledger.score_map(module)[user]
                == ledger.user_score(module, user),
{
    assert(ledger.aggregated_scores.spec_get(module) as nat == ledger.total_user_score(module));
}

/// Right after rewards were folded in, nothing is left to fold in.
pub proof fn lemma_nothing_unstored_after_securing(
    ledger: &Ledger,
    module: StakingModuleType,
    token: TokenId,
    score: u128,
    epoch: u64,
)
    ensures
        unstored_rewards(
            ledger,
            module,
            token,
            score,
            checkpoint_epoch(ledger, module, token, epoch),
            epoch,
        ) == 0,
{
    let checkpoint = checkpoint_epoch(ledger, module, token, epoch);
    if checkpoint < epoch {
        assert(ledger.reward_rate(epoch, module, token).is_none());
        assert(unstored_rewards(ledger, module, token, score, checkpoint, checkpoint) == 0);
        assert(epoch_reward(ledger, module, token, score, epoch) == 0);
    }
}

/// Securing is idempotent: folding the rewards of one pool and one token in
/// a second time, in the same epoch and with no distribution in between,
/// changes neither the pending balances nor the checkpoints.
pub proof fn lemma_secure_idempotent(
    ledger: &Ledger,
    scores: PerModule<u128>,
    state: (Map<TokenId, u128>, PerModule<u64>),
    module: StakingModuleType,
    token: TokenId,
    epoch: u64,
)
    requires
        secured(ledger, scores, state, module, token, epoch).is_some(),
    ensures
        secured(
            ledger,
            scores,
            secured(ledger, scores, state, module, token, epoch).unwrap(),
            module,
            token,
            epoch,
        ) == secured(ledger, scores, state, module, token, epoch),
{
    let once = secured(ledger, scores, state, module, token, epoch).unwrap();
    lemma_nothing_unstored_after_securing(ledger, module, token, scores.spec_get(module), epoch);
    let checkpoint = checkpoint_epoch(ledger, module, token, epoch);
    assert(once.1.spec_get(module) == checkpoint);
    let twice = secured(ledger, scores, once, module, token, epoch).unwrap();
    assert(twice.0 =~= once.0);
    assert(twice.1 == once.1);
}

/// What a score earns depends on the ledger through its reward rates only.
pub proof fn lemma_unstored_rewards_same_rates(
    a: &Ledger,
    b: &Ledger,
    module: StakingModuleType,
    token: TokenId,
    score: u128,
    from: u64,
    to: u64,
)
    requires
        a.reward_rates == b.reward_rates,
    ensures
        unstored_rewards(a, module, token, score, from, to) == unstored_rewards(
            b,
            module,
            token,
            score,
            from,
            to,
        ),
    decreases to,
{
    if to > from {
        lemma_unstored_rewards_same_rates(a, b, module, token, score, from, (to - 1) as u64);
        assert(a.reward_rate(to, module, token) == b.reward_rate(to, module, token));
    }
}

/// Securing twice in a row is a no-op the second time: where `middle` is
/// `before` with the rewards of `user` in one pool and one token folded in
/// at `epoch`, folding them in again at the same epoch, with no distribution
/// in between, gives the balances and checkpoints that `middle` already has.
pub proof fn lemma_securing_twice(
    before: &Ledger,
    middle: &Ledger,
    user: Address,
    token: TokenId,
    module: StakingModuleType,
    epoch: u64,
)
    requires
        secured(
            before,
            before.user_scores(user),
            (before.pending_map(user), before.user_checkpoints(user)),
            module,
            token,
            epoch,
        ) == Some((middle.pending_map(user), middle.user_checkpoints(user))),
        middle.same_rates(before),
        middle.user_scores(user) == before.user_scores(user),
    ensures
        secured(
            middle,
            middle.user_scores(user),
            (middle.pending_map(user), middle.user_checkpoints(user)),
            module,
            token,
            epoch,
        ) == Some((middle.pending_map(user), middle.user_checkpoints(user))),
{
    let scores = before.user_scores(user);
    let start = (before.pending_map(user), before.user_checkpoints(user));
    let once = (middle.pending_map(user), middle.user_checkpoints(user));
    lemma_secure_idempotent(before, scores, start, module, token, epoch);
    lemma_unstored_rewards_same_rates(
        before,
        middle,
        module,
        token,
        scores.spec_get(module),
        once.1.spec_get(module),
        epoch,
    );
    assert(before.reward_rate(epoch, module, token) == middle.reward_rate(epoch, module, token));
}

/// What one staker is owed for one epoch at the rate `rate`.
pub open spec fn payout(ledger: &Ledger, module: StakingModuleType, user: Address, rate: nat) -> nat {
    ledger.user_score(module, user) as nat * rate
}

/// Rewards are conserved: at the rate that a distribution of `amount` sets
/// for a pool, the payouts of all stakers of the pool together never exceed
/// `amount`. Rounding down can leave some of it undistributed; it never
/// hands out more than came in.
pub proof fn lemma_distribution_conserves(
    ledger: &Ledger,
    module: StakingModuleType,
    amount: u128,
)
    requires
        ledger.wf(),
        ledger.aggregated_scores.spec_get(module) > 0,
    ensures
        ({
            let rate = (amount / ledger.aggregated_scores.spec_get(module)) as nat;
            &&& map_sum(scaled(ledger.score_map(module), rate)) <= amount
            &&& forall|user: Address| #[trigger]
                ledger.knows(user) ==> scaled(ledger.score_map(module), rate)[user] == payout(
                    ledger,
                    module,
                    user,
                    rate,
                )
        }),
{
    let aggregate = ledger.aggregated_scores.spec_get(module) as nat;
    let rate = (amount / ledger.aggregated_scores.spec_get(module)) as nat;
    ledger.lemma_score_map_finite(module);
    lemma_map_sum_scale(ledger.score_map(module), rate);
    assert(aggregate == ledger.total_user_score(module));
    assert(aggregate * rate <= amount) by (nonlinear_arith)
        requires
            aggregate > 0,
            rate == amount as nat / aggregate,
    ;
}

/// The boost is monotone: where the owner raises a staker's boost and the
/// boosted score changes at all, the staker's score in the primary pool
/// rises strictly, the aggregated score of the primary pool rises by the
/// same amount, and the score of every other staker stays as it was.
///
/// The boosted score is rounded down, so a small raise can leave a small
/// score where it was; such a raise is left out here by the last premise.
pub proof fn lemma_raising_deb(
    before: &Ledger,
    after: &Ledger,
    user: Address,
    new_deb: u128,
    epoch: u64,
)
    requires
        before.wf(),
        before.deb_fits(user, new_deb, epoch),
        after.deb_updated(before, user, new_deb, epoch),
        effective_deb(before.user_deb(user) as nat) < effective_deb(new_deb as nat),
        before.score_under_deb(user, new_deb) != before.user_score(StakingModuleType::All, user),
    ensures
        after.user_score(StakingModuleType::All, user) > before.user_score(
            StakingModuleType::All,
            user,
        ),
        after.aggregated_scores.spec_get(StakingModuleType::All)
            - before.aggregated_scores.spec_get(StakingModuleType::All) == after.user_score(
            StakingModuleType::All,
            user,
        ) - before.user_score(StakingModuleType::All, user),
        forall|other: Address, m: StakingModuleType|
            other != user ==> #[trigger] after.user_score(m, other) == before.user_score(m, other),
{
    lemma_deb_update_moves_one_score(before, after, user, new_deb, epoch);
    let raw = before.raw_user_score(StakingModuleType::All, user) as nat;
    let old_deb = before.user_deb(user) as nat;
    assert(before.user_score(StakingModuleType::All, user) == spec_apply_deb(raw, old_deb)) by {
        if before.knows(user) {
            assert(before.users@[user].wf());
        }
    }
    lemma_apply_deb_by_effective(raw, old_deb);
    lemma_apply_deb_by_effective(raw, new_deb as nat);
    lemma_apply_deb_monotone_in_deb(raw, effective_deb(old_deb), effective_deb(new_deb as nat));
}

/// The boost is monotone downwards too: where the owner lowers a staker's
/// boost and the boosted score changes at all, the staker's score in the
/// primary pool falls strictly, the aggregated score of the primary pool
/// falls by the same amount, and the score of every other staker stays as
/// it was.
pub proof fn lemma_lowering_deb(
    before: &Ledger,
    after: &Ledger,
    user: Address,
    new_deb: u128,
    epoch: u64,
)
    requires
        before.wf(),
        before.deb_fits(user, new_deb, epoch),
        after.deb_updated(before, user, new_deb, epoch),
        effective_deb(new_deb as nat) < effective_deb(before.user_deb(user) as nat),
        before.score_under_deb(user, new_deb) != before.user_score(StakingModuleType::All, user),
    ensures
        after.user_score(StakingModuleType::All, user) < before.user_score(
            StakingModuleType::All,
            user,
        ),
        before.aggregated_scores.spec_get(StakingModuleType::All)
            - after.aggregated_scores.spec_get(StakingModuleType::All) == before.user_score(
            StakingModuleType::All,
            user,
        ) - after.user_score(StakingModuleType::All, user),
        forall|other: Address, m: StakingModuleType|
            other != user ==> #[trigger] after.user_score(m, other) == before.user_score(m, other),
{
    lemma_deb_update_moves_one_score(before, after, user, new_deb, epoch);
    let raw = before.raw_user_score(StakingModuleType::All, user) as nat;
    let old_deb = before.user_deb(user) as nat;
    assert(before.user_score(StakingModuleType::All, user) == spec_apply_deb(raw, old_deb)) by {
        if before.knows(user) {
            assert(before.users@[user].wf());
        }
    }
    lemma_apply_deb_by_effective(raw, old_deb);
    lemma_apply_deb_by_effective(raw, new_deb as nat);
    lemma_apply_deb_monotone_in_deb(raw, effective_deb(new_deb as nat), effective_deb(old_deb));
}

/// A raise of the boost that is worth at least one whole unit of score
/// does change the boosted score: it rises strictly.
pub proof fn lemma_raising_deb_by_a_unit(raw: nat, old_deb: nat, new_deb: nat)
    requires
        effective_deb(old_deb) < effective_deb(new_deb),
        raw * (effective_deb(new_deb) - effective_deb(old_deb)) >= DEB_DENOMINATION as nat,
    ensures
        spec_apply_deb(raw, old_deb) < spec_apply_deb(raw, new_deb),
{
    lemma_apply_deb_strict(raw, old_deb, new_deb);
}

/// The boost never takes anything away: the boosted score is at least the
/// raw one.
pub proof fn lemma_apply_deb_at_least(raw: nat, deb: nat)
    ensures
        raw <= spec_apply_deb(raw, deb),
{
    lemma_apply_deb_monotone_in_deb(raw, 0, deb);
}

/// A boost counts as the boost that takes effect.
pub proof fn lemma_apply_deb_by_effective(raw: nat, deb: nat)
    ensures
        spec_apply_deb(raw, deb) == spec_apply_deb(raw, effective_deb(deb)),
{
    let d = DEB_DENOMINATION as int;
    let r = raw as int;
    assert((r * d) / d == r) by (nonlinear_arith)
        requires
            d > 0,
    ;
}

/// A change of boost moves the score of one staker in the primary pool and
/// the aggregated score of that pool by the same amount, and nothing else.
pub proof fn lemma_deb_update_moves_one_score(
    before: &Ledger,
    after: &Ledger,
    user: Address,
    new_deb: u128,
    epoch: u64,
)
    requires
        before.wf(),
        before.deb_fits(user, new_deb, epoch),
        after.deb_updated(before, user, new_deb, epoch),
    ensures
        after.user_score(StakingModuleType::All, user) == before.score_under_deb(user, new_deb),
        after.aggregated_scores.spec_get(StakingModuleType::All) + before.user_score(
            StakingModuleType::All,
            user,
        ) == before.aggregated_scores.spec_get(StakingModuleType::All) + after.user_score(
            StakingModuleType::All,
            user,
        ),
        forall|m: StakingModuleType|
            m != StakingModuleType::All ==> #[trigger] after.user_score(m, user)
                == before.user_score(m, user) && after.aggregated_scores.spec_get(m)
                == before.aggregated_scores.spec_get(m),
        forall|other: Address, m: StakingModuleType|
            other != user ==> #[trigger] after.user_score(m, other) == before.user_score(m, other),
{
    before.lemma_user_score_bounded(StakingModuleType::All, user);
    assert(before.score_under_deb(user, new_deb) <= before.aggregate_under_deb(user, new_deb));
    assert forall|other: Address, m: StakingModuleType| other != user implies #[trigger]
        after.user_score(m, other) == before.user_score(m, other) by {
        assert(after.users@.contains_key(other) == before.users@.contains_key(other));
        if before.users@.contains_key(other) {
            assert(after.users@[other] == before.users@[other]);
        }
    }
}

} // verus!
