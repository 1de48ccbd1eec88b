//! The reward accrual engine: what a staker has earned but not yet folded
//! into the claimable balance, and the folding itself.

use crate::errors::StakingError;
use crate::ledger::Ledger;
use crate::math::{checked_product, checked_sum, fits};
use crate::staking_modules::staking_module_type::{PerModule, StakingModuleType};
use crate::storage::config::RewardTokenMapping;
use crate::storage::user_data::UserAccount;
use crate::types::token_payment::TokenPayment;
use crate::types::{Address, TokenId};
use std::collections::HashMap;
use vstd::prelude::*;

verus! {

/// What `score` earns in one epoch: the score times the epoch's rate, and
/// nothing where the epoch has no rate.
pub open spec fn epoch_reward(
    ledger: &Ledger,
    module: StakingModuleType,
    token: TokenId,
    score: u128,
    epoch: u64,
) -> nat {
    match ledger.reward_rate(epoch, module, token) {
        Some(rate) => (score * rate) as nat,
        None => 0,
    }
}

/// What `score` earns over the epochs after `from` up to and including `to`.
pub open spec fn unstored_rewards(
    ledger: &Ledger,
    module: StakingModuleType,
    token: TokenId,
    score: u128,
    from: u64,
    to: u64,
) -> nat
    decreases to,
{
    if to <= from {
        0
    } else {
        unstored_rewards(ledger, module, token, score, from, (to - 1) as u64) + epoch_reward(
            ledger,
            module,
            token,
            score,
            to,
        )
    }
}

/// The epoch up to which a staker's rewards count as folded in after
/// securing at `epoch`: the epoch itself where it has a rate already, the one
/// before where it has none yet, so that a later distribution in the same
/// epoch is still picked up.
pub open spec fn checkpoint_epoch(
    ledger: &Ledger,
    module: StakingModuleType,
    token: TokenId,
    epoch: u64,
) -> u64 {
    if ledger.reward_rate(epoch, module, token).is_none() && epoch > 0 {
        (epoch - 1) as u64
    } else {
        epoch
    }
}

/// The balance that `pending` holds of the token: zero where it has none.
pub open spec fn amount_in(pending: Map<TokenId, u128>, token: TokenId) -> u128 {
    if pending.contains_key(token) {
        pending[token]
    } else {
        0
    }
}

/// The pending balances and checkpoints of a staker with the scores `scores`
/// after the rewards of one token in one pool are folded in at `epoch`;
/// nothing where the balance would leave the range of `u128`.
pub open spec fn secured(
    ledger: &Ledger,
    scores: PerModule<u128>,
    state: (Map<TokenId, u128>, PerModule<u64>),
    module: StakingModuleType,
    token: TokenId,
    epoch: u64,
) -> Option<(Map<TokenId, u128>, PerModule<u64>)> {
    let total = amount_in(state.0, token) + unstored_rewards(
        ledger,
        module,
        token,
        scores.spec_get(module),
        state.1.spec_get(module),
        epoch,
    );
    if total <= u128::MAX {
        Some(
            (
                state.0.insert(token, total as u128),
                state.1.spec_set(module, checkpoint_epoch(ledger, module, token, epoch)),
            ),
        )
    } else {
        None
    }
}

/// The pending balances and checkpoints after the rewards of every pair of
/// `pairs` are folded in, one after the other; nothing where a balance
/// leaves the range of `u128` on the way.
pub open spec fn secured_all(
    ledger: &Ledger,
    scores: PerModule<u128>,
    state: (Map<TokenId, u128>, PerModule<u64>),
    pairs: Seq<RewardTokenMapping>,
    epoch: u64,
) -> Option<(Map<TokenId, u128>, PerModule<u64>)>
    decreases pairs.len(),
{
    if pairs.len() == 0 {
        Some(state)
    } else {
        match secured_all(ledger, scores, state, pairs.drop_last(), epoch) {
            Some(previous) => secured(
                ledger,
                scores,
                previous,
                pairs.last().staking_module_type,
                pairs.last().token_identifier,
                epoch,
            ),
            None => None,
        }
    }
}

/// The payments that empty `pending`: one for each reward token with a
/// balance, in the order in which `pairs` first names the tokens.
pub open spec fn pending_payments(pairs: Seq<RewardTokenMapping>, pending: Map<TokenId, u128>) -> Seq<
    TokenPayment,
>
    decreases pairs.len(),
{
    if pairs.len() == 0 {
        Seq::empty()
    } else {
        let earlier = pending_payments(pairs.drop_last(), pending);
        let token = pairs.last().token_identifier;
        if amount_in(pending, token) > 0 && !names_token(pairs.drop_last(), token) {
            earlier.push(
                TokenPayment {
                    token_identifier: token,
                    token_nonce: 0,
                    amount: amount_in(pending, token),
                },
            )
        } else {
            earlier
        }
    }
}

/// Some pair of `pairs` is of the token.
pub open spec fn names_token(pairs: Seq<RewardTokenMapping>, token: TokenId) -> bool {
    exists|i: int| 0 <= i < pairs.len() && (#[trigger] pairs[i]).token_identifier == token
}

/// `pending` with the balance of every token of `pairs` at zero.
pub open spec fn cleared(pairs: Seq<RewardTokenMapping>, pending: Map<TokenId, u128>) -> Map<
    TokenId,
    u128,
>
    decreases pairs.len(),
{
    if pairs.len() == 0 {
        pending
    } else {
        cleared(pairs.drop_last(), pending).insert(pairs.last().token_identifier, 0)
    }
}

/// A score of zero earns nothing.
pub proof fn lemma_unstored_rewards_of_zero(
    ledger: &Ledger,
    module: StakingModuleType,
    token: TokenId,
    from: u64,
    to: u64,
)
    ensures
        unstored_rewards(ledger, module, token, 0, from, to) == 0,
    decreases to,
{
    if to > from {
        lemma_unstored_rewards_of_zero(ledger, module, token, from, (to - 1) as u64);
    }
}

/// What is earned up to an epoch never exceeds what is earned up to a later
/// one.
pub proof fn lemma_unstored_rewards_grow(
    ledger: &Ledger,
    module: StakingModuleType,
    token: TokenId,
    score: u128,
    from: u64,
    middle: u64,
    to: u64,
)
    requires
        middle <= to,
    ensures
        unstored_rewards(ledger, module, token, score, from, middle) <= unstored_rewards(
            ledger,
            module,
            token,
            score,
            from,
            to,
        ),
    decreases to,
{
    if middle < to {
        if to > from {
            lemma_unstored_rewards_grow(ledger, module, token, score, from, middle, (to - 1) as u64);
        } else {
            assert(unstored_rewards(ledger, module, token, score, from, middle) == 0);
        }
    }
}

impl Ledger {
    /// What the staker has earned in the pool, in the token, over the epochs
    /// after the last one folded in, up to and including `epoch`: the
    /// staker's present score times the rate of each of those epochs that
    /// has one.
    pub open spec fn unstored_pending_rewards(
        &self,
        user: Address,
        token: TokenId,
        module: StakingModuleType,
        epoch: u64,
    ) -> nat {
        unstored_rewards(
            self,
            module,
            token,
            self.user_score(module, user),
            self.last_claimed_epoch(module, user),
            epoch,
        )
    }

    /// The pending balances of the staker: none where the ledger has no
    /// account for the address.
    pub open spec fn pending_map(&self, user: Address) -> Map<TokenId, u128> {
        if self.knows(user) {
            self.users@[user].pending_rewards@
        } else {
            Map::empty()
        }
    }

    /// The boosted score of the staker in every pool.
    pub open spec fn user_scores(&self, user: Address) -> PerModule<u128> {
        if self.knows(user) {
            self.users@[user].scores
        } else {
            PerModule::spec_filled(0u128)
        }
    }

    /// The checkpoint of the staker in every pool.
    pub open spec fn user_checkpoints(&self, user: Address) -> PerModule<u64> {
        if self.knows(user) {
            self.users@[user].last_claimed_epoch
        } else {
            PerModule::spec_filled(0u64)
        }
    }

    /// Between `before` and `self` nothing changed but the pending balances
    /// and the checkpoints of `user`, for whom `self` has an account.
    pub open spec fn only_rewards_changed(&self, before: &Ledger, user: Address) -> bool {
        &&& self.knows(user)
        &&& self.same_other_accounts(before, user)
        &&& self.same_config(before)
        &&& self.same_rates(before)
        &&& self.aggregated_scores == before.aggregated_scores
        &&& self.user_scores(user) == before.user_scores(user)
        &&& self.user_deb(user) == before.user_deb(user)
        &&& self.raw_user_scores(user) == before.raw_user_scores(user)
        &&& self.positions(user) == before.positions(user)
        &&& self.unbonding_assets(user) == before.unbonding_assets(user)
    }

    /// The staker's pending balances and checkpoints after every registered
    /// reward is folded in at `epoch`, in the order of registration.
    pub open spec fn secured_rewards(&self, user: Address, epoch: u64) -> Option<
        (Map<TokenId, u128>, PerModule<u64>),
    > {
        secured_all(
            self,
            self.user_scores(user),
            (self.pending_map(user), self.user_checkpoints(user)),
            self.reward_tokens@,
            epoch,
        )
    }
}

/// What `score` earns in the pool, in the token, over the epochs after
/// `from` up to and including `to`; where it fits.
pub fn compute_unstored_rewards(
    ledger: &Ledger,
    module: StakingModuleType,
    token: TokenId,
    score: u128,
    from: u64,
    to: u64,
) -> (reward: Option<u128>)
    ensures
        reward == fits(unstored_rewards(ledger, module, token, score, from, to)),
{
    if score == 0 {
        proof {
            lemma_unstored_rewards_of_zero(ledger, module, token, from, to);
        }
        return Some(0);
    }
    if to <= from {
        return Some(0);
    }
    let mut pending_reward: u128 = 0;
    let mut epoch: u64 = from;
    while epoch < to
        invariant
            from <= epoch <= to,
            pending_reward == unstored_rewards(ledger, module, token, score, from, epoch),
        decreases to - epoch,
    {
        epoch += 1;
        proof {
            lemma_unstored_rewards_grow(ledger, module, token, score, from, epoch, to);
        }
        match ledger.get_reward_rate(epoch, module, token) {
            Some(reward_rate) => {
                let earned = match checked_product(score, reward_rate) {
                    Some(earned) => earned,
                    None => {
                        return None;
                    },
                };
                pending_reward = match checked_sum(pending_reward, earned) {
                    Some(sum) => sum,
                    None => {
                        return None;
                    },
                };
            },
            None => {},
        }
    }
    Some(pending_reward)
}

/// What the staker has earned in the pool, in the token, since the last
/// epoch folded in; where it fits.
pub fn get_unstored_pending_rewards(
    ledger: &Ledger,
    address: Address,
    token_identifier: TokenId,
    staking_module: StakingModuleType,
    block_epoch: u64,
) -> (reward: Option<u128>)
    ensures
        reward == fits(
            ledger.unstored_pending_rewards(address, token_identifier, staking_module, block_epoch),
        ),
{
    let user_score = ledger.get_aggregated_user_staking_score(staking_module, address);
    let last_claimed_epoch = ledger.get_last_claimed_epoch(staking_module, address);
    compute_unstored_rewards(
        ledger,
        staking_module,
        token_identifier,
        user_score,
        last_claimed_epoch,
        block_epoch,
    )
}

/// What the staker could claim of the token on account of the pool: the
/// balance already folded in plus what was earned since; where it fits.
pub fn get_total_token_pending_reward(
    ledger: &Ledger,
    address: Address,
    token_identifier: TokenId,
    staking_module: StakingModuleType,
    block_epoch: u64,
) -> (reward: Option<u128>)
    ensures
        reward == fits(
            (ledger.pending_rewards(address, token_identifier) + ledger.unstored_pending_rewards(
                address,
                token_identifier,
                staking_module,
                block_epoch,
            )) as nat,
        ),
{
    let not_stored_amount = match get_unstored_pending_rewards(
        ledger,
        address,
        token_identifier,
        staking_module,
        block_epoch,
    ) {
        Some(amount) => amount,
        None => {
            return None;
        },
    };
    let stored_amount = ledger.get_pending_rewards(address, token_identifier);
    checked_sum(not_stored_amount, stored_amount)
}

/// The epoch to checkpoint at after securing at `block_epoch`.
pub fn get_checkpoint_epoch(
    ledger: &Ledger,
    staking_module: StakingModuleType,
    token_identifier: TokenId,
    block_epoch: u64,
) -> (epoch: u64)
    ensures
        epoch == checkpoint_epoch(ledger, staking_module, token_identifier, block_epoch),
{
    if ledger.get_reward_rate(block_epoch, staking_module, token_identifier).is_none()
        && block_epoch > 0 {
        block_epoch - 1
    } else {
        block_epoch
    }
}

/// Folds what the staker has earned in the pool, in the token, into the
/// claimable balance, and moves the pool's checkpoint.
///
/// Nothing else changes: no score, no other balance, no other staker. Where
/// the balance would leave the range of `u128` the ledger stays as it was.
pub fn secure_rewards(
    ledger: &mut Ledger,
    address: Address,
    token_identifier: TokenId,
    staking_module: StakingModuleType,
    block_epoch: u64,
) -> (result: Result<(), StakingError>)
    requires
        old(ledger).wf(),
    ensures
        final(ledger).wf(),
        match result {
            Ok(()) => {
                &&& secured(
                    old(ledger),
                    old(ledger).user_scores(address),
                    (old(ledger).pending_map(address), old(ledger).user_checkpoints(address)),
                    staking_module,
                    token_identifier,
                    block_epoch,
                ) == Some((final(ledger).pending_map(address), final(ledger).user_checkpoints(address)))
                &&& final(ledger).only_rewards_changed(old(ledger), address)
            },
            Err(error) => {
                &&& error == StakingError::ArithmeticOverflow
                &&& *final(ledger) == *old(ledger)
                &&& secured(
                    old(ledger),
                    old(ledger).user_scores(address),
                    (old(ledger).pending_map(address), old(ledger).user_checkpoints(address)),
                    staking_module,
                    token_identifier,
                    block_epoch,
                ).is_none()
            },
        },
{
    let pending_rewards = match get_total_token_pending_reward(
        ledger,
        address,
        token_identifier,
        staking_module,
        block_epoch,
    ) {
        Some(amount) => amount,
        None => {
            return Err(StakingError::ArithmeticOverflow);
        },
    };
    let checkpoint = get_checkpoint_epoch(ledger, staking_module, token_identifier, block_epoch);
    let ghost before = *ledger;
    let mut account = match ledger.users.remove(&address) {
        Some(account) => account,
        None => UserAccount::empty(),
    };
    account.last_claimed_epoch.set(staking_module, checkpoint);
    account.pending_rewards.insert(token_identifier, pending_rewards);
    ledger.users.insert(address, account);
    proof {
        assert(ledger.users@ =~= before.users@.insert(address, ledger.users@[address]));
        if before.knows(address) {
            assert(before.users@[address].wf());
        }
        Ledger::lemma_wf_after_account_update(&before, ledger, address);
    }
    Ok(())
}

/// The staker's pending balances and checkpoints after every registered
/// reward is folded in at `block_epoch`; nothing of the ledger changes.
pub fn secure_all_rewards(ledger: &Ledger, address: Address, block_epoch: u64) -> (secured: Option<
    (HashMap<TokenId, u128>, PerModule<u64>),
>)
    ensures
        match secured {
            Some((pending, checkpoints)) => ledger.secured_rewards(address, block_epoch) == Some(
                (pending@, checkpoints),
            ),
            None => ledger.secured_rewards(address, block_epoch).is_none(),
        },
{
    let (scores, mut pending, mut checkpoints) = match ledger.users.get(&address) {
        Some(account) => (
            account.scores,
            account.pending_rewards.clone(),
            account.last_claimed_epoch,
        ),
        None => (PerModule::filled(0u128), HashMap::new(), PerModule::filled(0u64)),
    };
    let ghost start = (pending@, checkpoints);
    let mut i: usize = 0;
    while i < ledger.reward_tokens.len()
        invariant
            i <= ledger.reward_tokens.len(),
            scores == ledger.user_scores(address),
            start == (ledger.pending_map(address), ledger.user_checkpoints(address)),
            secured_all(ledger, scores, start, ledger.reward_tokens@.take(i as int), block_epoch)
                == Some((pending@, checkpoints)),
        decreases ledger.reward_tokens.len() - i,
    {
        let pair = ledger.reward_tokens[i];
        let token = pair.token_identifier;
        let module = pair.staking_module_type;
        proof {
            assert(ledger.reward_tokens@.take(i + 1).drop_last() =~= ledger.reward_tokens@.take(
                i as int,
            ));
            lemma_secured_all_fails_on(
                ledger,
                scores,
                start,
                ledger.reward_tokens@,
                block_epoch,
                i + 1,
            );
        }
        let stored: u128 = match pending.get(&token) {
            Some(amount) => *amount,
            None => 0,
        };
        let unstored = match compute_unstored_rewards(
            ledger,
            module,
            token,
            scores.get(module),
            checkpoints.get(module),
            block_epoch,
        ) {
            Some(amount) => amount,
            None => {
                return None;
            },
        };
        let total = match checked_sum(stored, unstored) {
            Some(total) => total,
            None => {
                return None;
            },
        };
        let checkpoint = get_checkpoint_epoch(ledger, module, token, block_epoch);
        pending.insert(token, total);
        checkpoints.set(module, checkpoint);
        i += 1;
    }
    proof {
        assert(ledger.reward_tokens@.take(ledger.reward_tokens.len() as int)
            =~= ledger.reward_tokens@);
    }
    Some((pending, checkpoints))
}

/// Where folding fails on the first pairs it fails on all.
pub proof fn lemma_secured_all_fails_on(
    ledger: &Ledger,
    scores: PerModule<u128>,
    state: (Map<TokenId, u128>, PerModule<u64>),
    pairs: Seq<RewardTokenMapping>,
    epoch: u64,
    n: int,
)
    requires
        0 <= n <= pairs.len(),
    ensures
        secured_all(ledger, scores, state, pairs.take(n), epoch).is_none() ==> secured_all(
            ledger,
            scores,
            state,
            pairs,
            epoch,
        ).is_none(),
    decreases pairs.len(),
{
    if n == pairs.len() {
        assert(pairs.take(n) =~= pairs);
    } else {
        assert(pairs.drop_last().take(n) =~= pairs.take(n));
        lemma_secured_all_fails_on(ledger, scores, state, pairs.drop_last(), epoch, n);
    }
}

/// The payments that empty `pending`, one for each reward token with a
/// balance.
pub fn collect_pending_payments(pairs: &Vec<RewardTokenMapping>, pending: &HashMap<TokenId, u128>) -> (payments:
    Vec<TokenPayment>)
    ensures
        payments@ == pending_payments(pairs@, pending@),
{
    let mut payments: Vec<TokenPayment> = Vec::new();
    let mut i: usize = 0;
    while i < pairs.len()
        invariant
            i <= pairs.len(),
            payments@ == pending_payments(pairs@.take(i as int), pending@),
        decreases pairs.len() - i,
    {
        let token = pairs[i].token_identifier;
        let amount: u128 = match pending.get(&token) {
            Some(amount) => *amount,
            None => 0,
        };
        let mut named_before = false;
        let mut j: usize = 0;
        while j < i
            invariant
                j <= i < pairs.len(),
                named_before == names_token(pairs@.take(j as int), token),
            decreases i - j,
        {
            if pairs[j].token_identifier == token {
                named_before = true;
            }
            proof {
                let longer = pairs@.take(j + 1);
                let shorter = pairs@.take(j as int);
                if named_before {
                    if pairs[j as int].token_identifier == token {
                        assert(longer[j as int].token_identifier == token);
                    } else {
                        let k = choose|k: int|
                            0 <= k < shorter.len() && (#[trigger] shorter[k]).token_identifier
                                == token;
                        assert(longer[k].token_identifier == token);
                    }
                } else {
                    if names_token(longer, token) {
                        let k = choose|k: int|
                            0 <= k < longer.len() && (#[trigger] longer[k]).token_identifier
                                == token;
                        if k < j {
                            assert(shorter[k].token_identifier == token);
                        }
                    }
                }
            }
            j += 1;
        }
        proof {
            assert(pairs@.take(i + 1).drop_last() =~= pairs@.take(i as int));
        }
        if amount > 0 && !named_before {
            payments.push(TokenPayment::new(token, 0, amount));
        }
        i += 1;
    }
    proof {
        assert(pairs@.take(pairs.len() as int) =~= pairs@);
    }
    payments
}

/// Sets the balance of every token of `pairs` to zero.
pub fn clear_pending(pairs: &Vec<RewardTokenMapping>, pending: &mut HashMap<TokenId, u128>)
    ensures
        final(pending)@ == cleared(pairs@, old(pending)@),
{
    let mut i: usize = 0;
    while i < pairs.len()
        invariant
            i <= pairs.len(),
            pending@ == cleared(pairs@.take(i as int), old(pending)@),
        decreases pairs.len() - i,
    {
        proof {
            assert(pairs@.take(i + 1).drop_last() =~= pairs@.take(i as int));
        }
        pending.insert(pairs[i].token_identifier, 0);
        i += 1;
    }
    proof {
        assert(pairs@.take(pairs.len() as int) =~= pairs@);
    }
}

/// Writes the pending balances and the checkpoints of a staker.
fn store_rewards(
    ledger: &mut Ledger,
    address: Address,
    pending: HashMap<TokenId, u128>,
    checkpoints: PerModule<u64>,
)
    requires
        old(ledger).wf(),
    ensures
        final(ledger).wf(),
        final(ledger).pending_map(address) == pending@,
        final(ledger).user_checkpoints(address) == checkpoints,
        final(ledger).only_rewards_changed(old(ledger), address),
{
    let ghost before = *ledger;
    let mut account = match ledger.users.remove(&address) {
        Some(account) => account,
        None => UserAccount::empty(),
    };
    account.last_claimed_epoch = checkpoints;
    account.pending_rewards = pending;
    ledger.users.insert(address, account);
    proof {
        assert(ledger.users@ =~= before.users@.insert(address, ledger.users@[address]));
        if before.knows(address) {
            assert(before.users@[address].wf());
        }
        Ledger::lemma_wf_after_account_update(&before, ledger, address);
    }
}

/// What the staker can claim of the token on account of the pool, as a
/// payment; none where it is nothing.
///
/// With `store_rewards` the amount is folded into the claimable balance as
/// `secure_rewards` does; without it the ledger stays as it was. It also
/// stays as it was where there is nothing to claim or the amount leaves the
/// range of `u128`.
pub fn get_single_token_pending_reward_payment(
    ledger: &mut Ledger,
    address: Address,
    token_identifier: TokenId,
    store_rewards: bool,
    staking_module_type: StakingModuleType,
    block_epoch: u64,
) -> (result: Result<Option<TokenPayment>, StakingError>)
    requires
        old(ledger).wf(),
    ensures
        final(ledger).wf(),
        ({
            let total = old(ledger).pending_rewards(address, token_identifier) + old(
                ledger,
            ).unstored_pending_rewards(address, token_identifier, staking_module_type, block_epoch);
            match result {
                Err(error) => {
                    &&& error == StakingError::ArithmeticOverflow
                    &&& total > u128::MAX
                    &&& *final(ledger) == *old(ledger)
                },
                Ok(None) => total == 0 && *final(ledger) == *old(ledger),
                Ok(Some(payment)) => {
                    &&& 0 < total <= u128::MAX
                    &&& payment == (TokenPayment {
                        token_identifier,
                        token_nonce: 0,
                        amount: total as u128,
                    })
                    &&& if store_rewards {
                        &&& secured(
                            old(ledger),
                            old(ledger).user_scores(address),
                            (
                                old(ledger).pending_map(address),
                                old(ledger).user_checkpoints(address),
                            ),
                            staking_module_type,
                            token_identifier,
                            block_epoch,
                        ) == Some(
                            (
                                final(ledger).pending_map(address),
                                final(ledger).user_checkpoints(address),
                            ),
                        )
                        &&& final(ledger).only_rewards_changed(old(ledger), address)
                    } else {
                        *final(ledger) == *old(ledger)
                    }
                },
            }
        }),
{
    let pending_reward = match get_total_token_pending_reward(
        ledger,
        address,
        token_identifier,
        staking_module_type,
        block_epoch,
    ) {
        Some(amount) => amount,
        None => {
            return Err(StakingError::ArithmeticOverflow);
        },
    };
    if pending_reward == 0 {
        return Ok(None);
    }
    if store_rewards {
        match secure_rewards(ledger, address, token_identifier, staking_module_type, block_epoch) {
            Ok(()) => {},
            Err(error) => {
                return Err(error);
            },
        }
    }
    Ok(Some(TokenPayment::new(token_identifier, 0, pending_reward)))
}

/// What the staker can claim, as one payment for each reward token with a
/// balance, after every registered reward is folded in at `block_epoch`.
///
/// With `store_rewards` the folding is written to the ledger; without it the
/// ledger stays as it was, and the payments are those that a claim made now
/// would pay. Where a balance leaves the range of `u128` the ledger stays as
/// it was.
pub fn get_all_pending_rewards(
    ledger: &mut Ledger,
    address: Address,
    store_rewards: bool,
    block_epoch: u64,
) -> (result: Result<Vec<TokenPayment>, StakingError>)
    requires
        old(ledger).wf(),
    ensures
        final(ledger).wf(),
        match result {
            Err(error) => {
                &&& error == StakingError::ArithmeticOverflow
                &&& old(ledger).secured_rewards(address, block_epoch).is_none()
                &&& *final(ledger) == *old(ledger)
            },
            Ok(payments) => {
                &&& old(ledger).secured_rewards(address, block_epoch).is_some()
                &&& payments@ == pending_payments(
                    old(ledger).reward_tokens@,
                    old(ledger).secured_rewards(address, block_epoch).unwrap().0,
                )
                &&& if store_rewards {
                    &&& old(ledger).secured_rewards(address, block_epoch) == Some(
                        (final(ledger).pending_map(address), final(ledger).user_checkpoints(address)),
                    )
                    &&& final(ledger).only_rewards_changed(old(ledger), address)
                } else {
                    *final(ledger) == *old(ledger)
                }
            },
        },
{
    let (pending, checkpoints) = match secure_all_rewards(ledger, address, block_epoch) {
        Some(secured) => secured,
        None => {
            return Err(StakingError::ArithmeticOverflow);
        },
    };
    let pending_rewards = collect_pending_payments(&ledger.reward_tokens, &pending);
    if store_rewards {
        self::store_rewards(ledger, address, pending, checkpoints);
    }
    Ok(pending_rewards)
}

/// Folds every registered reward of the staker in at `block_epoch`, empties
/// the claimable balance of every reward token, and hands back what was in
/// them: one payment for each token that had a balance.
///
/// Where a balance leaves the range of `u128` the ledger stays as it was.
pub fn claim_all_pending_rewards(ledger: &mut Ledger, caller: Address, block_epoch: u64) -> (result:
    Result<Vec<TokenPayment>, StakingError>)
    requires
        old(ledger).wf(),
    ensures
        final(ledger).wf(),
        match result {
            Err(error) => {
                &&& error == StakingError::ArithmeticOverflow
                &&& old(ledger).secured_rewards(caller, block_epoch).is_none()
                &&& *final(ledger) == *old(ledger)
            },
            Ok(payments) => {
                &&& old(ledger).secured_rewards(caller, block_epoch).is_some()
                &&& payments@ == pending_payments(
                    old(ledger).reward_tokens@,
                    old(ledger).secured_rewards(caller, block_epoch).unwrap().0,
                )
                &&& final(ledger).pending_map(caller) == cleared(
                    old(ledger).reward_tokens@,
                    old(ledger).secured_rewards(caller, block_epoch).unwrap().0,
                )
                &&& final(ledger).user_checkpoints(caller) == old(ledger).secured_rewards(
                    caller,
                    block_epoch,
                ).unwrap().1
                &&& final(ledger).only_rewards_changed(old(ledger), caller)
            },
        },
{
    let (mut pending, checkpoints) = match secure_all_rewards(ledger, caller, block_epoch) {
        Some(secured) => secured,
        None => {
            return Err(StakingError::ArithmeticOverflow);
        },
    };
    let pending_rewards = collect_pending_payments(&ledger.reward_tokens, &pending);
    clear_pending(&ledger.reward_tokens, &mut pending);
    store_rewards(ledger, caller, pending, checkpoints);
    Ok(pending_rewards)
}

} // verus!
