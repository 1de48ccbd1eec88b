//! The ledger itself, and what makes it consistent.

use crate::constants::DEFAULT_UNBONDING_TIME_PENALTY;
use crate::math::{lemma_map_sum_empty, lemma_map_sum_bounds, lemma_map_sum_insert, map_sum};
use crate::staking_modules::staking_module_type::{PerModule, StakingModuleType};
use crate::storage::config::RewardTokenMapping;
use crate::storage::user_data::UserAccount;
use crate::types::{Address, TokenId};
use std::collections::HashMap;
use vstd::prelude::*;

verus! {

/// The whole state of the staking system.
///
/// Collections, reward tokens and accounts are known by number. The fields
/// are open to reading; only the methods keep them consistent.
pub struct Ledger {
    /// The pool that each registered collection stakes into.
    pub pool_types: HashMap<TokenId, StakingModuleType>,
    /// The reward tokens, each with a pool it can be distributed against, in
    /// the order of their registration.
    pub reward_tokens: Vec<RewardTokenMapping>,
    /// The token that rewards the primary pool.
    pub primary_reward_token: TokenId,
    /// The seconds that pass between an unbonding request and its claim.
    pub unbonding_time_penalty: u64,
    /// The default weight of one unit, by collection.
    pub base_scores: HashMap<TokenId, PerModule<u64>>,
    /// The weight of single nonces, by collection and nonce.
    pub nonce_scores: HashMap<u128, PerModule<Option<u64>>>,
    /// The bonus of a full set, by collection.
    pub full_set_scores: HashMap<TokenId, PerModule<u64>>,
    /// The stakers.
    pub users: HashMap<Address, UserAccount>,
    /// The sum of all boosted scores of each pool.
    pub aggregated_scores: PerModule<u128>,
    /// The reward per unit of score, by token and epoch.
    pub reward_rates: HashMap<u128, PerModule<Option<u128>>>,
    /// The time of each distribution, by token and epoch.
    pub distribution_timestamps: HashMap<u128, u64>,
}

/// No pair of token and pool occurs twice.
pub open spec fn pairs_unique(pairs: Seq<RewardTokenMapping>) -> bool {
    forall|i: int, j: int| 0 <= i < j < pairs.len() ==> pairs[i] != pairs[j]
}

impl Ledger {
    /// The boosted score of every staker in the pool.
    pub open spec fn score_map(&self, module: StakingModuleType) -> Map<Address, nat> {
        self.users@.map_values(|account: UserAccount| account.scores.spec_get(module) as nat)
    }

    /// The sum of every staker's boosted score in the pool.
    pub open spec fn total_user_score(&self, module: StakingModuleType) -> nat {
        map_sum(self.score_map(module))
    }

    /// The ledger is consistent: every account is, no reward pair is listed
    /// twice, and the aggregated score of each pool is the sum of every
    /// staker's boosted score in it.
    pub open spec fn wf(&self) -> bool {
        &&& forall|user: Address| #[trigger]
            self.users@.contains_key(user) ==> self.users@[user].wf()
        &&& pairs_unique(self.reward_tokens@)
        &&& forall|m: StakingModuleType| #[trigger]
            self.aggregated_scores.spec_get(m) as nat == self.total_user_score(m)
    }

    /// The configuration and the score table of both ledgers are the same.
    pub open spec fn same_config(&self, other: &Ledger) -> bool {
        &&& self.pool_types == other.pool_types
        &&& self.reward_tokens == other.reward_tokens
        &&& self.primary_reward_token == other.primary_reward_token
        &&& self.unbonding_time_penalty == other.unbonding_time_penalty
        &&& self.base_scores == other.base_scores
        &&& self.nonce_scores == other.nonce_scores
        &&& self.full_set_scores == other.full_set_scores
    }

    /// A consistent ledger stays consistent where neither the stakers, nor
    /// the aggregated scores, nor the reward tokens change.
    pub proof fn lemma_wf_same_accounts(before: &Ledger, after: &Ledger)
        requires
            before.wf(),
            after.users == before.users,
            after.aggregated_scores == before.aggregated_scores,
            pairs_unique(after.reward_tokens@),
        ensures
            after.wf(),
    {
        assert forall|m: StakingModuleType| #[trigger]
            after.aggregated_scores.spec_get(m) as nat == after.total_user_score(m) by {
            assert(after.score_map(m) == before.score_map(m));
            assert(before.aggregated_scores.spec_get(m) as nat == before.total_user_score(m));
        }
    }

    /// Both ledgers hold the same reward rates and distribution times.
    pub open spec fn same_rates(&self, other: &Ledger) -> bool {
        &&& self.reward_rates == other.reward_rates
        &&& self.distribution_timestamps == other.distribution_timestamps
    }

    /// Both ledgers hold the same of every staker but `user`, and `self` has
    /// an account for `user`.
    pub open spec fn same_other_accounts(&self, other: &Ledger, user: Address) -> bool {
        self.users@ == other.users@.insert(user, self.users@[user])
    }

    /// The aggregated score of each pool differs between the ledgers by what
    /// the score of `user` differs.
    pub open spec fn aggregate_follows(&self, other: &Ledger, user: Address) -> bool {
        forall|m: StakingModuleType| #[trigger]
            self.aggregated_scores.spec_get(m) + other.user_score(m, user)
                == other.aggregated_scores.spec_get(m) + self.user_score(m, user)
    }

    /// The ledger has finitely many stakers.
    pub proof fn lemma_score_map_finite(&self, module: StakingModuleType)
        ensures
            self.score_map(module).dom().finite(),
            self.score_map(module).dom() == self.users@.dom(),
    {
        vstd::std_specs::hash::axiom_hashmap_view_finite_dom(self.users);
        assert(self.score_map(module).dom() =~= self.users@.dom());
    }

    /// A consistent ledger stays consistent where one account is rewritten
    /// consistently and every aggregated score follows that staker's score.
    pub proof fn lemma_wf_after_account_update(before: &Ledger, after: &Ledger, user: Address)
        requires
            before.wf(),
            after.same_other_accounts(before, user),
            after.users@[user].wf(),
            after.reward_tokens@ == before.reward_tokens@,
            after.aggregate_follows(before, user),
        ensures
            after.wf(),
    {
        assert(after.users@.contains_key(user));
        assert forall|m: StakingModuleType| #[trigger]
            after.aggregated_scores.spec_get(m) as nat == after.total_user_score(m) by {
            let old_map = before.score_map(m);
            let new_score = after.users@[user].scores.spec_get(m) as nat;
            before.lemma_score_map_finite(m);
            assert(after.score_map(m) =~= old_map.insert(user, new_score));
            lemma_map_sum_insert(old_map, user, new_score);
            assert(before.aggregated_scores.spec_get(m) as nat == before.total_user_score(m));
            assert(after.aggregated_scores.spec_get(m) + before.user_score(m, user)
                == before.aggregated_scores.spec_get(m) + after.user_score(m, user));
        }
        assert forall|other: Address| #[trigger] after.users@.contains_key(other) implies after.users@[other].wf() by {
            if other != user {
                assert(before.users@.contains_key(other));
            }
        }
    }

    /// In a consistent ledger no staker's score exceeds the aggregated score
    /// of the pool.
    pub proof fn lemma_user_score_bounded(&self, module: StakingModuleType, user: Address)
        requires
            self.wf(),
        ensures
            self.user_score(module, user) <= self.aggregated_scores.spec_get(module),
    {
        assert(self.aggregated_scores.spec_get(module) as nat == self.total_user_score(module));
        if self.knows(user) {
            self.lemma_score_map_finite(module);
            lemma_map_sum_bounds(self.score_map(module), user);
        }
    }

    /// A ledger without stakers, pools or scores, in which
    /// `primary_reward_token_identifier` rewards the primary pool and
    /// unbonding takes three days.
    pub fn new(primary_reward_token_identifier: TokenId) -> (ledger: Ledger)
        ensures
            ledger.wf(),
            ledger.primary_reward_token == primary_reward_token_identifier,
            ledger.unbonding_time_penalty == DEFAULT_UNBONDING_TIME_PENALTY,
            ledger.reward_tokens@ == seq![
                RewardTokenMapping {
                    token_identifier: primary_reward_token_identifier,
                    staking_module_type: StakingModuleType::All,
                },
            ],
            ledger.pool_types@ == Map::<TokenId, StakingModuleType>::empty(),
            ledger.base_scores@ == Map::<TokenId, PerModule<u64>>::empty(),
            ledger.nonce_scores@ == Map::<u128, PerModule<Option<u64>>>::empty(),
            ledger.full_set_scores@ == Map::<TokenId, PerModule<u64>>::empty(),
            ledger.users@ == Map::<Address, UserAccount>::empty(),
            ledger.reward_rates@ == Map::<u128, PerModule<Option<u128>>>::empty(),
            ledger.distribution_timestamps@ == Map::<u128, u64>::empty(),
            forall|m: StakingModuleType| ledger.aggregated_scores.spec_get(m) == 0,
    {
        let mut reward_tokens: Vec<RewardTokenMapping> = Vec::new();
        reward_tokens.push(
            RewardTokenMapping {
                token_identifier: primary_reward_token_identifier,
                staking_module_type: StakingModuleType::All,
            },
        );
        let ledger = Ledger {
            pool_types: HashMap::new(),
            reward_tokens,
            primary_reward_token: primary_reward_token_identifier,
            unbonding_time_penalty: DEFAULT_UNBONDING_TIME_PENALTY,
            base_scores: HashMap::new(),
            nonce_scores: HashMap::new(),
            full_set_scores: HashMap::new(),
            users: HashMap::new(),
            aggregated_scores: PerModule::filled(0u128),
            reward_rates: HashMap::new(),
            distribution_timestamps: HashMap::new(),
        };
        proof {
            assert(ledger.reward_tokens@ =~= seq![
                RewardTokenMapping {
                    token_identifier: primary_reward_token_identifier,
                    staking_module_type: StakingModuleType::All,
                },
            ]);
            lemma_map_sum_empty();
            assert forall|m: StakingModuleType| #[trigger]
                ledger.aggregated_scores.spec_get(m) as nat == ledger.total_user_score(m) by {
                assert(ledger.score_map(m) =~= Map::<Address, nat>::empty());
            }
        }
        ledger
    }
}

} // verus!
