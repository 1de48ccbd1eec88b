use std::collections::HashMap;

use nft_staking::constants::{
    DEB_DENOMINATION, DEFAULT_UNBONDING_TIME_PENALTY, VESTA_CODING_DIVISION_FULL_SET_MAX_NONCE,
};
use nft_staking::errors::StakingError;
use nft_staking::ledger::Ledger;
use nft_staking::staking_modules::staking_module_type::StakingModuleType;
use nft_staking::types::nonce_qty_pair::NonceQtyPair;
use nft_staking::types::start_unbonding_payload::StartUnbondingPayload;
use nft_staking::types::token_payment::TokenPayment;

const NO_ERR_MSG: &str = "";
const ERR_FAILED_UNBONDING: &str = "Unbonding failed";
const ERR_ONE_TOKEN_ID_SUPPORTED: &str = "Only one token id is allowed per TX";
const ERR_NOTHING_TO_CLAIM: &str = "Nothing to claim";
const ERR_REWARD_ALREADY_DISTRIBUTED: &str = "Reward already distributed";

const NONCES_PER_TOKEN: u64 = 100;

const POOL1_TOKEN_ID: u64 = 1;
const POOL1_QUANTITY_PER_NONCE: u32 = 1;

const POOL2_TOKEN_ID: u64 = 2;
const POOL2_QUANTITY_PER_NONCE: u32 = 100;

const REWARD_TOKEN_ID: u64 = 10;
const SECONDARY_REWARD_TOKEN_ID_1: u64 = 11;

const USER_ADDRESS: u64 = 1;
const OTHER_STAKERS_ADDRESS: u64 = 2;
const OTHER_STAKERS_TOKEN_ID_BASE: u64 = 1_000;

type TransferAssetType = (u64, u64, u64);

fn new_nft_transfer(id: u64, nonce: u64, amount: u64) -> TransferAssetType {
    (id, nonce, amount)
}

struct ContractSetup {
    ledger: Ledger,
    user_address: u64,
    block_epoch: u64,
    block_timestamp: u64,
    user_balances: HashMap<(u64, u64), u128>,
}

impl ContractSetup {
    fn new() -> Self {
        let mut ledger = Ledger::new(REWARD_TOKEN_ID);
        ledger.set_base_asset_score(POOL1_TOKEN_ID, StakingModuleType::All, 1);

        let mut user_balances = HashMap::new();
        for nonce in 1..=NONCES_PER_TOKEN {
            user_balances.insert((POOL1_TOKEN_ID, nonce), POOL1_QUANTITY_PER_NONCE as u128);
            user_balances.insert((POOL2_TOKEN_ID, nonce), POOL2_QUANTITY_PER_NONCE as u128);
        }

        Self {
            ledger,
            user_address: USER_ADDRESS,
            block_epoch: 1,
            block_timestamp: 0,
            user_balances,
        }
    }

    fn set_block_epoch(&mut self, epoch: u64) {
        self.block_epoch = epoch;
    }

    fn set_block_timestamp(&mut self, timestamp: u64) {
        self.block_timestamp = timestamp;
    }

    fn receive(&mut self, payments: &[TokenPayment]) {
        for payment in payments {
            *self
                .user_balances
                .entry((payment.token_identifier, payment.token_nonce))
                .or_insert(0) += payment.amount;
        }
    }

    fn stake(&mut self, transfers: &[TransferAssetType], err_msg: &str) {
        let payments: Vec<TokenPayment> = transfers
            .iter()
            .map(|transfer| TokenPayment::new(transfer.0, transfer.1, transfer.2 as u128))
            .collect();
        let result = self
            .ledger
            .stake(self.user_address, &payments, self.block_epoch);
        if result.is_ok() {
            for payment in payments.iter() {
                let balance = self
                    .user_balances
                    .get_mut(&(payment.token_identifier, payment.token_nonce))
                    .unwrap();
                *balance -= payment.amount;
            }
        }
        Self::assert_tx_result(result, err_msg);
    }

    fn start_unbonding(&mut self, token_id: u64, nonce_qty_pairs: &[(u64, u64)], err_msg: &str) {
        let mut nonce_qty_vec = Vec::new();
        for nonce_qty_pair in nonce_qty_pairs {
            nonce_qty_vec.push(NonceQtyPair {
                nonce: nonce_qty_pair.0,
                quantity: nonce_qty_pair.1 as u128,
            });
        }
        let payload = StartUnbondingPayload {
            token_identifier: token_id,
            items: nonce_qty_vec,
        };
        let result = self.ledger.start_unbonding(
            self.user_address,
            payload,
            self.block_epoch,
            self.block_timestamp,
        );
        Self::assert_tx_result(result, err_msg);
    }

    fn claim_unbonded(&mut self, err_msg: &str) {
        let result = self
            .ledger
            .claim_unbonded(self.user_address, self.block_timestamp);
        if let Ok(payments) = &result {
            let payments = payments.clone();
            self.receive(&payments);
        }
        Self::assert_tx_result(result.map(|_| ()), err_msg);
    }

    fn assert_user_score(&mut self, module_type: StakingModuleType, expected_score: u64) {
        let user_score = self
            .ledger
            .get_aggregated_user_staking_score(module_type, self.user_address);
        assert_eq!(expected_score as u128, user_score);
    }

    fn set_token_score(&mut self, pool_type: StakingModuleType, token_id: u64, score: usize) {
        self.ledger
            .set_base_asset_score(token_id, pool_type, score as u64);
    }

    fn set_token_nonce_score(
        &mut self,
        staking_module: StakingModuleType,
        token_id: u64,
        nonce: u64,
        score: usize,
    ) {
        self.ledger
            .set_nonce_asset_score(token_id, staking_module, score as u64, &vec![nonce]);
    }

    fn set_full_set_score(&mut self, staking_module: StakingModuleType, token_id: u64, score: usize) {
        self.ledger
            .set_full_set_score(token_id, staking_module, score as u64);
    }

    fn set_stake_pool_type(&mut self, token_id: u64, pool_type: StakingModuleType) {
        self.ledger
            .register_new_staking_pool(token_id, pool_type)
            .unwrap();
    }

    fn register_token_as_eligible_reward_for_pool(
        &mut self,
        reward_token_id: u64,
        pool_type: StakingModuleType,
    ) {
        self.ledger
            .register_reward_token(reward_token_id, pool_type);
    }

    fn distribute_reward(&mut self, amount: u64, err_msg: &str) {
        let result = self.ledger.distribute_reward(
            TokenPayment::new(REWARD_TOKEN_ID, 0, amount as u128),
            self.block_epoch,
            self.block_timestamp,
        );
        Self::assert_tx_result(result, err_msg);
    }

    fn distribute_secondary_reward(
        &mut self,
        token_id: u64,
        target_token_id: u64,
        amount: u64,
        err_msg: &str,
    ) {
        let result = self.ledger.distribute_secondary_reward(
            target_token_id,
            TokenPayment::new(token_id, 0, amount as u128),
            self.block_epoch,
            self.block_timestamp,
        );
        Self::assert_tx_result(result, err_msg);
    }

    fn assert_pending_reward(&mut self, expected_amount: u64) {
        let pending_rewards_vec = self
            .ledger
            .get_pending_reward(self.user_address, self.block_epoch)
            .unwrap();
        let pending_rewards = match pending_rewards_vec.is_empty() {
            true => 0,
            false => pending_rewards_vec[0].amount,
        };
        assert_eq!(expected_amount as u128, pending_rewards);
    }

    fn assert_explicit_pending_reward(&mut self, reward_token_id: u64, expected_amount: u64) {
        let pending_rewards_vec = self
            .ledger
            .get_pending_reward(self.user_address, self.block_epoch)
            .unwrap();
        let mut found_pending_rewards = 0;
        for pending_rew_it in pending_rewards_vec.iter() {
            if pending_rew_it.token_identifier == reward_token_id {
                found_pending_rewards = pending_rew_it.amount;
                break;
            }
        }
        assert_eq!(expected_amount as u128, found_pending_rewards);
    }

    // Other stakers stake as much as it takes to bring the aggregated score
    // of the pool to `score`.
    fn set_aggregated_score(&mut self, module_type: StakingModuleType, score: u64) {
        let current = self.ledger.get_aggregated_staking_score(module_type);
        assert!(current <= score as u128);
        let missing = score as u128 - current;
        if missing == 0 {
            return;
        }
        let token_id = OTHER_STAKERS_TOKEN_ID_BASE + module_type.code() as u64;
        if self
            .ledger
            .get_staking_pool_type_configuration(token_id)
            .is_none()
        {
            let pool_type = match module_type {
                StakingModuleType::All => StakingModuleType::Bloodshed,
                _ => module_type,
            };
            self.ledger
                .register_new_staking_pool(token_id, pool_type)
                .unwrap();
            self.ledger.set_base_asset_score(token_id, module_type, 1);
        }
        self.ledger
            .stake(
                OTHER_STAKERS_ADDRESS,
                &vec![TokenPayment::new(token_id, 1, missing)],
                self.block_epoch,
            )
            .unwrap();
        assert_eq!(
            score as u128,
            self.ledger.get_aggregated_staking_score(module_type)
        );
    }

    fn assert_reward_rate(
        &mut self,
        staking_module: StakingModuleType,
        token_id: u64,
        epoch: u64,
        expected_amount: u64,
    ) {
        let reward_rate = self
            .ledger
            .get_reward_rate(epoch, staking_module, token_id)
            .unwrap_or(0);
        assert_eq!(expected_amount as u128, reward_rate);
    }

    fn claim_rewards(&mut self, err_msg: &str) {
        let result = self
            .ledger
            .claim_rewards(self.user_address, self.block_epoch);
        if let Ok(payments) = &result {
            let payments = payments.clone();
            self.receive(&payments);
        }
        Self::assert_tx_result(result.map(|_| ()), err_msg);
    }

    fn assert_user_token_balance(&mut self, token_id: u64, token_nonce: u64, expected_balance: u64) {
        let balance = self
            .user_balances
            .get(&(token_id, token_nonce))
            .copied()
            .unwrap_or(0);
        assert_eq!(expected_balance as u128, balance);
    }

    fn assert_user_nft_balance(&mut self, token_id: u64, token_nonce: u64, expected_balance: u64) {
        self.assert_user_token_balance(token_id, token_nonce, expected_balance);
    }

    fn update_user_deb(&mut self, new_deb: u64) {
        self.ledger
            .update_deb(self.user_address, new_deb as u128, self.block_epoch)
            .unwrap();
    }

    fn assert_stored_rewards(&mut self, expected_amount: u64) {
        let stored_pending_rewards = self
            .ledger
            .get_pending_rewards(self.user_address, REWARD_TOKEN_ID);
        assert_eq!(expected_amount as u128, stored_pending_rewards);
    }

    fn assert_aggregated_score(&mut self, staking_module: StakingModuleType, expected_score: u64) {
        let aggregated_score = self.ledger.get_aggregated_staking_score(staking_module);
        assert_eq!(expected_score as u128, aggregated_score);
    }

    fn assert_tx_result(tx_result: Result<(), StakingError>, err_msg: &str) {
        if err_msg == NO_ERR_MSG {
            assert_eq!(Ok(()), tx_result);
            return;
        }
        match tx_result {
            Ok(()) => panic!("the call went through; expected: {}", err_msg),
            Err(error) => assert_eq!(err_msg, error.message()),
        }
    }
}

// ---- claim rewards ----

#[test]
fn successful_claim_rewards() {
    let aggregated_score = 100_000;
    let reward = 100_000;
    let single_nft_score = 100;

    let mut setup = ContractSetup::new();
    let transfers = vec![new_nft_transfer(POOL1_TOKEN_ID, 1, 1)];
    setup.set_token_score(StakingModuleType::All, POOL1_TOKEN_ID, single_nft_score);
    setup.set_stake_pool_type(POOL1_TOKEN_ID, StakingModuleType::XBunnies);
    setup.stake(&transfers, NO_ERR_MSG);

    setup.set_aggregated_score(StakingModuleType::All, aggregated_score);
    setup.distribute_reward(reward, NO_ERR_MSG);

    let expected_reward = reward * single_nft_score as u64 / aggregated_score;

    setup.assert_pending_reward(expected_reward);
    setup.claim_rewards(NO_ERR_MSG);
    setup.assert_pending_reward(0);
    setup.assert_user_token_balance(REWARD_TOKEN_ID, 0, expected_reward);
}

#[test]
fn double_claim_rewards_fail() {
    let mut setup = ContractSetup::new();
    let transfers = vec![new_nft_transfer(POOL1_TOKEN_ID, 1, 1)];
    setup.set_token_score(StakingModuleType::All, POOL1_TOKEN_ID, 100);
    setup.set_stake_pool_type(POOL1_TOKEN_ID, StakingModuleType::XBunnies);
    setup.stake(&transfers, NO_ERR_MSG);

    setup.distribute_reward(100_000, NO_ERR_MSG);
    setup.claim_rewards(NO_ERR_MSG);
    setup.claim_rewards(ERR_NOTHING_TO_CLAIM);
}

#[test]
fn all_epochs_claimed() {
    let distributed_reward = 100_000;
    let mut setup = ContractSetup::new();
    let transfers = vec![new_nft_transfer(POOL1_TOKEN_ID, 1, 1)];
    setup.set_token_score(StakingModuleType::All, POOL1_TOKEN_ID, 100);
    setup.set_stake_pool_type(POOL1_TOKEN_ID, StakingModuleType::XBunnies);
    setup.stake(&transfers, NO_ERR_MSG);

    setup.distribute_reward(distributed_reward, NO_ERR_MSG);

    for epoch in 2..=10 {
        setup.set_block_epoch(epoch);
        setup.distribute_reward(distributed_reward, NO_ERR_MSG);
    }

    setup.claim_rewards(NO_ERR_MSG);
    setup.assert_pending_reward(0);
    setup.assert_user_token_balance(REWARD_TOKEN_ID, 0, 10 * distributed_reward);
}

#[test]
fn not_distributed_epoch_not_claimed() {
    let mut setup = ContractSetup::new();
    let transfers = vec![new_nft_transfer(POOL1_TOKEN_ID, 1, 1)];
    setup.set_token_score(StakingModuleType::All, POOL1_TOKEN_ID, 100);
    setup.set_stake_pool_type(POOL1_TOKEN_ID, StakingModuleType::XBunnies);
    setup.stake(&transfers, NO_ERR_MSG);

    setup.distribute_reward(100_000, NO_ERR_MSG);
    setup.set_block_epoch(2);
    setup.claim_rewards(NO_ERR_MSG);
    setup.distribute_reward(100_000, NO_ERR_MSG);
    setup.assert_pending_reward(100_000);
}

#[test]
fn mixed_rewards_claim_successful() {
    let mut setup = ContractSetup::new();
    let transfer = vec![new_nft_transfer(POOL1_TOKEN_ID, 1, 1)];

    setup.set_stake_pool_type(POOL1_TOKEN_ID, StakingModuleType::XBunnies);
    setup.set_token_score(StakingModuleType::All, POOL1_TOKEN_ID, 1);
    setup.set_token_score(StakingModuleType::XBunnies, POOL1_TOKEN_ID, 1);
    setup.register_token_as_eligible_reward_for_pool(
        SECONDARY_REWARD_TOKEN_ID_1,
        StakingModuleType::XBunnies,
    );

    setup.stake(&transfer, NO_ERR_MSG);

    setup.distribute_reward(100_000, NO_ERR_MSG);
    setup.distribute_secondary_reward(
        SECONDARY_REWARD_TOKEN_ID_1,
        POOL1_TOKEN_ID,
        100_000,
        NO_ERR_MSG,
    );

    setup.claim_rewards(NO_ERR_MSG);

    setup.assert_user_token_balance(REWARD_TOKEN_ID, 0, 100_000);
    setup.assert_user_token_balance(SECONDARY_REWARD_TOKEN_ID_1, 0, 100_000);
}

#[test]
fn mixed_partial_rewards_claim_successful() {
    let reward_amount = 100_000;
    let aggregated_score = 10;
    let user_score_general_reward = 1;
    let user_score_secondary_reward = 2;

    let mut setup = ContractSetup::new();
    let transfer = vec![new_nft_transfer(POOL1_TOKEN_ID, 1, 1)];

    setup.set_stake_pool_type(POOL1_TOKEN_ID, StakingModuleType::XBunnies);
    setup.set_token_score(
        StakingModuleType::All,
        POOL1_TOKEN_ID,
        user_score_general_reward,
    );
    setup.set_token_score(
        StakingModuleType::XBunnies,
        POOL1_TOKEN_ID,
        user_score_secondary_reward,
    );
    setup.register_token_as_eligible_reward_for_pool(
        SECONDARY_REWARD_TOKEN_ID_1,
        StakingModuleType::XBunnies,
    );

    setup.stake(&transfer, NO_ERR_MSG);

    setup.set_aggregated_score(StakingModuleType::All, aggregated_score);
    setup.set_aggregated_score(StakingModuleType::XBunnies, aggregated_score);
    setup.distribute_reward(reward_amount, NO_ERR_MSG);
    setup.distribute_secondary_reward(
        SECONDARY_REWARD_TOKEN_ID_1,
        POOL1_TOKEN_ID,
        reward_amount,
        NO_ERR_MSG,
    );

    setup.claim_rewards(NO_ERR_MSG);

    let expected_primary_token_amount =
        reward_amount * user_score_general_reward as u64 / aggregated_score;
    let expected_secondary_token_amount =
        reward_amount * user_score_secondary_reward as u64 / aggregated_score;

    setup.assert_user_token_balance(REWARD_TOKEN_ID, 0, expected_primary_token_amount);
    setup.assert_user_token_balance(
        SECONDARY_REWARD_TOKEN_ID_1,
        0,
        expected_secondary_token_amount,
    );
}

// ---- distribute reward ----

#[test]
fn simple_successful_primary_distribution() {
    let mut setup = ContractSetup::new();
    let transfers = vec![new_nft_transfer(POOL1_TOKEN_ID, 1, 1)];
    setup.set_token_score(StakingModuleType::All, POOL1_TOKEN_ID, 1);
    setup.set_stake_pool_type(POOL1_TOKEN_ID, StakingModuleType::XBunnies);
    setup.stake(&transfers, NO_ERR_MSG);

    setup.distribute_reward(100_000, NO_ERR_MSG);
    setup.assert_pending_reward(100_000);
}

#[test]
fn double_primary_distribution_fails() {
    let mut setup = ContractSetup::new();
    let transfers = vec![new_nft_transfer(POOL1_TOKEN_ID, 1, 1)];
    setup.set_token_score(StakingModuleType::All, POOL1_TOKEN_ID, 1);
    setup.set_stake_pool_type(POOL1_TOKEN_ID, StakingModuleType::XBunnies);
    setup.stake(&transfers, NO_ERR_MSG);

    setup.distribute_reward(100_000, NO_ERR_MSG);
    setup.distribute_reward(100_000, ERR_REWARD_ALREADY_DISTRIBUTED);
}

#[test]
fn primary_distribution_reward_rate_correct_calculation() {
    let reward = 100_000u64;
    let aggregated_score = 100u64;
    let mut setup = ContractSetup::new();

    let reward_rate = reward / aggregated_score;
    setup.set_aggregated_score(StakingModuleType::All, aggregated_score);
    setup.distribute_reward(reward, NO_ERR_MSG);

    setup.assert_reward_rate(StakingModuleType::All, REWARD_TOKEN_ID, 1, reward_rate);
}

#[test]
fn simple_successful_secondary_distribution() {
    let mut setup = ContractSetup::new();
    let transfers = vec![new_nft_transfer(POOL2_TOKEN_ID, 1, 1)];
    setup.set_token_score(StakingModuleType::SnakesSfts, POOL2_TOKEN_ID, 1);
    setup.set_stake_pool_type(POOL2_TOKEN_ID, StakingModuleType::SnakesSfts);
    setup.stake(&transfers, NO_ERR_MSG);

    setup.register_token_as_eligible_reward_for_pool(
        SECONDARY_REWARD_TOKEN_ID_1,
        StakingModuleType::SnakesSfts,
    );

    setup.distribute_secondary_reward(
        SECONDARY_REWARD_TOKEN_ID_1,
        POOL2_TOKEN_ID,
        100_000,
        NO_ERR_MSG,
    );
    setup.assert_explicit_pending_reward(SECONDARY_REWARD_TOKEN_ID_1, 100_000);
}

#[test]
fn secondary_distribution_reward_rate_correct_calculation() {
    let reward = 100_000u64;
    let aggregated_score = 100u64;
    let mut setup = ContractSetup::new();
    setup.set_stake_pool_type(POOL2_TOKEN_ID, StakingModuleType::SnakesSfts);
    setup.set_aggregated_score(StakingModuleType::SnakesSfts, aggregated_score);
    setup.register_token_as_eligible_reward_for_pool(
        SECONDARY_REWARD_TOKEN_ID_1,
        StakingModuleType::SnakesSfts,
    );

    let reward_rate = reward / aggregated_score;

    setup.distribute_secondary_reward(
        SECONDARY_REWARD_TOKEN_ID_1,
        POOL2_TOKEN_ID,
        100_000,
        NO_ERR_MSG,
    );

    setup.assert_reward_rate(
        StakingModuleType::SnakesSfts,
        SECONDARY_REWARD_TOKEN_ID_1,
        1,
        reward_rate,
    );
}

#[test]
fn mixed_successful_distribution() {
    let primary_reward_amount = 100_000u64;
    let primary_aggregated_score = 100u64;
    let primary_user_score = 10u64;

    let secondary_reward_amount = 200_000u64;
    let secondary_aggregated_score = 10u64;
    let secondary_user_score = 2u64;

    let mut setup = ContractSetup::new();
    setup.set_stake_pool_type(POOL1_TOKEN_ID, StakingModuleType::XBunnies);
    setup.set_token_score(
        StakingModuleType::All,
        POOL1_TOKEN_ID,
        primary_user_score as usize,
    );

    setup.set_stake_pool_type(POOL2_TOKEN_ID, StakingModuleType::SnakesSfts);
    setup.set_token_score(
        StakingModuleType::SnakesSfts,
        POOL2_TOKEN_ID,
        secondary_user_score as usize,
    );
    setup.register_token_as_eligible_reward_for_pool(
        SECONDARY_REWARD_TOKEN_ID_1,
        StakingModuleType::SnakesSfts,
    );

    let primary_transfer = vec![new_nft_transfer(POOL1_TOKEN_ID, 1, 1)];
    let secondary_transfer = vec![new_nft_transfer(POOL2_TOKEN_ID, 1, 1)];
    setup.stake(&primary_transfer, NO_ERR_MSG);
    setup.stake(&secondary_transfer, NO_ERR_MSG);

    setup.set_aggregated_score(StakingModuleType::All, primary_aggregated_score);
    setup.set_aggregated_score(StakingModuleType::SnakesSfts, secondary_aggregated_score);
    setup.distribute_reward(primary_reward_amount, NO_ERR_MSG);
    setup.distribute_secondary_reward(
        SECONDARY_REWARD_TOKEN_ID_1,
        POOL2_TOKEN_ID,
        secondary_reward_amount,
        NO_ERR_MSG,
    );

    let expected_primary_reward =
        primary_reward_amount * primary_user_score / primary_aggregated_score;
    let expected_secondary_reward =
        secondary_reward_amount * secondary_user_score / secondary_aggregated_score;

    setup.assert_aggregated_score(StakingModuleType::All, primary_aggregated_score);
    setup.assert_aggregated_score(StakingModuleType::SnakesSfts, secondary_aggregated_score);

    setup.assert_user_score(StakingModuleType::All, primary_user_score);
    setup.assert_user_score(StakingModuleType::SnakesSfts, secondary_user_score);

    setup.assert_pending_reward(expected_primary_reward);
    setup.assert_explicit_pending_reward(SECONDARY_REWARD_TOKEN_ID_1, expected_secondary_reward);
}

// ---- score update ----

#[test]
fn update_deb_triggers_secure_rewards() {
    let mut setup = ContractSetup::new();
    let transfers = vec![new_nft_transfer(POOL1_TOKEN_ID, 1, 1)];
    setup.set_token_score(StakingModuleType::All, POOL1_TOKEN_ID, 1);
    setup.set_stake_pool_type(POOL1_TOKEN_ID, StakingModuleType::XBunnies);
    setup.stake(&transfers, NO_ERR_MSG);
    setup.set_aggregated_score(StakingModuleType::All, 10);
    setup.distribute_reward(100_000, NO_ERR_MSG);
    setup.assert_pending_reward(10_000);

    setup.update_user_deb(2 * DEB_DENOMINATION);
    setup.assert_stored_rewards(10_000);
}

#[test]
fn update_deb_updates_user_score() {
    let mut setup = ContractSetup::new();
    let transfers = vec![new_nft_transfer(POOL1_TOKEN_ID, 1, 1)];
    setup.set_token_score(StakingModuleType::All, POOL1_TOKEN_ID, 1);
    setup.set_stake_pool_type(POOL1_TOKEN_ID, StakingModuleType::XBunnies);
    setup.stake(&transfers, NO_ERR_MSG);

    setup.update_user_deb(2 * DEB_DENOMINATION);
    setup.assert_user_score(StakingModuleType::All, 2);
}

#[test]
fn update_deb_updates_general_score() {
    let mut setup = ContractSetup::new();
    let transfers = vec![new_nft_transfer(POOL1_TOKEN_ID, 1, 1)];
    setup.set_token_score(StakingModuleType::All, POOL1_TOKEN_ID, 1);
    setup.set_stake_pool_type(POOL1_TOKEN_ID, StakingModuleType::XBunnies);
    setup.stake(&transfers, NO_ERR_MSG);

    setup.update_user_deb(2 * DEB_DENOMINATION);
    setup.assert_aggregated_score(StakingModuleType::All, 2);
}

#[test]
fn update_deb_with_score_zero_success() {
    let mut setup = ContractSetup::new();

    setup.update_user_deb(2 * DEB_DENOMINATION);
    setup.assert_aggregated_score(StakingModuleType::All, 0);
}

// ---- stake ----

#[test]
fn single_successful_stake() {
    let mut setup = ContractSetup::new();
    setup.set_stake_pool_type(POOL1_TOKEN_ID, StakingModuleType::XBunnies);

    let transfers = vec![new_nft_transfer(POOL1_TOKEN_ID, 1, 1)];
    setup.stake(&transfers, NO_ERR_MSG);
}

#[test]
fn multiple_transfer_successful_stake() {
    let mut setup = ContractSetup::new();
    setup.set_stake_pool_type(POOL1_TOKEN_ID, StakingModuleType::XBunnies);

    let transfers = vec![
        new_nft_transfer(POOL1_TOKEN_ID, 1, 1),
        new_nft_transfer(POOL1_TOKEN_ID, 2, 1),
        new_nft_transfer(POOL1_TOKEN_ID, 3, 1),
    ];
    setup.stake(&transfers, NO_ERR_MSG);
}

#[test]
fn different_token_id_failed_stake() {
    let mut setup = ContractSetup::new();
    setup.set_stake_pool_type(POOL1_TOKEN_ID, StakingModuleType::XBunnies);

    let transfers = vec![
        new_nft_transfer(POOL1_TOKEN_ID, 1, 1),
        new_nft_transfer(POOL1_TOKEN_ID, 2, 1),
        new_nft_transfer(POOL2_TOKEN_ID, 3, 1),
    ];
    setup.stake(&transfers, ERR_ONE_TOKEN_ID_SUPPORTED);
}

#[test]
fn regular_stake_updates_user_score() {
    let mut setup = ContractSetup::new();
    setup.set_stake_pool_type(POOL1_TOKEN_ID, StakingModuleType::XBunnies);
    setup.set_token_score(StakingModuleType::All, POOL1_TOKEN_ID, 1);

    let transfers = vec![new_nft_transfer(POOL1_TOKEN_ID, 1, 1)];
    setup.stake(&transfers, NO_ERR_MSG);
    setup.assert_user_score(StakingModuleType::All, 1);
}

#[test]
fn regular_stake_updates_general_score() {
    let mut setup = ContractSetup::new();
    setup.set_stake_pool_type(POOL1_TOKEN_ID, StakingModuleType::XBunnies);
    setup.set_token_score(StakingModuleType::All, POOL1_TOKEN_ID, 1);

    let transfers = vec![new_nft_transfer(POOL1_TOKEN_ID, 1, 1)];
    setup.stake(&transfers, NO_ERR_MSG);
    setup.assert_aggregated_score(StakingModuleType::All, 1);
}

#[test]
fn secondary_pool_stake_updates_user_score() {
    let mut setup = ContractSetup::new();
    setup.set_stake_pool_type(POOL2_TOKEN_ID, StakingModuleType::SnakesSfts);
    setup.set_token_score(StakingModuleType::SnakesSfts, POOL2_TOKEN_ID, 1);

    let transfers = vec![new_nft_transfer(POOL2_TOKEN_ID, 1, 1)];
    setup.stake(&transfers, NO_ERR_MSG);
    setup.assert_user_score(StakingModuleType::SnakesSfts, 1);
}

#[test]
fn secondary_pool_stake_updates_general_score() {
    let mut setup = ContractSetup::new();
    setup.set_stake_pool_type(POOL2_TOKEN_ID, StakingModuleType::SnakesSfts);
    setup.set_token_score(StakingModuleType::SnakesSfts, POOL2_TOKEN_ID, 1);

    let transfers = vec![new_nft_transfer(POOL2_TOKEN_ID, 1, 1)];
    setup.stake(&transfers, NO_ERR_MSG);
    setup.assert_aggregated_score(StakingModuleType::SnakesSfts, 1);
}

#[test]
fn one_collection_with_multiple_rewards_updates_all_scores() {
    let mut setup = ContractSetup::new();
    setup.set_stake_pool_type(POOL1_TOKEN_ID, StakingModuleType::XBunnies);
    setup.set_token_score(StakingModuleType::All, POOL1_TOKEN_ID, 1);
    setup.set_token_score(StakingModuleType::XBunnies, POOL1_TOKEN_ID, 1);

    let transfers = vec![new_nft_transfer(POOL1_TOKEN_ID, 1, 1)];
    setup.stake(&transfers, NO_ERR_MSG);
    setup.assert_user_score(StakingModuleType::All, 1);
    setup.assert_user_score(StakingModuleType::XBunnies, 1);
}

#[test]
fn multiple_collections_only_with_primary_reward_updates_all_scores() {
    let mut setup = ContractSetup::new();
    setup.set_stake_pool_type(POOL1_TOKEN_ID, StakingModuleType::XBunnies);
    setup.set_stake_pool_type(POOL2_TOKEN_ID, StakingModuleType::Bloodshed);
    setup.set_token_score(StakingModuleType::All, POOL1_TOKEN_ID, 1);
    setup.set_token_score(StakingModuleType::All, POOL2_TOKEN_ID, 1);

    let transfers_1 = vec![new_nft_transfer(POOL1_TOKEN_ID, 1, 1)];
    let transfers_2 = vec![new_nft_transfer(POOL2_TOKEN_ID, 1, 1)];
    setup.stake(&transfers_1, NO_ERR_MSG);
    setup.stake(&transfers_2, NO_ERR_MSG);

    setup.assert_user_score(StakingModuleType::All, 2);
}

#[test]
fn multiple_collections_with_multiple_rewards_updates_all_scores() {
    let mut setup = ContractSetup::new();
    setup.set_stake_pool_type(POOL1_TOKEN_ID, StakingModuleType::XBunnies);
    setup.set_stake_pool_type(POOL2_TOKEN_ID, StakingModuleType::Bloodshed);
    setup.set_token_score(StakingModuleType::XBunnies, POOL1_TOKEN_ID, 1);
    setup.set_token_score(StakingModuleType::Bloodshed, POOL2_TOKEN_ID, 2);
    setup.set_token_score(StakingModuleType::All, POOL1_TOKEN_ID, 100);
    setup.set_token_score(StakingModuleType::All, POOL2_TOKEN_ID, 200);

    let transfers_1 = vec![new_nft_transfer(POOL1_TOKEN_ID, 1, 1)];
    let transfers_2 = vec![new_nft_transfer(POOL2_TOKEN_ID, 1, 1)];

    setup.stake(&transfers_1, NO_ERR_MSG);
    setup.stake(&transfers_2, NO_ERR_MSG);

    setup.assert_user_score(StakingModuleType::XBunnies, 1);
    setup.assert_user_score(StakingModuleType::Bloodshed, 2);
    setup.assert_user_score(StakingModuleType::All, 300);
}

#[test]
fn stake_top_up_updates_score_correctly() {
    let mut setup = ContractSetup::new();
    setup.set_stake_pool_type(POOL1_TOKEN_ID, StakingModuleType::XBunnies);
    setup.set_token_score(StakingModuleType::All, POOL1_TOKEN_ID, 1);

    let transfers_1 = vec![new_nft_transfer(POOL1_TOKEN_ID, 1, 1)];
    setup.stake(&transfers_1, NO_ERR_MSG);
    setup.assert_user_score(StakingModuleType::All, 1);

    let transfers_2 = vec![new_nft_transfer(POOL1_TOKEN_ID, 2, 1)];
    setup.stake(&transfers_2, NO_ERR_MSG);
    setup.assert_user_score(StakingModuleType::All, 2);
}

#[test]
fn stake_top_up_with_different_score_nfts_updates_score_correctly() {
    let mut setup = ContractSetup::new();
    setup.set_stake_pool_type(POOL1_TOKEN_ID, StakingModuleType::XBunnies);
    setup.set_token_score(StakingModuleType::All, POOL1_TOKEN_ID, 1);
    setup.set_token_nonce_score(StakingModuleType::All, POOL1_TOKEN_ID, 2, 100);

    let transfers_1 = vec![new_nft_transfer(POOL1_TOKEN_ID, 1, 1)];
    setup.stake(&transfers_1, NO_ERR_MSG);
    setup.assert_user_score(StakingModuleType::All, 1);

    let transfers_2 = vec![new_nft_transfer(POOL1_TOKEN_ID, 2, 1)];
    setup.stake(&transfers_2, NO_ERR_MSG);
    setup.assert_user_score(StakingModuleType::All, 101);
}

// ---- unbonding ----

#[test]
fn single_successful_unbonding() {
    let mut setup = ContractSetup::new();
    let transfers = vec![new_nft_transfer(POOL1_TOKEN_ID, 1, 1)];
    setup.set_stake_pool_type(POOL1_TOKEN_ID, StakingModuleType::XBunnies);
    setup.stake(&transfers, NO_ERR_MSG);

    setup.start_unbonding(POOL1_TOKEN_ID, &[(1, 1)], NO_ERR_MSG);
}

#[test]
fn partial_stake_successful_unbonding() {
    let mut setup = ContractSetup::new();
    let transfers = vec![
        new_nft_transfer(POOL1_TOKEN_ID, 1, 1),
        new_nft_transfer(POOL1_TOKEN_ID, 2, 1),
        new_nft_transfer(POOL1_TOKEN_ID, 3, 1),
    ];
    setup.set_stake_pool_type(POOL1_TOKEN_ID, StakingModuleType::XBunnies);
    setup.stake(&transfers, NO_ERR_MSG);

    setup.start_unbonding(POOL1_TOKEN_ID, &[(1, 1), (2, 1)], NO_ERR_MSG);
}

#[test]
fn full_stake_successful_unbonding() {
    let mut setup = ContractSetup::new();
    let transfers = vec![
        new_nft_transfer(POOL1_TOKEN_ID, 1, 1),
        new_nft_transfer(POOL1_TOKEN_ID, 2, 1),
        new_nft_transfer(POOL1_TOKEN_ID, 3, 1),
    ];
    setup.set_stake_pool_type(POOL1_TOKEN_ID, StakingModuleType::XBunnies);
    setup.stake(&transfers, NO_ERR_MSG);

    setup.start_unbonding(POOL1_TOKEN_ID, &[(1, 1), (2, 1), (3, 1)], NO_ERR_MSG);
}

#[test]
fn wrong_token_identifier_failed_unbonding() {
    let mut setup = ContractSetup::new();
    let transfers = vec![
        new_nft_transfer(POOL1_TOKEN_ID, 1, 1),
        new_nft_transfer(POOL1_TOKEN_ID, 2, 1),
        new_nft_transfer(POOL1_TOKEN_ID, 3, 1),
    ];
    setup.set_stake_pool_type(POOL1_TOKEN_ID, StakingModuleType::XBunnies);
    setup.stake(&transfers, NO_ERR_MSG);

    setup.start_unbonding(POOL2_TOKEN_ID, &[(1, 1)], ERR_FAILED_UNBONDING);
}

#[test]
fn correct_token_identifier_invalid_nonce_failed_unbonding() {
    let mut setup = ContractSetup::new();
    let transfers = vec![
        new_nft_transfer(POOL1_TOKEN_ID, 1, 1),
        new_nft_transfer(POOL1_TOKEN_ID, 2, 1),
        new_nft_transfer(POOL1_TOKEN_ID, 3, 1),
    ];
    setup.set_stake_pool_type(POOL1_TOKEN_ID, StakingModuleType::XBunnies);
    setup.stake(&transfers, NO_ERR_MSG);

    setup.start_unbonding(POOL1_TOKEN_ID, &[(4, 1)], ERR_FAILED_UNBONDING);
}

#[test]
fn unbonded_batch_successful_claim() {
    let mut setup = ContractSetup::new();
    let transfers = vec![new_nft_transfer(POOL1_TOKEN_ID, 1, 1)];
    setup.set_stake_pool_type(POOL1_TOKEN_ID, StakingModuleType::XBunnies);
    setup.stake(&transfers, NO_ERR_MSG);

    setup.start_unbonding(POOL1_TOKEN_ID, &[(1, 1)], NO_ERR_MSG);
    setup.set_block_timestamp(DEFAULT_UNBONDING_TIME_PENALTY + 1);
    setup.claim_unbonded(NO_ERR_MSG);
    setup.assert_user_nft_balance(POOL1_TOKEN_ID, 1, 1);
}

#[test]
fn multiple_unbonded_batches_successful_claim() {
    let mut setup = ContractSetup::new();
    let transfers = vec![
        new_nft_transfer(POOL1_TOKEN_ID, 1, 1),
        new_nft_transfer(POOL1_TOKEN_ID, 2, 1),
    ];
    setup.set_stake_pool_type(POOL1_TOKEN_ID, StakingModuleType::XBunnies);
    setup.stake(&transfers, NO_ERR_MSG);
    setup.start_unbonding(POOL1_TOKEN_ID, &[(1, 1)], NO_ERR_MSG);
    setup.set_block_timestamp(1);
    setup.start_unbonding(POOL1_TOKEN_ID, &[(2, 1)], NO_ERR_MSG);

    setup.set_block_timestamp(DEFAULT_UNBONDING_TIME_PENALTY + 2);

    setup.claim_unbonded(NO_ERR_MSG);

    setup.assert_user_nft_balance(POOL1_TOKEN_ID, 1, 1);
    setup.assert_user_nft_balance(POOL1_TOKEN_ID, 2, 1);
}

#[test]
fn pending_batch_and_unbonded_batch_partial_successful_claim() {
    let mut setup = ContractSetup::new();
    let transfers = vec![
        new_nft_transfer(POOL1_TOKEN_ID, 1, 1),
        new_nft_transfer(POOL1_TOKEN_ID, 2, 1),
    ];
    setup.set_stake_pool_type(POOL1_TOKEN_ID, StakingModuleType::XBunnies);
    setup.stake(&transfers, NO_ERR_MSG);

    setup.start_unbonding(POOL1_TOKEN_ID, &[(1, 1)], NO_ERR_MSG);
    setup.set_block_timestamp(DEFAULT_UNBONDING_TIME_PENALTY / 2);

    setup.start_unbonding(POOL1_TOKEN_ID, &[(2, 1)], NO_ERR_MSG);
    setup.set_block_timestamp(DEFAULT_UNBONDING_TIME_PENALTY + 1);

    setup.claim_unbonded(NO_ERR_MSG);
    setup.assert_user_nft_balance(POOL1_TOKEN_ID, 1, 1);
    setup.assert_user_nft_balance(POOL1_TOKEN_ID, 2, 0);
}

#[test]
fn no_batch_to_claim() {
    let mut setup = ContractSetup::new();
    let transfers = vec![new_nft_transfer(POOL1_TOKEN_ID, 1, 1)];
    setup.set_stake_pool_type(POOL1_TOKEN_ID, StakingModuleType::XBunnies);
    setup.stake(&transfers, NO_ERR_MSG);

    setup.claim_unbonded(ERR_NOTHING_TO_CLAIM);

    setup.set_block_timestamp(DEFAULT_UNBONDING_TIME_PENALTY + 1);

    setup.claim_unbonded(ERR_NOTHING_TO_CLAIM);
}

#[test]
fn nothing_unbonded() {
    let mut setup = ContractSetup::new();
    let transfers = vec![new_nft_transfer(POOL1_TOKEN_ID, 1, 1)];
    setup.set_stake_pool_type(POOL1_TOKEN_ID, StakingModuleType::XBunnies);
    setup.stake(&transfers, NO_ERR_MSG);

    setup.claim_unbonded(ERR_NOTHING_TO_CLAIM);

    setup.set_block_timestamp(DEFAULT_UNBONDING_TIME_PENALTY + 1);

    setup.claim_unbonded(ERR_NOTHING_TO_CLAIM);
}

#[test]
fn unbond_one_sft_nonce_includes_quantity() {
    let amount_to_stake = 5;
    let amount_to_unstake = 1;
    let score_per_unit = 5;

    let mut setup = ContractSetup::new();
    let transfers = vec![new_nft_transfer(POOL2_TOKEN_ID, 1, amount_to_stake)];
    setup.set_stake_pool_type(POOL2_TOKEN_ID, StakingModuleType::CodingDivisionSfts);
    setup.set_token_score(
        StakingModuleType::CodingDivisionSfts,
        POOL2_TOKEN_ID,
        score_per_unit,
    );
    setup.stake(&transfers, NO_ERR_MSG);

    setup.assert_user_score(
        StakingModuleType::CodingDivisionSfts,
        amount_to_stake * score_per_unit as u64,
    );

    setup.start_unbonding(POOL2_TOKEN_ID, &[(1, amount_to_unstake)], NO_ERR_MSG);
    setup.set_block_timestamp(DEFAULT_UNBONDING_TIME_PENALTY + 1);

    setup.claim_unbonded(NO_ERR_MSG);
    setup.assert_user_nft_balance(
        POOL2_TOKEN_ID,
        1,
        POOL2_QUANTITY_PER_NONCE as u64 - amount_to_stake as u64 + amount_to_unstake,
    );
}

#[test]
fn unbond_multiple_sft_nonces_includes_quantity() {
    let amount_to_stake = 5;
    let amount_to_unstake = 1;
    let score_per_unit = 5;
    let nonces_staked = 3;

    let mut setup = ContractSetup::new();
    let transfers = vec![
        new_nft_transfer(POOL2_TOKEN_ID, 1, amount_to_stake),
        new_nft_transfer(POOL2_TOKEN_ID, 2, amount_to_stake),
        new_nft_transfer(POOL2_TOKEN_ID, 3, amount_to_stake),
    ];
    setup.set_stake_pool_type(POOL2_TOKEN_ID, StakingModuleType::CodingDivisionSfts);
    setup.set_token_score(
        StakingModuleType::CodingDivisionSfts,
        POOL2_TOKEN_ID,
        score_per_unit,
    );
    setup.stake(&transfers, NO_ERR_MSG);

    setup.assert_user_score(
        StakingModuleType::CodingDivisionSfts,
        nonces_staked * amount_to_stake * score_per_unit as u64,
    );

    setup.start_unbonding(
        POOL2_TOKEN_ID,
        &[
            (1, amount_to_unstake),
            (2, amount_to_unstake),
            (3, amount_to_unstake),
        ],
        NO_ERR_MSG,
    );
    setup.set_block_timestamp(DEFAULT_UNBONDING_TIME_PENALTY + 1);

    setup.claim_unbonded(NO_ERR_MSG);
    setup.assert_user_nft_balance(
        POOL2_TOKEN_ID,
        1,
        POOL2_QUANTITY_PER_NONCE as u64 - amount_to_stake as u64 + amount_to_unstake,
    );
    setup.assert_user_nft_balance(
        POOL2_TOKEN_ID,
        2,
        POOL2_QUANTITY_PER_NONCE as u64 - amount_to_stake as u64 + amount_to_unstake,
    );
    setup.assert_user_nft_balance(
        POOL2_TOKEN_ID,
        3,
        POOL2_QUANTITY_PER_NONCE as u64 - amount_to_stake as u64 + amount_to_unstake,
    );
}

// ---- the contract as a whole ----

#[test]
fn init() {
    let setup = ContractSetup::new();
    assert_eq!(
        DEFAULT_UNBONDING_TIME_PENALTY,
        setup.ledger.get_unbonding_time_penalty()
    );
    assert_eq!(
        REWARD_TOKEN_ID,
        setup.ledger.get_primary_reward_token_identifier()
    );
    assert!(setup
        .ledger
        .is_reward_token_for(REWARD_TOKEN_ID, StakingModuleType::All));
}

#[test]
fn main_stake() {
    let mut setup = ContractSetup::new();
    setup.set_stake_pool_type(POOL1_TOKEN_ID, StakingModuleType::XBunnies);
    let transfers = vec![
        new_nft_transfer(POOL1_TOKEN_ID, 1, 1),
        new_nft_transfer(POOL1_TOKEN_ID, 2, 1),
    ];

    setup.stake(&transfers, NO_ERR_MSG);
}

// ---- coding division ----

#[test]
fn coding_division_sft_staking_stake() {
    let mut setup = ContractSetup::new();
    let transfers = vec![
        new_nft_transfer(POOL1_TOKEN_ID, 1, 1),
        new_nft_transfer(POOL1_TOKEN_ID, 2, 1),
    ];

    setup.set_stake_pool_type(POOL1_TOKEN_ID, StakingModuleType::CodingDivisionSfts);
    setup.set_token_score(StakingModuleType::All, POOL1_TOKEN_ID, 5);
    setup.stake(&transfers, NO_ERR_MSG);
    setup.assert_user_score(StakingModuleType::All, 10);
}

#[test]
fn stake_full_set() {
    let one_item_score = 5;
    let full_set_bonus_score = 25;

    let mut setup = ContractSetup::new();
    let mut transfers = vec![];
    for nonce in 1..=VESTA_CODING_DIVISION_FULL_SET_MAX_NONCE {
        transfers.push(new_nft_transfer(POOL1_TOKEN_ID, nonce, 1));
    }

    setup.set_stake_pool_type(POOL1_TOKEN_ID, StakingModuleType::CodingDivisionSfts);
    setup.set_token_score(StakingModuleType::All, POOL1_TOKEN_ID, one_item_score);
    setup.set_full_set_score(StakingModuleType::All, POOL1_TOKEN_ID, full_set_bonus_score);

    setup.stake(&transfers, NO_ERR_MSG);

    setup.assert_user_score(
        StakingModuleType::All,
        VESTA_CODING_DIVISION_FULL_SET_MAX_NONCE * one_item_score as u64
            + full_set_bonus_score as u64,
    );
}

#[test]
fn stake_full_set_and_unstake_one_removes_full_set_score() {
    let one_item_score = 5;
    let full_set_bonus_score = 25;

    let mut setup = ContractSetup::new();
    let mut transfers = vec![];
    for nonce in 1..=VESTA_CODING_DIVISION_FULL_SET_MAX_NONCE {
        transfers.push(new_nft_transfer(POOL1_TOKEN_ID, nonce, 1));
    }

    setup.set_stake_pool_type(POOL1_TOKEN_ID, StakingModuleType::CodingDivisionSfts);
    setup.set_token_score(StakingModuleType::All, POOL1_TOKEN_ID, one_item_score);
    setup.set_full_set_score(StakingModuleType::All, POOL1_TOKEN_ID, full_set_bonus_score);

    setup.stake(&transfers, NO_ERR_MSG);
    setup.start_unbonding(POOL1_TOKEN_ID, &[(1, 1)], NO_ERR_MSG);

    setup.assert_user_score(
        StakingModuleType::All,
        (VESTA_CODING_DIVISION_FULL_SET_MAX_NONCE - 1) * one_item_score as u64,
    );
}

// ---- nosferatu ----

#[test]
fn nosferatu_staking_realistic_take_1() {
    let common_nft_score = 1;
    let rare_nft_score = 3;
    let epic_nft_score = 4;
    let legendary_nonce_score = 11;

    let common_nfts_to_stake = 10;
    let rare_nfts_to_stake = 10;
    let epic_nfts_to_stake = 10;
    let legendary_nfts_to_stake = 10;

    let mut setup = ContractSetup::new();
    setup.set_stake_pool_type(POOL1_TOKEN_ID, StakingModuleType::Nosferatu);
    setup.set_token_score(StakingModuleType::All, POOL1_TOKEN_ID, common_nft_score);

    let mut transfers = vec![];
    let mut nonce_offset = 0;

    for nonce in 1..=common_nfts_to_stake {
        transfers.push(new_nft_transfer(POOL1_TOKEN_ID, nonce, 1));
    }
    nonce_offset += common_nfts_to_stake;

    for nonce in 1..=rare_nfts_to_stake {
        let actual_nft_nonce = nonce + nonce_offset;
        transfers.push(new_nft_transfer(POOL1_TOKEN_ID, actual_nft_nonce, 1));
        setup.set_token_nonce_score(
            StakingModuleType::All,
            POOL1_TOKEN_ID,
            actual_nft_nonce,
            rare_nft_score,
        );
    }
    nonce_offset += rare_nfts_to_stake;

    for nonce in 1..=epic_nfts_to_stake {
        let actual_nft_nonce = nonce + nonce_offset;
        transfers.push(new_nft_transfer(POOL1_TOKEN_ID, actual_nft_nonce, 1));
        setup.set_token_nonce_score(
            StakingModuleType::All,
            POOL1_TOKEN_ID,
            actual_nft_nonce,
            epic_nft_score,
        );
    }
    nonce_offset += epic_nfts_to_stake;

    for nonce in 1..=legendary_nfts_to_stake {
        let actual_nft_nonce = nonce + nonce_offset;
        transfers.push(new_nft_transfer(POOL1_TOKEN_ID, actual_nft_nonce, 1));
        setup.set_token_nonce_score(
            StakingModuleType::All,
            POOL1_TOKEN_ID,
            actual_nft_nonce,
            legendary_nonce_score,
        );
    }

    let expected_score = legendary_nonce_score as u64 * legendary_nfts_to_stake
        + epic_nft_score as u64 * epic_nfts_to_stake
        + rare_nft_score as u64 * rare_nfts_to_stake
        + common_nft_score as u64 * common_nfts_to_stake;

    setup.stake(&transfers, NO_ERR_MSG);
    setup.assert_user_score(StakingModuleType::All, expected_score);
}

// ---- snakes ----

#[test]
fn snakes_sft_staking_realistic_take_1() {
    let snake_sfts_to_stake = 100;

    let mut setup = ContractSetup::new();
    setup.set_stake_pool_type(POOL2_TOKEN_ID, StakingModuleType::SnakesSfts);
    setup.set_token_score(StakingModuleType::All, POOL2_TOKEN_ID, 0);
    setup.set_token_score(StakingModuleType::SnakesSfts, POOL2_TOKEN_ID, 1);

    let transfers = vec![new_nft_transfer(POOL2_TOKEN_ID, 1, snake_sfts_to_stake)];

    setup.stake(&transfers, NO_ERR_MSG);
    setup.assert_user_score(StakingModuleType::All, 0);
    setup.assert_user_score(StakingModuleType::SnakesSfts, snake_sfts_to_stake);
}

// ---- xbunnies ----

#[test]
fn xbunnies_staking_stake() {
    let mut setup = ContractSetup::new();
    let transfers = vec![
        new_nft_transfer(POOL1_TOKEN_ID, 1, 1),
        new_nft_transfer(POOL1_TOKEN_ID, 2, 1),
        new_nft_transfer(POOL1_TOKEN_ID, 3, 1),
    ];

    setup.set_stake_pool_type(POOL1_TOKEN_ID, StakingModuleType::XBunnies);
    setup.set_token_score(StakingModuleType::All, POOL1_TOKEN_ID, 50);
    setup.set_token_nonce_score(StakingModuleType::All, POOL1_TOKEN_ID, 3, 100);
    setup.stake(&transfers, NO_ERR_MSG);
    setup.assert_user_score(StakingModuleType::All, 200);
}

#[test]
fn xbunnies_staking_realistic_take_1() {
    let regular_nft_score = 2;
    let legendary_nonce_score = 160;

    let regular_nfts_to_stake = 10;
    let legendary_nfts_to_stake = 10;

    let mut setup = ContractSetup::new();
    setup.set_stake_pool_type(POOL1_TOKEN_ID, StakingModuleType::XBunnies);
    setup.set_token_score(StakingModuleType::All, POOL1_TOKEN_ID, regular_nft_score);

    let mut transfers = vec![];

    for nonce in 1..=regular_nfts_to_stake {
        transfers.push(new_nft_transfer(POOL1_TOKEN_ID, nonce, 1));
    }

    for nonce in regular_nfts_to_stake + 1..=(regular_nfts_to_stake + legendary_nfts_to_stake) {
        transfers.push(new_nft_transfer(POOL1_TOKEN_ID, nonce, 1));
        setup.set_token_nonce_score(
            StakingModuleType::All,
            POOL1_TOKEN_ID,
            nonce,
            legendary_nonce_score,
        );
    }

    let expected_score = legendary_nonce_score as u64 * legendary_nfts_to_stake
        + regular_nft_score as u64 * regular_nfts_to_stake;

    setup.stake(&transfers, NO_ERR_MSG);
    setup.assert_user_score(StakingModuleType::All, expected_score);
}
