//! The records that the read-only views hand to a front end.

use crate::types::nonce_qty_pair::NonceQtyPair;
use crate::types::start_unbonding_payload::StartUnbondingPayload;
use crate::types::token_payment::TokenPayment;
use crate::types::TokenId;
use vstd::prelude::*;

verus! {

/// The aggregated score of one pool.
#[derive(Clone, Copy, PartialEq, Eq, Debug, Structural)]
pub struct UIAggregatedPoolScore {
    pub pool_type: u8,
    pub pool_score: u128,
}

/// A staker's boosted and raw score in one pool.
#[derive(Clone, Copy, PartialEq, Eq, Debug, Structural)]
pub struct UIExtendedAggregatedPoolScore {
    pub pool_type: u8,
    pub pool_score: u128,
    pub raw_pool_score: u128,
}

/// What a staker holds in one collection, with the score it earns.
#[derive(Debug)]
pub struct UIUserPoolData {
    pub pool_token_identifier: TokenId,
    pub pool_score_data: UIExtendedAggregatedPoolScore,
    pub pool_staked_assets: Vec<NonceQtyPair>,
}

/// One unbonding batch with the time of its request.
#[derive(Debug)]
pub struct UIUnbondingAsset {
    pub timestamp: u64,
    pub assets: StartUnbondingPayload,
}

/// Everything a front end shows of one staker.
#[derive(Debug)]
pub struct UIUserDataPayload {
    pub pending_rewards: Vec<TokenPayment>,
    pub user_pool_data: Vec<UIUserPoolData>,
    pub unbonding_assets: Vec<UIUnbondingAsset>,
    pub user_deb: u128,
}

} // verus!
