//! The plain values that enter and leave the ledger.

pub mod nonce_qty_pair;
pub mod start_unbonding_payload;
pub mod token_payment;
pub mod ui_types;

use vstd::prelude::*;

verus! {

/// The number that stands for a collection or for a reward token.
pub type TokenId = u64;

/// The number that stands for an account.
pub type Address = u64;

} // verus!
