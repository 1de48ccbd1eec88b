//! An amount of one token, as it is received or sent.

use crate::types::TokenId;
use vstd::prelude::*;

verus! {

/// `amount` units of the asset `token_nonce` of `token_identifier`; a fungible
/// token has nonce 0.
#[derive(Clone, Copy, PartialEq, Eq, Debug, Structural)]
pub struct TokenPayment {
    pub token_identifier: TokenId,
    pub token_nonce: u64,
    pub amount: u128,
}

impl TokenPayment {
    /// The payment of `amount` units of the given asset.
    pub fn new(token_identifier: TokenId, token_nonce: u64, amount: u128) -> (payment: TokenPayment)
        ensures
            payment == (TokenPayment { token_identifier, token_nonce, amount }),
    {
        TokenPayment { token_identifier, token_nonce, amount }
    }
}

} // verus!
