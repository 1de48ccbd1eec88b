//! A request to withdraw assets of one collection.

use crate::types::nonce_qty_pair::{copy_items, find_nonce, holds_nonce, NonceQtyPair};
use crate::types::token_payment::TokenPayment;
use crate::types::TokenId;
use vstd::prelude::*;

verus! {

/// The assets of `token_identifier` that a staker asks to withdraw.
#[derive(Debug)]
pub struct StartUnbondingPayload {
    pub token_identifier: TokenId,
    pub items: Vec<NonceQtyPair>,
}

/// The payments that hand back `items` of the collection `token`, one for
/// each item and in the same order.
pub open spec fn payments_of(token: TokenId, items: Seq<NonceQtyPair>) -> Seq<TokenPayment> {
    Seq::new(
        items.len(),
        |i: int|
            TokenPayment {
                token_identifier: token,
                token_nonce: items[i].nonce,
                amount: items[i].quantity,
            },
    )
}

impl StartUnbondingPayload {
    /// The request for `items` of the collection `token_identifier`.
    pub fn new(token_identifier: TokenId, items: Vec<NonceQtyPair>) -> (payload: Self)
        ensures
            payload.token_identifier == token_identifier,
            payload.items == items,
    {
        Self { token_identifier, items }
    }

    /// The quantity asked of `nonce` by the first item that names it: zero
    /// where none does.
    pub open spec fn spec_nonce_quantity(&self, nonce: u64) -> u128 {
        if holds_nonce(self.items@, nonce) {
            let first = choose|i: int|
                0 <= i < self.items.len() && self.items[i].nonce == nonce && forall|j: int|
                    0 <= j < i ==> (#[trigger] self.items[j]).nonce != nonce;
            self.items[first].quantity
        } else {
            0
        }
    }

    /// The quantity asked of `nonce` by the first item that names it: zero
    /// where none does.
    pub fn get_nonce_quantity(&self, nonce: u64) -> (quantity: u128)
        ensures
            quantity == self.spec_nonce_quantity(nonce),
            !holds_nonce(self.items@, nonce) ==> quantity == 0,
    {
        match find_nonce(&self.items, nonce) {
            Some(i) => {
                proof {
                    let first = choose|k: int|
                        0 <= k < self.items.len() && self.items[k].nonce == nonce && forall|j: int|
                            0 <= j < k ==> (#[trigger] self.items[j]).nonce != nonce;
                    assert(0 <= first < self.items.len() && self.items[first].nonce == nonce
                        && forall|j: int|
                        0 <= j < first ==> (#[trigger] self.items[j]).nonce != nonce);
                    if first < i {
                        assert(self.items[first].nonce != nonce);
                    } else if i < first {
                        assert(self.items[i as int].nonce != nonce);
                    }
                }
                self.items[i].quantity
            },
            None => 0,
        }
    }

    /// The payments that hand the requested assets back.
    pub fn get_payments(&self) -> (payments: Vec<TokenPayment>)
        ensures
            payments@ == payments_of(self.token_identifier, self.items@),
    {
        let mut payments: Vec<TokenPayment> = Vec::new();
        let mut i: usize = 0;
        while i < self.items.len()
            invariant
                i <= self.items.len(),
                payments@ == payments_of(self.token_identifier, self.items@.take(i as int)),
            decreases self.items.len() - i,
        {
            let item = self.items[i];
            payments.push(TokenPayment::new(self.token_identifier, item.nonce, item.quantity));
            proof {
                assert(payments@ =~= payments_of(
                    self.token_identifier,
                    self.items@.take(i + 1),
                ));
            }
            i += 1;
        }
        proof {
            assert(self.items@.take(self.items.len() as int) =~= self.items@);
        }
        payments
    }

    /// Whether the request names no item.
    pub fn is_empty(&self) -> (empty: bool)
        ensures
            empty == (self.items.len() == 0),
    {
        self.items.len() == 0
    }

    /// A copy of the request.
    pub fn duplicate(&self) -> (copy: Self)
        ensures
            copy.token_identifier == self.token_identifier,
            copy.items@ == self.items@,
    {
        Self { token_identifier: self.token_identifier, items: copy_items(&self.items) }
    }
}

} // verus!
