//! What staking and unbonding do to the items held of one collection.

use crate::types::nonce_qty_pair::{
    find_nonce, holds_nonce, index_of_nonce, lemma_index_of_nonce, nonces_unique, quantity_of,
    NonceQtyPair,
};
use crate::types::token_payment::TokenPayment;
use crate::types::TokenId;
use vstd::prelude::*;

verus! {

/// The items after `quantity` more units of `nonce` came in: a nonce already
/// held is topped up, a new one is listed last.
pub open spec fn items_after_add(items: Seq<NonceQtyPair>, nonce: u64, quantity: u128) -> Seq<
    NonceQtyPair,
> {
    if holds_nonce(items, nonce) {
        let i = index_of_nonce(items, nonce);
        items.update(i, NonceQtyPair { nonce, quantity: (items[i].quantity + quantity) as u128 })
    } else {
        items.push(NonceQtyPair { nonce, quantity })
    }
}

/// The items after every payment of `payments` came in, first payment first;
/// nothing where a quantity held would leave the range of `u128`.
pub open spec fn items_after_stake(items: Seq<NonceQtyPair>, payments: Seq<TokenPayment>) -> Option<
    Seq<NonceQtyPair>,
>
    decreases payments.len(),
{
    if payments.len() == 0 {
        Some(items)
    } else {
        match items_after_stake(items, payments.drop_last()) {
            Some(earlier) => if quantity_of(earlier, payments.last().token_nonce)
                + payments.last().amount <= u128::MAX {
                Some(
                    items_after_add(earlier, payments.last().token_nonce, payments.last().amount),
                )
            } else {
                None
            },
            None => None,
        }
    }
}

/// Every payment is of the collection `token`.
pub open spec fn all_of_token(payments: Seq<TokenPayment>, token: TokenId) -> bool {
    forall|i: int| 0 <= i < payments.len() ==> (#[trigger] payments[i]).token_identifier == token
}

/// Where the first payments cannot all come in, the whole batch cannot.
pub proof fn lemma_items_after_stake_fails_on(
    items: Seq<NonceQtyPair>,
    payments: Seq<TokenPayment>,
    n: int,
)
    requires
        0 <= n <= payments.len(),
    ensures
        items_after_stake(items, payments.take(n)).is_none() ==> items_after_stake(
            items,
            payments,
        ).is_none(),
    decreases payments.len(),
{
    if n == payments.len() {
        assert(payments.take(n) =~= payments);
    } else {
        assert(payments.drop_last().take(n) =~= payments.take(n));
        lemma_items_after_stake_fails_on(items, payments.drop_last(), n);
    }
}

/// Whether every payment is of the collection `token`.
pub fn check_all_of_token(payments: &Vec<TokenPayment>, token: TokenId) -> (all: bool)
    ensures
        all == all_of_token(payments@, token),
{
    let mut i: usize = 0;
    while i < payments.len()
        invariant
            i <= payments.len(),
            forall|k: int| 0 <= k < i ==> (#[trigger] payments[k]).token_identifier == token,
        decreases payments.len() - i,
    {
        if payments[i].token_identifier != token {
            return false;
        }
        i += 1;
    }
    true
}

/// The items after `quantity` units of a held `nonce` left: a nonce that
/// reaches zero is struck from the list.
pub open spec fn items_after_remove(items: Seq<NonceQtyPair>, nonce: u64, quantity: u128) -> Seq<
    NonceQtyPair,
> {
    let i = index_of_nonce(items, nonce);
    if items[i].quantity == quantity {
        items.remove(i)
    } else {
        items.update(i, NonceQtyPair { nonce, quantity: (items[i].quantity - quantity) as u128 })
    }
}

/// The items after every request of `requests` left, first request first.
pub open spec fn items_after_unbonding(
    items: Seq<NonceQtyPair>,
    requests: Seq<NonceQtyPair>,
) -> Seq<NonceQtyPair>
    decreases requests.len(),
{
    if requests.len() == 0 {
        items
    } else {
        items_after_remove(
            items_after_unbonding(items, requests.drop_last()),
            requests.last().nonce,
            requests.last().quantity,
        )
    }
}

/// The requests can be served from `items`: no nonce is asked twice, every
/// nonce asked is held in at least the quantity asked, and something is
/// asked at all.
pub open spec fn unbonding_allowed(items: Seq<NonceQtyPair>, requests: Seq<NonceQtyPair>) -> bool {
    &&& nonces_unique(requests)
    &&& forall|j: int|
        0 <= j < requests.len() ==> holds_nonce(items, (#[trigger] requests[j]).nonce)
            && requests[j].quantity <= quantity_of(items, requests[j].nonce)
    &&& exists|j: int| 0 <= j < requests.len() && (#[trigger] requests[j]).quantity > 0
}

/// Topping up keeps the list free of repeats, changes the quantity of the
/// one nonce and of no other.
pub proof fn lemma_items_after_add(items: Seq<NonceQtyPair>, nonce: u64, quantity: u128)
    requires
        nonces_unique(items),
        quantity_of(items, nonce) + quantity <= u128::MAX,
    ensures
        nonces_unique(items_after_add(items, nonce, quantity)),
        holds_nonce(items_after_add(items, nonce, quantity), nonce),
        quantity_of(items_after_add(items, nonce, quantity), nonce) == quantity_of(items, nonce)
            + quantity,
        forall|other: u64|
            other != nonce ==> holds_nonce(items_after_add(items, nonce, quantity), other)
                == holds_nonce(items, other) && quantity_of(
                items_after_add(items, nonce, quantity),
                other,
            ) == quantity_of(items, other),
{
    let after = items_after_add(items, nonce, quantity);
    let at: int = if holds_nonce(items, nonce) {
        index_of_nonce(items, nonce)
    } else {
        items.len() as int
    };
    assert(after.len() > at >= 0 && after[at].nonce == nonce);
    assert forall|i: int, j: int| 0 <= i < j < after.len() implies (#[trigger] after[i]).nonce != (
    #[trigger] after[j]).nonce by {
        if holds_nonce(items, nonce) {
            assert(after[i].nonce == items[i].nonce && after[j].nonce == items[j].nonce);
        } else {
            if j < items.len() {
                assert(after[i] == items[i] && after[j] == items[j]);
            } else {
                assert(after[i] == items[i]);
            }
        }
    }
    lemma_index_of_nonce(after, at);
    if holds_nonce(items, nonce) {
        lemma_index_of_nonce(items, at);
    }
    assert forall|other: u64| other != nonce implies holds_nonce(after, other) == holds_nonce(
        items,
        other,
    ) && quantity_of(after, other) == quantity_of(items, other) by {
        if holds_nonce(items, other) {
            let k = index_of_nonce(items, other);
            assert(after[k] == items[k]);
            lemma_index_of_nonce(items, k);
            lemma_index_of_nonce(after, k);
        }
        if holds_nonce(after, other) {
            let k = index_of_nonce(after, other);
            assert(k < items.len() && after[k] == items[k]);
            lemma_index_of_nonce(items, k);
        }
    }
}

/// Taking units of a held nonce keeps the list free of repeats and changes
/// the quantity of no other nonce.
pub proof fn lemma_items_after_remove(items: Seq<NonceQtyPair>, nonce: u64, quantity: u128)
    requires
        nonces_unique(items),
        holds_nonce(items, nonce),
        quantity <= quantity_of(items, nonce),
    ensures
        nonces_unique(items_after_remove(items, nonce, quantity)),
        quantity_of(items_after_remove(items, nonce, quantity), nonce) == quantity_of(items, nonce)
            - quantity,
        forall|other: u64|
            other != nonce ==> holds_nonce(items_after_remove(items, nonce, quantity), other)
                == holds_nonce(items, other) && quantity_of(
                items_after_remove(items, nonce, quantity),
                other,
            ) == quantity_of(items, other),
{
    let after = items_after_remove(items, nonce, quantity);
    let at = index_of_nonce(items, nonce);
    lemma_index_of_nonce(items, at);
    let struck = items[at].quantity == quantity;
    // where each item of `after` came from
    let from = |k: int|
        if struck && k >= at {
            k + 1
        } else {
            k
        };
    assert forall|k: int| 0 <= k < after.len() implies 0 <= from(k) < items.len() && (
    #[trigger] after[k]).nonce == items[from(k)].nonce && (from(k) != at ==> after[k]
        == items[from(k)]) by {}
    assert forall|i: int, j: int| 0 <= i < j < after.len() implies (#[trigger] after[i]).nonce != (
    #[trigger] after[j]).nonce by {
        assert(from(i) < from(j));
        assert(items[from(i)].nonce != items[from(j)].nonce);
    }
    if struck {
        if holds_nonce(after, nonce) {
            let k = index_of_nonce(after, nonce);
            assert(after[k].nonce == items[from(k)].nonce);
            if from(k) < at {
                assert(items[from(k)].nonce != items[at].nonce);
            } else {
                assert(items[at].nonce != items[from(k)].nonce);
            }
        }
    } else {
        assert(after[at].nonce == nonce);
        lemma_index_of_nonce(after, at);
    }
    assert forall|other: u64| other != nonce implies holds_nonce(after, other) == holds_nonce(
        items,
        other,
    ) && quantity_of(after, other) == quantity_of(items, other) by {
        if holds_nonce(items, other) {
            let k = index_of_nonce(items, other);
            let to = if struck && k > at {
                k - 1
            } else {
                k
            };
            assert(after[to] == items[k]);
            lemma_index_of_nonce(items, k);
            lemma_index_of_nonce(after, to);
        }
        if holds_nonce(after, other) {
            let k = index_of_nonce(after, other);
            assert(after[k] == items[from(k)]);
            lemma_index_of_nonce(items, from(k));
        }
    }
}

/// `quantity` more units of `nonce` come in. Where the quantity held would
/// leave the range of `u128`, nothing changes and the answer is `false`.
pub fn add_item(items: &mut Vec<NonceQtyPair>, nonce: u64, quantity: u128) -> (added: bool)
    requires
        nonces_unique(old(items)@),
    ensures
        added == (quantity_of(old(items)@, nonce) + quantity <= u128::MAX),
        added ==> final(items)@ == items_after_add(old(items)@, nonce, quantity),
        !added ==> final(items)@ == old(items)@,
        nonces_unique(final(items)@),
{
    match find_nonce(items, nonce) {
        Some(i) => {
            proof {
                lemma_index_of_nonce(items@, i as int);
            }
            let held = items[i].quantity;
            match held.checked_add(quantity) {
                Some(sum) => {
                    proof {
                        lemma_items_after_add(items@, nonce, quantity);
                    }
                    items[i] = NonceQtyPair { nonce, quantity: sum };
                    true
                },
                None => false,
            }
        },
        None => {
            proof {
                lemma_items_after_add(items@, nonce, quantity);
            }
            items.push(NonceQtyPair { nonce, quantity });
            true
        },
    }
}

/// Whether some nonce occurs twice in `items`.
pub fn has_duplicate_nonces(items: &Vec<NonceQtyPair>) -> (duplicate: bool)
    ensures
        duplicate == !nonces_unique(items@),
{
    let mut j: usize = 0;
    while j < items.len()
        invariant
            j <= items.len(),
            nonces_unique(items@.take(j as int)),
        decreases items.len() - j,
    {
        let mut i: usize = 0;
        while i < j
            invariant
                i <= j < items.len(),
                forall|k: int| 0 <= k < i ==> (#[trigger] items[k]).nonce != items[j as int].nonce,
            decreases j - i,
        {
            if items[i].nonce == items[j].nonce {
                return true;
            }
            i += 1;
        }
        proof {
            let longer = items@.take(j + 1);
            let shorter = items@.take(j as int);
            assert forall|a: int, b: int| 0 <= a < b < longer.len() implies (
            #[trigger] longer[a]).nonce != (#[trigger] longer[b]).nonce by {
                if b < j {
                    assert(shorter[a].nonce != shorter[b].nonce);
                }
            }
        }
        j += 1;
    }
    proof {
        assert(items@.take(items.len() as int) =~= items@);
    }
    false
}

/// Serves the requests from `items`, all of them or none: where they cannot
/// all be served, nothing changes and the answer is `false`.
pub fn remove_items(items: &mut Vec<NonceQtyPair>, requests: &Vec<NonceQtyPair>) -> (served: bool)
    requires
        nonces_unique(old(items)@),
    ensures
        served == unbonding_allowed(old(items)@, requests@),
        served ==> final(items)@ == items_after_unbonding(old(items)@, requests@),
        !served ==> final(items)@ == old(items)@,
        nonces_unique(final(items)@),
{
    if has_duplicate_nonces(requests) {
        return false;
    }
    // every request is checked before anything is taken
    let mut any_quantity = false;
    let mut j: usize = 0;
    while j < requests.len()
        invariant
            j <= requests.len(),
            items@ == old(items)@,
            forall|k: int|
                0 <= k < j ==> holds_nonce(items@, (#[trigger] requests[k]).nonce)
                    && requests[k].quantity <= quantity_of(items@, requests[k].nonce),
            any_quantity == exists|k: int| 0 <= k < j && (#[trigger] requests[k]).quantity > 0,
            nonces_unique(items@),
        decreases requests.len() - j,
    {
        let request = requests[j];
        match find_nonce(items, request.nonce) {
            Some(i) => {
                proof {
                    lemma_index_of_nonce(items@, i as int);
                }
                if items[i].quantity < request.quantity {
                    return false;
                }
            },
            None => {
                return false;
            },
        }
        if request.quantity > 0 {
            any_quantity = true;
        }
        j += 1;
    }
    if !any_quantity {
        return false;
    }
    let mut j: usize = 0;
    while j < requests.len()
        invariant
            j <= requests.len(),
            nonces_unique(requests@),
            nonces_unique(items@),
            items@ == items_after_unbonding(old(items)@, requests@.take(j as int)),
            forall|k: int|
                j <= k < requests.len() ==> holds_nonce(items@, (#[trigger] requests[k]).nonce)
                    && requests[k].quantity <= quantity_of(items@, requests[k].nonce),
        decreases requests.len() - j,
    {
        let request = requests[j];
        proof {
            lemma_items_after_remove(items@, request.nonce, request.quantity);
            assert(requests@.take(j + 1).drop_last() =~= requests@.take(j as int));
            assert forall|k: int| j < k < requests.len() implies (#[trigger] requests[k]).nonce
                != request.nonce by {
                assert(requests[j as int].nonce != requests[k].nonce);
            }
        }
        match find_nonce(items, request.nonce) {
            Some(i) => {
                proof {
                    lemma_index_of_nonce(items@, i as int);
                }
                let held = items[i].quantity;
                if held == request.quantity {
                    items.remove(i);
                } else {
                    items[i] = NonceQtyPair {
                        nonce: request.nonce,
                        quantity: held - request.quantity,
                    };
                }
            },
            None => {
                proof {
                    assert(false);
                }
            },
        }
        j += 1;
    }
    proof {
        assert(requests@.take(requests.len() as int) =~= requests@);
    }
    true
}

} // verus!
