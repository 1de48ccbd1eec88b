//! A quantity of one nonce, and what a list of them holds.

use vstd::prelude::*;

verus! {

/// `quantity` units of the asset with number `nonce`.
#[derive(Clone, Copy, PartialEq, Eq, Debug, Structural)]
pub struct NonceQtyPair {
    pub nonce: u64,
    pub quantity: u128,
}

/// No nonce occurs twice in `items`.
pub open spec fn nonces_unique(items: Seq<NonceQtyPair>) -> bool {
    forall|i: int, j: int|
        0 <= i < j < items.len() ==> (#[trigger] items[i]).nonce != (#[trigger] items[j]).nonce
}

/// Some item of `items` has the nonce.
pub open spec fn holds_nonce(items: Seq<NonceQtyPair>, nonce: u64) -> bool {
    exists|i: int| 0 <= i < items.len() && (#[trigger] items[i]).nonce == nonce
}

/// An index at which `items` has the nonce, where one exists.
pub open spec fn index_of_nonce(items: Seq<NonceQtyPair>, nonce: u64) -> int {
    choose|i: int| 0 <= i < items.len() && (#[trigger] items[i]).nonce == nonce
}

/// The quantity that `items` holds of the nonce: zero where it has none.
pub open spec fn quantity_of(items: Seq<NonceQtyPair>, nonce: u64) -> nat {
    if holds_nonce(items, nonce) {
        items[index_of_nonce(items, nonce)].quantity as nat
    } else {
        0
    }
}

/// In a list without repeated nonces, the place of a nonce is the only one.
pub proof fn lemma_index_of_nonce(items: Seq<NonceQtyPair>, i: int)
    requires
        nonces_unique(items),
        0 <= i < items.len(),
    ensures
        holds_nonce(items, items[i].nonce),
        index_of_nonce(items, items[i].nonce) == i,
        quantity_of(items, items[i].nonce) == items[i].quantity,
{
    let nonce = items[i].nonce;
    let j = index_of_nonce(items, nonce);
    assert(0 <= j < items.len() && items[j].nonce == nonce);
    if j < i {
        assert(items[j].nonce != items[i].nonce);
    } else if i < j {
        assert(items[i].nonce != items[j].nonce);
    }
}

/// Where the first item of `items` with the given nonce stands.
pub fn find_nonce(items: &Vec<NonceQtyPair>, nonce: u64) -> (found: Option<usize>)
    ensures
        match found {
            Some(i) => i < items.len() && items[i as int].nonce == nonce && forall|j: int|
                0 <= j < i ==> (#[trigger] items[j]).nonce != nonce,
            None => !holds_nonce(items@, nonce),
        },
{
    let mut i: usize = 0;
    while i < items.len()
        invariant
            i <= items.len(),
            forall|j: int| 0 <= j < i ==> (#[trigger] items[j]).nonce != nonce,
        decreases items.len() - i,
    {
        if items[i].nonce == nonce {
            return Some(i);
        }
        i += 1;
    }
    None
}

/// A copy of `items`.
pub fn copy_items(items: &Vec<NonceQtyPair>) -> (copy: Vec<NonceQtyPair>)
    ensures
        copy@ == items@,
{
    let mut copy: Vec<NonceQtyPair> = Vec::new();
    let mut i: usize = 0;
    while i < items.len()
        invariant
            i <= items.len(),
            copy@ == items@.take(i as int),
        decreases items.len() - i,
    {
        copy.push(items[i]);
        proof {
            assert(items@.take(i + 1) =~= items@.take(i as int).push(items[i as int]));
        }
        i += 1;
    }
    proof {
        assert(items@.take(items.len() as int) =~= items@);
    }
    copy
}

} // verus!
