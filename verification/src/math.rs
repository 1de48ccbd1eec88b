//! Sums over finite maps, the arithmetic behind the aggregated scores.

use vstd::prelude::*;

verus! {

/// The value as a `u128`, where it is one.
pub open spec fn fits(value: nat) -> Option<u128> {
    if value <= u128::MAX {
        Some(value as u128)
    } else {
        None
    }
}

/// The sum of two amounts, where it fits.
pub fn checked_sum(a: u128, b: u128) -> (sum: Option<u128>)
    ensures
        sum == fits((a + b) as nat),
{
    a.checked_add(b)
}

/// The product of two amounts, where it fits.
pub fn checked_product(a: u128, b: u128) -> (product: Option<u128>)
    ensures
        product == fits((a * b) as nat),
{
    proof {
        assert(0 <= a * b) by (nonlinear_arith)
            requires
                0 <= a,
                0 <= b,
        ;
    }
    a.checked_mul(b)
}

/// The sum of the values of a finite map.
pub open spec fn map_sum(m: Map<u64, nat>) -> nat
    decreases m.dom().len(),
    when m.dom().finite()
    via map_sum_decreases
{
    if m.dom().len() == 0 {
        0
    } else {
        let k = m.dom().choose();
        m[k] + map_sum(m.remove(k))
    }
}

#[via_fn]
proof fn map_sum_decreases(m: Map<u64, nat>) {
    if m.dom().len() != 0 {
        let k = m.dom().choose();
        assert(m.dom().contains(k));
        assert(m.remove(k).dom() =~= m.dom().remove(k));
    }
}

/// An empty map sums to zero.
pub proof fn lemma_map_sum_empty()
    ensures
        map_sum(Map::<u64, nat>::empty()) == 0,
{
    assert(Map::<u64, nat>::empty().dom() =~= Set::<u64>::empty());
}

/// Any one entry can be split off a sum.
pub proof fn lemma_map_sum_remove(m: Map<u64, nat>, k: u64)
    requires
        m.dom().finite(),
        m.contains_key(k),
    ensures
        map_sum(m) == m[k] + map_sum(m.remove(k)),
    decreases m.dom().len(),
{
    let c = m.dom().choose();
    assert(m.dom().len() != 0) by {
        if m.dom().len() == 0 {
            assert(m.dom() =~= Set::<u64>::empty());
        }
    }
    assert(m.dom().contains(c));
    if c != k {
        let without_c = m.remove(c);
        let without_k = m.remove(k);
        assert(without_c.dom() =~= m.dom().remove(c));
        assert(without_k.dom() =~= m.dom().remove(k));
        lemma_map_sum_remove(without_c, k);
        lemma_map_sum_remove(without_k, c);
        assert(without_c.remove(k) =~= without_k.remove(c));
    }
}

/// Writing one entry moves the sum by the difference between the new value
/// and the old one.
pub proof fn lemma_map_sum_insert(m: Map<u64, nat>, k: u64, v: nat)
    requires
        m.dom().finite(),
    ensures
        map_sum(m.insert(k, v)) + (if m.contains_key(k) {
            m[k]
        } else {
            0
        }) == map_sum(m) + v,
{
    let after = m.insert(k, v);
    assert(after.dom() =~= m.dom().insert(k));
    lemma_map_sum_remove(after, k);
    assert(after.remove(k) =~= m.remove(k));
    if m.contains_key(k) {
        lemma_map_sum_remove(m, k);
    } else {
        assert(m.remove(k) =~= m);
    }
}

/// No entry exceeds the sum.
pub proof fn lemma_map_sum_bounds(m: Map<u64, nat>, k: u64)
    requires
        m.dom().finite(),
        m.contains_key(k),
    ensures
        m[k] <= map_sum(m),
{
    lemma_map_sum_remove(m, k);
}

/// The map with every value multiplied by `factor`.
pub open spec fn scaled(m: Map<u64, nat>, factor: nat) -> Map<u64, nat> {
    Map::new(|k: u64| m.contains_key(k), |k: u64| m[k] * factor)
}

/// Scaling every value scales the sum.
pub proof fn lemma_map_sum_scale(m: Map<u64, nat>, factor: nat)
    requires
        m.dom().finite(),
    ensures
        map_sum(scaled(m, factor)) == map_sum(m) * factor,
    decreases m.dom().len(),
{
    let all = scaled(m, factor);
    assert(all.dom() =~= m.dom());
    if m.dom().len() != 0 {
        let k = m.dom().choose();
        assert(m.dom().contains(k));
        assert(m.remove(k).dom() =~= m.dom().remove(k));
        lemma_map_sum_scale(m.remove(k), factor);
        assert(all.remove(k) =~= scaled(m.remove(k), factor));
        assert((m[k] + map_sum(m.remove(k))) * factor == m[k] * factor + map_sum(m.remove(k))
            * factor) by (nonlinear_arith);
    } else {
        assert(0 * factor == 0) by (nonlinear_arith);
    }
}

} // verus!
