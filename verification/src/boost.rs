//! The boost factor that scales a staker's score in the primary pool.

use crate::constants::DEB_DENOMINATION;
use crate::math::fits;
use crate::staking_modules::staking_module_type::StakingModuleType;
use vstd::arithmetic::div_mod::lemma_fundamental_div_mod_converse;
use vstd::arithmetic::div_mod::lemma_fundamental_div_mod;
use vstd::prelude::*;

verus! {

/// The boost that takes effect: a boost at or under the denominator counts
/// as exactly the denominator.
pub open spec fn effective_deb(deb: nat) -> nat {
    if deb <= DEB_DENOMINATION as nat {
        DEB_DENOMINATION as nat
    } else {
        deb
    }
}

/// The boosted score: `score` itself for a boost at or under the denominator,
/// else `score * deb / DEB_DENOMINATION`, rounded down.
pub open spec fn spec_apply_deb(score: nat, deb: nat) -> nat {
    if deb <= DEB_DENOMINATION as nat {
        score
    } else {
        score * deb / (DEB_DENOMINATION as nat)
    }
}

/// The score that counts towards the aggregate of `module`: the raw score
/// under the boost in the primary pool, the raw score itself in any other.
pub open spec fn spec_boosted_score(module: StakingModuleType, raw: nat, deb: nat) -> nat {
    if module == StakingModuleType::All {
        spec_apply_deb(raw, deb)
    } else {
        raw
    }
}

/// The product `score * deb`, split by the denominator `d` in both factors.
proof fn lemma_split_product(score: int, deb: int, d: int)
    requires
        0 <= score,
        0 <= deb,
        0 < d,
    ensures
        (score * deb) / d == (score / d) * deb + (score % d) * (deb / d) + ((score % d) * (deb
            % d)) / d,
        0 <= (score % d) * (deb % d),
        0 <= (score / d) * deb,
        0 <= (score % d) * (deb / d),
        (score % d) * (deb / d) <= deb,
{
    let q = score / d;
    let r = score % d;
    let p = deb / d;
    let s = deb % d;
    lemma_fundamental_div_mod(score, d);
    lemma_fundamental_div_mod(deb, d);
    let rs = r * s;
    assert(0 <= rs) by (nonlinear_arith)
        requires
            0 <= r,
            0 <= s,
            rs == r * s,
    ;
    lemma_fundamental_div_mod(rs, d);
    let whole = q * deb + r * p + rs / d;
    assert(score * deb == whole * d + rs % d) by (nonlinear_arith)
        requires
            score == d * q + r,
            deb == d * p + s,
            rs == r * s,
            rs == d * (rs / d) + rs % d,
            whole == q * deb + r * p + rs / d,
    ;
    lemma_fundamental_div_mod_converse(score * deb, d, whole, rs % d);
    assert(0 <= q * deb) by (nonlinear_arith)
        requires
            0 <= q,
            0 <= deb,
    ;
    assert(0 <= r * p && r * p <= deb) by (nonlinear_arith)
        requires
            0 <= r < d,
            0 <= p,
            deb == d * p + s,
            0 <= s,
    ;
}

/// The boosted score, where it fits.
///
/// The product is never formed as a whole: both factors are split by the
/// denominator, so the result is exact wherever it fits in `u128`.
pub fn apply_deb(user_score: u128, deb: u128) -> (boosted: Option<u128>)
    ensures
        boosted == fits(spec_apply_deb(user_score as nat, deb as nat)),
{
    let d: u128 = DEB_DENOMINATION as u128;
    if deb <= d {
        return Some(user_score);
    }
    let q: u128 = user_score / d;
    let r: u128 = user_score % d;
    let p: u128 = deb / d;
    let s: u128 = deb % d;
    proof {
        lemma_split_product(user_score as int, deb as int, d as int);
        assert(r * s <= 10_000_000_000) by (nonlinear_arith)
            requires
                r < 100_000,
                s < 100_000,
        ;
    }
    let low: u128 = (r * s) / d;
    let middle: u128 = r * p;
    let high: u128 = match q.checked_mul(deb) {
        Some(v) => v,
        None => {
            return None;
        },
    };
    let partial: u128 = match high.checked_add(middle) {
        Some(v) => v,
        None => {
            return None;
        },
    };
    partial.checked_add(low)
}

/// The score that counts towards the aggregate of `module`, where it fits.
pub fn boosted_score(module: StakingModuleType, raw: u128, deb: u128) -> (boosted: Option<u128>)
    ensures
        boosted == fits(spec_boosted_score(module, raw as nat, deb as nat)),
{
    if module == StakingModuleType::All {
        apply_deb(raw, deb)
    } else {
        Some(raw)
    }
}

/// Raising the boost never lowers the boosted score.
pub proof fn lemma_apply_deb_monotone_in_deb(score: nat, low: nat, high: nat)
    requires
        low <= high,
    ensures
        spec_apply_deb(score, low) <= spec_apply_deb(score, high),
{
    let d = DEB_DENOMINATION as int;
    let s = score as int;
    let hi = high as int;
    if hi > d {
        let lo = effective_deb(low) as int;
        assert(s * lo <= s * hi) by (nonlinear_arith)
            requires
                lo <= hi,
                0 <= s,
        ;
        assert((s * lo) / d <= (s * hi) / d) by (nonlinear_arith)
            requires
                s * lo <= s * hi,
                d > 0,
        ;
        if low <= d {
            assert((s * d) / d == s) by (nonlinear_arith)
                requires
                    d > 0,
            ;
        }
    }
}

/// A boost that adds at least one whole denominator's worth of product
/// raises the boosted score strictly.
pub proof fn lemma_apply_deb_strict(score: nat, low: nat, high: nat)
    requires
        effective_deb(low) < effective_deb(high),
        score * (effective_deb(high) - effective_deb(low)) >= DEB_DENOMINATION as nat,
    ensures
        spec_apply_deb(score, low) < spec_apply_deb(score, high),
{
    let d = DEB_DENOMINATION as int;
    let lo = effective_deb(low) as int;
    let hi = effective_deb(high) as int;
    let s = score as int;
    assert(spec_apply_deb(score, low) == (s * lo) / d) by {
        if low <= d {
            assert((s * d) / d == s) by (nonlinear_arith)
                requires
                    d > 0,
            ;
        }
    }
    assert(spec_apply_deb(score, high) == (s * hi) / d);
    assert(s * hi >= s * lo + d) by (nonlinear_arith)
        requires
            s * (hi - lo) >= d,
    ;
    assert((s * lo + d) / d == (s * lo) / d + 1) by (nonlinear_arith)
        requires
            d > 0,
    ;
    assert((s * lo + d) / d <= (s * hi) / d) by (nonlinear_arith)
        requires
            s * lo + d <= s * hi,
            d > 0,
    ;
}

/// With the boost held fixed, a larger raw score gives a larger boosted
/// score, and equal boosted scores come from equal raw scores.
pub proof fn lemma_apply_deb_monotone_in_score(low: nat, high: nat, deb: nat)
    requires
        low < high,
    ensures
        spec_apply_deb(low, deb) < spec_apply_deb(high, deb),
{
    let d = DEB_DENOMINATION as int;
    if deb > d {
        let l = low as int;
        let h = high as int;
        let b = deb as int;
        assert(h * b >= l * b + d) by (nonlinear_arith)
            requires
                h >= l + 1,
                b >= d,
                d > 0,
        ;
        assert((l * b + d) / d == (l * b) / d + 1) by (nonlinear_arith)
            requires
                d > 0,
        ;
        assert((l * b + d) / d <= (h * b) / d) by (nonlinear_arith)
            requires
                l * b + d <= h * b,
                d > 0,
        ;
    }
}

} // verus!
