//! Fixed parameters of the ledger.

use vstd::prelude::*;

verus! {

/// Denominator of the per-user boost factor: a boost of `DEB_DENOMINATION`
/// is exactly 1.0x.
pub const DEB_DENOMINATION: u64 = 100_000;

/// Highest nonce of the run `1..=N` that makes up one full set of the
/// coding-division collection.
pub const VESTA_CODING_DIVISION_FULL_SET_MAX_NONCE: u64 = 10;

/// Nonce of the snake asset itself inside a snakes collection; the other
/// nonces of such a collection only carry company-share weights.
pub const SNAKES_SCORED_NONCE: u64 = 1;

/// Cooling-off period between an unbonding request and its claim: three days,
/// in seconds.
pub const DEFAULT_UNBONDING_TIME_PENALTY: u64 = 259_200;

} // verus!
