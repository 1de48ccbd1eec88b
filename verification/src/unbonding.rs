//! The unbonding queue: which withdrawal requests have cooled off, and what
//! they pay out.

use crate::storage::user_data::UnbondingBatch;
use crate::types::start_unbonding_payload::payments_of;
use crate::types::token_payment::TokenPayment;
use vstd::prelude::*;

verus! {

/// The batch has cooled off at `now`: `penalty` seconds or more have passed
/// since the request.
pub open spec fn is_matured(batch: UnbondingBatch, now: u64, penalty: u64) -> bool {
    batch.timestamp + penalty <= now
}

/// What the batches that have cooled off at `now` pay out: the assets of
/// each, oldest batch first.
pub open spec fn matured_payments(batches: Seq<UnbondingBatch>, now: u64, penalty: u64) -> Seq<
    TokenPayment,
>
    decreases batches.len(),
{
    if batches.len() == 0 {
        Seq::empty()
    } else {
        let earlier = matured_payments(batches.drop_last(), now, penalty);
        if is_matured(batches.last(), now, penalty) {
            earlier + payments_of(
                batches.last().payload.token_identifier,
                batches.last().payload.items@,
            )
        } else {
            earlier
        }
    }
}

/// The batches that have not cooled off at `now`, in their order.
pub open spec fn pending_batches(batches: Seq<UnbondingBatch>, now: u64, penalty: u64) -> Seq<
    UnbondingBatch,
>
    decreases batches.len(),
{
    if batches.len() == 0 {
        Seq::empty()
    } else {
        let earlier = pending_batches(batches.drop_last(), now, penalty);
        if is_matured(batches.last(), now, penalty) {
            earlier
        } else {
            earlier.push(batches.last())
        }
    }
}

/// Whether the batch has cooled off at `now`.
pub fn check_matured(batch: &UnbondingBatch, now: u64, penalty: u64) -> (matured: bool)
    ensures
        matured == is_matured(*batch, now, penalty),
{
    batch.timestamp <= now && now - batch.timestamp >= penalty
}

/// What the batches that have cooled off at `now` pay out.
pub fn collect_matured_payments(batches: &Vec<UnbondingBatch>, now: u64, penalty: u64) -> (payments:
    Vec<TokenPayment>)
    ensures
        payments@ == matured_payments(batches@, now, penalty),
{
    let mut payments: Vec<TokenPayment> = Vec::new();
    let mut i: usize = 0;
    while i < batches.len()
        invariant
            i <= batches.len(),
            payments@ == matured_payments(batches@.take(i as int), now, penalty),
        decreases batches.len() - i,
    {
        proof {
            assert(batches@.take(i + 1).drop_last() =~= batches@.take(i as int));
        }
        if check_matured(&batches[i], now, penalty) {
            let mut batch_payments = batches[i].payload.get_payments();
            payments.append(&mut batch_payments);
        }
        i += 1;
    }
    proof {
        assert(batches@.take(batches.len() as int) =~= batches@);
    }
    payments
}

/// Strikes the batches that have cooled off at `now`; the others keep their
/// order.
pub fn remove_matured(batches: &mut Vec<UnbondingBatch>, now: u64, penalty: u64)
    ensures
        final(batches)@ == pending_batches(old(batches)@, now, penalty),
{
    let ghost all = batches@;
    let ghost mut seen: int = 0;
    let mut i: usize = 0;
    while i < batches.len()
        invariant
            0 <= seen <= all.len(),
            i <= batches.len(),
            i == pending_batches(all.take(seen), now, penalty).len(),
            batches@ == pending_batches(all.take(seen), now, penalty) + all.skip(seen),
        decreases all.len() - seen,
    {
        proof {
            assert(seen < all.len());
            assert(batches@[i as int] == all[seen]);
            assert(all.take(seen + 1).drop_last() =~= all.take(seen));
            assert(all.skip(seen) =~= seq![all[seen]] + all.skip(seen + 1));
        }
        if check_matured(&batches[i], now, penalty) {
            batches.remove(i);
            proof {
                assert(batches@ =~= pending_batches(all.take(seen + 1), now, penalty) + all.skip(
                    seen + 1,
                ));
            }
        } else {
            proof {
                assert(batches@ =~= pending_batches(all.take(seen + 1), now, penalty) + all.skip(
                    seen + 1,
                ));
            }
            i += 1;
        }
        proof {
            seen = seen + 1;
        }
    }
    proof {
        assert(batches@.len() == i);
        assert(all.skip(seen).len() == 0);
        assert(seen == all.len());
        assert(all.take(seen) =~= all);
        assert(batches@ =~= pending_batches(all, now, penalty));
    }
}

} // verus!
