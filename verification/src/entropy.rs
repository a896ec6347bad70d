//! The external sources of randomness: round tokens, delivery shuffling and
//! loss trials. Each call is wrapped once, with a contract that states only
//! what holds of every outcome.

use vstd::prelude::*;

use rand::seq::SliceRandom;
use rand::Rng;

use crate::network::Entry;

verus! {

/// Relies on uuid::Uuid::new_v4: a freshly generated random (version 4)
/// identifier, taken as its 128-bit value. A round token only needs a
/// random value with negligible collision probability, so nothing is
/// assumed of the value returned.
#[verifier::external_body]
pub(crate) fn fresh_token() -> u128 {
    uuid::Uuid::new_v4().as_u128()
}

/// Relies on rand::seq::SliceRandom::shuffle (a Fisher-Yates pass of
/// element swaps): it permutes the slice in place, so exactly the same
/// entries remain, in some order. Nothing is assumed of the order.
#[verifier::external_body]
pub(crate) fn shuffle_entries(entries: &mut Vec<Entry>)
    ensures
        final(entries)@.to_multiset() == old(entries)@.to_multiset(),
        final(entries)@.len() == old(entries)@.len(),
        forall|k: int| 0 <= k < final(entries)@.len() ==> old(entries)@.contains(
            final(entries)@[k],
        ),
{
    let mut rng = rand::thread_rng();
    entries.shuffle(&mut rng);
}

/// Relies on rand::Rng::gen_ratio: one Bernoulli trial that is true with
/// probability `num / denom`. It panics unless 0 < denom and num <= denom;
/// nothing is assumed of the outcome.
#[verifier::external_body]
pub(crate) fn loss_trial(num: u32, denom: u32) -> bool
    requires
        0 < denom,
        num <= denom,
{
    rand::thread_rng().gen_ratio(num, denom)
}

} // verus!
