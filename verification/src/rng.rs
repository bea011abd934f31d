use vstd::prelude::*;

use crate::direction::Direction;

verus! {

/// Calls `turbo_genesis_sdk::random::u32`, the platform's random number
/// source. Nothing is claimed of the number it returns.
#[verifier::external_body]
pub(crate) fn random_u32() -> u32 {
    turbo_genesis_sdk::random::u32()
}

/// Calls `turbo_genesis_sdk::random::shuffle` on the directions. The contract
/// claims only what its source shows: it swaps elements in place, so the
/// result holds the same directions, each as often. Which order comes out is
/// left open.
#[verifier::external_body]
pub(crate) fn shuffle_directions(dirs: &mut Vec<Direction>)
    ensures
        final(dirs)@.to_multiset() == old(dirs)@.to_multiset(),
{
    turbo_genesis_sdk::random::shuffle(dirs.as_mut_slice())
}

} // verus!
