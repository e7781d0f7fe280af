use vstd::prelude::*;
use libafl_bolts::rands::{Rand, RomuDuoJrRand};
use core::num::NonZero;

verus! {

#[verifier::external_type_specification]
#[verifier::external_body]
pub struct ExRomuDuoJrRand(RomuDuoJrRand);

/// Relies on `RomuDuoJrRand::with_seed` (libafl_bolts' standard generator):
/// a generator whose stream is fixed by the seed.
#[verifier::external_body]
pub(crate) fn seeded(seed: u64) -> (r: RomuDuoJrRand) {
    RomuDuoJrRand::with_seed(seed)
}

/// Relies on `Rand::below`: a value strictly below the bound, which must
/// not be zero.
#[verifier::external_body]
pub(crate) fn below(rng: &mut RomuDuoJrRand, bound: usize) -> (r: usize)
    requires
        bound > 0,
    ensures
        r < bound,
{
    rng.below(NonZero::new(bound).unwrap())
}

} // verus!
