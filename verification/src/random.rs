//! Random numbers of the rand crate.

use rand::rngs::SmallRng;
use rand::{Rng, SeedableRng};
use vstd::prelude::*;

verus! {

/// The small random number generator of the rand crate.
#[verifier::external_type_specification]
#[verifier::external_body]
pub struct ExSmallRng(rand::rngs::SmallRng);

/// `SeedableRng::seed_from_u64` makes a generator from a seed. Nothing is said
/// of the numbers that it will draw: they differ between platforms.
#[verifier::external_body]
pub(crate) fn seed_from_u64(seed: u64) -> (result: SmallRng) {
    SmallRng::seed_from_u64(seed)
}

/// `Rng::random_range` over the inclusive range from zero to `last` draws a
/// number of that range. Which one is not said: it differs between platforms.
#[verifier::external_body]
pub(crate) fn random_up_to(rng: &mut SmallRng, last: usize) -> (result: usize)
    ensures
        result <= last,
{
    rng.random_range(0..=last)
}

} // verus!
