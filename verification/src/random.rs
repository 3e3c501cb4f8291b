//! Random draws, taken from the `rand` crate.
//!
//! Nothing in this file is proved: it states what the rest of the library
//! takes for granted about the generator.

use rand::rngs::StdRng;
use rand::Rng;
use rand::SeedableRng;
use vstd::prelude::*;

verus! {

/// `rand::rngs::StdRng`, carried about as a value whose inside is not
/// looked at.
#[verifier::external_type_specification]
#[verifier::external_body]
pub struct ExStdRng(rand::rngs::StdRng);

/// `SeedableRng::seed_from_u64` for `StdRng`: a generator started from a
/// seed. Nothing is claimed of the numbers it will give.
#[verifier::external_body]
pub(crate) fn seeded(seed: u64) -> StdRng {
    StdRng::seed_from_u64(seed)
}

/// `Rng::gen_range` on the range `0..=high`, which is never empty: some
/// number of that range.
#[verifier::external_body]
pub(crate) fn draw_up_to(rng: &mut StdRng, high: u8) -> (n: u8)
    ensures
        n <= high,
{
    rng.gen_range(0..=high)
}

} // verus!
