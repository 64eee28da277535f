//! The random source.
//!
//! The simulation draws its random numbers from one generator that it owns
//! and hands to whoever needs a number. The generator is `rand`'s `SmallRng`;
//! nothing is known of a number it yields but the range it was asked for.
use rand::rngs::SmallRng;
use rand::Rng;
use rand::SeedableRng;
use vstd::prelude::*;

verus! {

#[verifier::external_type_specification]
#[verifier::external_body]
pub struct ExSmallRng(SmallRng);

/// A generator started from the given seed, by `SmallRng::from_seed`. Nothing
/// is claimed of the generator.
#[verifier::external_body]
pub(crate) fn seeded(seed: [u8; 16]) -> SmallRng {
    SmallRng::from_seed(seed)
}

/// A number from `low` up to, but not including, `high`, by
/// `Rng::gen_range`. The call panics where the range is empty, so `low` must
/// be below `high`; of the number, only its range is claimed.
#[verifier::external_body]
pub(crate) fn draw(rng: &mut SmallRng, low: i64, high: i64) -> (r: i64)
    requires
        low < high,
    ensures
        low <= r < high,
{
    rng.gen_range(low, high)
}

} // verus!
