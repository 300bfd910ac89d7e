//! The source of random numbers.
use vstd::prelude::*;
use rand::rngs::StdRng;
use rand::Rng;
use rand::SeedableRng;

verus! {

/// The seedable generator of `rand`: `rand::rngs::StdRng`. Its state is
/// opaque here; each pixel owns one.
#[verifier::external_type_specification]
#[verifier::external_body]
pub struct ExStdRng(StdRng);

/// Calls `rand::Rng::gen_range` on two `i64` bounds. That method panics
/// unless `low < high`, which is required here, and returns `low` plus an
/// offset that is less than `high - low`: a value in `[low, high)`. Nothing
/// is claimed about which one.
#[verifier::external_body]
pub(crate) fn uniform_raw(rng: &mut StdRng, low: i64, high: i64) -> (r: i64)
    requires
        low < high,
    ensures
        low <= r < high,
{
    rng.gen_range(low, high)
}

/// Calls `rand::SeedableRng::seed_from_u64` for `StdRng`, which accepts
/// every seed. Nothing is claimed about the generator that comes back.
#[verifier::external_body]
pub(crate) fn seeded(state: u64) -> (rng: StdRng) {
    StdRng::seed_from_u64(state)
}

/// The generator of the pixel with the given index: seeded with what
/// `pixel_seed` makes of the seed of the image and the index.
pub fn pixel_rng(seed: u64, index: u32) -> (rng: StdRng) {
    seeded(pixel_seed(seed, index))
}

/// The seed of the image plus the index of the pixel, wrapping around at
/// 2^64.
pub open spec fn pixel_seed_spec(seed: u64, index: u32) -> u64 {
    if seed + index > u64::MAX {
        (seed + index - 0x1_0000_0000_0000_0000) as u64
    } else {
        (seed + index) as u64
    }
}

/// The seed that the generator of the pixel with the given index is
/// made from.
pub fn pixel_seed(seed: u64, index: u32) -> (state: u64)
    ensures
        state == pixel_seed_spec(seed, index),
{
    seed.wrapping_add(index as u64)
}

} // verus!
