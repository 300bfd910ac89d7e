//! Ready-made scenes.
use vstd::prelude::*;
use crate::math::fixed::{lemma_ratio_at_most_one, magnitude, Fixed, ONE_RAW};
use crate::math::math3::Vec3;
use crate::math::radiance_laws::is_color;

pub mod first_fractal;
pub mod spherion;
pub mod spherion_meets_fractalius;
pub mod three_spheres;

verus! {

/// The vector whose components are the given numbers of thousandths.
pub open spec fn thousandths_spec(x: int, y: int, z: int) -> Vec3 {
    Vec3 {
        x: Fixed::ratio_spec(x, 1000),
        y: Fixed::ratio_spec(y, 1000),
        z: Fixed::ratio_spec(z, 1000),
    }
}

/// Up to a thousand thousandths in each component make a colour.
pub proof fn lemma_thousandths_is_color(x: int, y: int, z: int)
    requires
        0 <= x <= 1000,
        0 <= y <= 1000,
        0 <= z <= 1000,
    ensures
        is_color(thousandths_spec(x, y, z)),
{
    lemma_ratio_at_most_one(x, 1000);
    lemma_ratio_at_most_one(y, 1000);
    lemma_ratio_at_most_one(z, 1000);
    assert(magnitude(x * ONE_RAW) / 1000 >= 0 && magnitude(y * ONE_RAW) / 1000 >= 0 && magnitude(
        z * ONE_RAW,
    ) / 1000 >= 0);
    assert(x * ONE_RAW >= 0 && y * ONE_RAW >= 0 && z * ONE_RAW >= 0);
}

pub(crate) fn thousandths(x: i64, y: i64, z: i64) -> (v: Vec3)
    ensures
        v == thousandths_spec(x as int, y as int, z as int),
{
    Vec3::new(Fixed::from_ratio(x, 1000), Fixed::from_ratio(y, 1000), Fixed::from_ratio(z, 1000))
}

} // verus!
