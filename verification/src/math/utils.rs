//! Angles.
use vstd::prelude::*;
use crate::math::fixed::{magnitude, trunc_div, Fixed, ONE_RAW};
use crate::math::vector_laws::lemma_trunc_div_by_one;

verus! {

/// Raw count of a full turn in radians, rounded down.
pub const TAU_RAW: i64 = 26986075409;

/// The angle in radians: the degrees times a full turn, over 360.
pub open spec fn degrees_to_radians_spec(degrees: Fixed) -> Fixed {
    degrees.times(Fixed { raw: TAU_RAW }).over(Fixed::int_spec(360))
}

pub fn degrees_to_radians(degrees: Fixed) -> (radians: Fixed)
    ensures
        radians == degrees_to_radians_spec(degrees),
{
    degrees * Fixed::from_raw(TAU_RAW) / Fixed::from_int(360)
}

/// The angle in radians misses the exact share of a full turn by less
/// than one raw count, and never exceeds it in magnitude.
///
/// For an angle of at most 2^60 raw counts (2^28 degrees) the raw count
/// of the result, times 360, differs from the raw count of the degrees
/// times the full turn by less than 360. Both sides are written out in
/// units of 2^-64.
pub proof fn lemma_degrees_to_radians_is_close(degrees: Fixed)
    requires
        -0x1000_0000_0000_0000 <= degrees.raw <= 0x1000_0000_0000_0000,
    ensures
        magnitude(
            degrees.raw * TAU_RAW - 360 * ONE_RAW * degrees_to_radians_spec(degrees).raw,
        ) < 360 * ONE_RAW,
        magnitude(360 * ONE_RAW * degrees_to_radians_spec(degrees).raw) <= magnitude(
            degrees.raw * TAU_RAW,
        ),
{
    let s = ONE_RAW as int;
    let exact = degrees.raw * TAU_RAW;
    let product = trunc_div(exact, s);
    lemma_trunc_div_by_one(exact);
    assert(magnitude(exact) <= 0x1000_0000_0000_0000 * 26986075409) by (nonlinear_arith)
        requires
            exact == degrees.raw * 26986075409,
            -0x1000_0000_0000_0000 <= degrees.raw <= 0x1000_0000_0000_0000,
    ;
    assert(magnitude(s * product) == s * magnitude(product)) by (nonlinear_arith)
        requires
            s > 0,
    ;
    assert(degrees.times(Fixed { raw: TAU_RAW }).raw == product);
    let turn = Fixed::int_spec(360).raw as int;
    assert(turn == 360 * s);
    assert(magnitude(product * s) == magnitude(product) * s) by (nonlinear_arith)
        requires
            s > 0,
    ;
    let m = magnitude(product);
    let q = (m * s) / turn;
    assert(q == m / 360) by {
        vstd::arithmetic::div_mod::lemma_div_denominator(m * s, s, 360);
        vstd::arithmetic::div_mod::lemma_div_by_multiple(m, s);
        assert(s * 360 == turn);
    }
    assert(m == 360 * (m / 360) + m % 360);
    assert(magnitude(degrees_to_radians_spec(degrees).raw as int) == q);
}

/// Turning the other way gives the negated angle.
pub proof fn lemma_degrees_to_radians_is_odd(degrees: Fixed)
    requires
        degrees.raw > i64::MIN,
    ensures
        degrees_to_radians_spec(degrees.negated()) == degrees_to_radians_spec(degrees).negated(),
{
    let s = ONE_RAW as int;
    let exact = degrees.raw * TAU_RAW;
    assert((-degrees.raw) * TAU_RAW == -exact) by (nonlinear_arith)
        requires
            exact == degrees.raw * TAU_RAW,
    ;
    let product = degrees.times(Fixed { raw: TAU_RAW });
    let mirrored = degrees.negated().times(Fixed { raw: TAU_RAW });
    assert(degrees.negated().raw == -degrees.raw);
    assert(trunc_div(-exact, s) == -trunc_div(exact, s));
    assert(mirrored.raw == -product.raw || (product.raw == i64::MIN && mirrored.raw == i64::MAX)
        || (product.raw == i64::MAX && mirrored.raw == i64::MIN));
    if mirrored.raw != -product.raw {
        assert(0x8000_0000_0000_0000int * 0x1_0000_0000 == 39614081257132168796771975168);
        assert(0x7fff_ffff_ffff_ffffint * 0x1_0000_0000 == 39614081257132168792477007872);
        assert(39614081257132168796771975168int / 1546188226560 == 25620477880152155);
        assert(39614081257132168792477007872int / 1546188226560 == 25620477880152155);
        assert(magnitude(product.raw * ONE_RAW) == 39614081257132168796771975168 || magnitude(
            product.raw * ONE_RAW,
        ) == 39614081257132168792477007872);
        assert(magnitude(mirrored.raw * ONE_RAW) == 39614081257132168796771975168 || magnitude(
            mirrored.raw * ONE_RAW,
        ) == 39614081257132168792477007872);
    } else {
        assert(mirrored.raw * ONE_RAW == -(product.raw * ONE_RAW)) by (nonlinear_arith)
            requires
                mirrored.raw == -product.raw,
        ;
    }
}

} // verus!
