//! What holds of the cross product and of the camera's axes up to
//! rounding.
use vstd::prelude::*;
use crate::math::fixed::{
    int_sqrt, lemma_int_sqrt_exists, lemma_square_monotone, magnitude, ratio_raw, Fixed, ONE_RAW,
};
use crate::math::imaging::Camera;
use crate::math::math3::{
    cross_spec, dot_spec, lemma_component_at_most_length, lemma_unit_vector_in_unit_cube, Vec3,
};
use crate::math::vector_laws::{
    bounded, lemma_dot_unit, lemma_times_unit, lemma_unit_vector_has_unit_length, vec_bounded,
};

verus! {

/// A product of two numbers of which one lies in `[-1, 1]`: it misses
/// the exact product by less than one raw count and is no larger than
/// the other factor.
proof fn lemma_product_error(x: Fixed, y: Fixed, m: int)
    requires
        0 <= m <= i64::MAX,
        (bounded(x, ONE_RAW as int) && bounded(y, m)) || (bounded(y, ONE_RAW as int) && bounded(
            x,
            m,
        )),
    ensures
        -ONE_RAW < x.raw * y.raw - ONE_RAW * x.times(y).raw < ONE_RAW,
        bounded(x.times(y), m),
{
    if bounded(y, ONE_RAW as int) && bounded(x, m) {
        lemma_times_unit(x, y);
    } else {
        lemma_times_unit(y, x);
        assert(y.raw * x.raw == x.raw * y.raw) by (nonlinear_arith);
    }
}

/// The cross product of two vectors of which one lies in the unit cube:
/// each component misses the exact one by less than two raw counts.
proof fn lemma_cross_error(a: Vec3, b: Vec3, m: int)
    requires
        0 <= m <= 0x2000_0000_0000_0000,
        (a.in_unit_cube() && vec_bounded(b, m)) || (b.in_unit_cube() && vec_bounded(a, m)),
    ensures
        vec_bounded(cross_spec(a, b), 2 * m),
        -2 * ONE_RAW < ONE_RAW * cross_spec(a, b).x.raw - (a.y.raw * b.z.raw - a.z.raw * b.y.raw)
            < 2 * ONE_RAW,
        -2 * ONE_RAW < ONE_RAW * cross_spec(a, b).y.raw - (a.z.raw * b.x.raw - a.x.raw * b.z.raw)
            < 2 * ONE_RAW,
        -2 * ONE_RAW < ONE_RAW * cross_spec(a, b).z.raw - (a.x.raw * b.y.raw - a.y.raw * b.x.raw)
            < 2 * ONE_RAW,
{
    lemma_product_error(a.y, b.z, m);
    lemma_product_error(a.z, b.y, m);
    lemma_product_error(a.z, b.x, m);
    lemma_product_error(a.x, b.z, m);
    lemma_product_error(a.x, b.y, m);
    lemma_product_error(a.y, b.x, m);
}

/// The sum behind a dot product with a vector of the unit cube, where
/// each component of the other vector carries an error below two raw
/// counts and the exact parts cancel: it is below `6 s`.
proof fn lemma_errors_against_unit(
    c0: int,
    c1: int,
    c2: int,
    x0: int,
    x1: int,
    x2: int,
    n0: int,
    n1: int,
    n2: int,
)
    requires
        -ONE_RAW <= n0 <= ONE_RAW,
        -ONE_RAW <= n1 <= ONE_RAW,
        -ONE_RAW <= n2 <= ONE_RAW,
        -2 * ONE_RAW < ONE_RAW * c0 - x0 < 2 * ONE_RAW,
        -2 * ONE_RAW < ONE_RAW * c1 - x1 < 2 * ONE_RAW,
        -2 * ONE_RAW < ONE_RAW * c2 - x2 < 2 * ONE_RAW,
        x0 * n0 + x1 * n1 + x2 * n2 == 0,
    ensures
        -6 * ONE_RAW < c0 * n0 + c1 * n1 + c2 * n2 < 6 * ONE_RAW,
{
    let s = ONE_RAW as int;
    let (e0, e1, e2) = (s * c0 - x0, s * c1 - x1, s * c2 - x2);
    assert(s * (c0 * n0) == x0 * n0 + e0 * n0 && s * (c1 * n1) == x1 * n1 + e1 * n1 && s * (c2
        * n2) == x2 * n2 + e2 * n2) by (nonlinear_arith)
        requires
            e0 == s * c0 - x0,
            e1 == s * c1 - x1,
            e2 == s * c2 - x2,
    ;
    assert(-2 * (s * s) < e0 * n0 < 2 * (s * s)) by (nonlinear_arith)
        requires
            -2 * s < e0 < 2 * s,
            -s <= n0 <= s,
    ;
    assert(-2 * (s * s) < e1 * n1 < 2 * (s * s)) by (nonlinear_arith)
        requires
            -2 * s < e1 < 2 * s,
            -s <= n1 <= s,
    ;
    assert(-2 * (s * s) < e2 * n2 < 2 * (s * s)) by (nonlinear_arith)
        requires
            -2 * s < e2 < 2 * s,
            -s <= n2 <= s,
    ;
    let sum = c0 * n0 + c1 * n1 + c2 * n2;
    assert(s * sum == s * (c0 * n0) + s * (c1 * n1) + s * (c2 * n2)) by (nonlinear_arith)
        requires
            sum == c0 * n0 + c1 * n1 + c2 * n2,
    ;
    assert(-6 * (s * s) < s * sum < 6 * (s * s));
    assert(-6 * s < sum < 6 * s) by (nonlinear_arith)
        requires
            -6 * (s * s) < s * sum < 6 * (s * s),
            s > 0,
    ;
}

/// The cross product is at right angles to its second factor, up to
/// rounding: where the second factor lies in the unit cube and the
/// first is at most 2^59 raw counts in each component, their dot
/// product is at most eight raw counts.
pub proof fn lemma_cross_is_orthogonal_to_second(a: Vec3, b: Vec3)
    requires
        b.in_unit_cube(),
        vec_bounded(a, 0x800_0000_0000_0000),
    ensures
        -8 <= dot_spec(cross_spec(a, b), b).raw <= 8,
        -6 * ONE_RAW < cross_spec(a, b).x.raw * b.x.raw + cross_spec(a, b).y.raw * b.y.raw
            + cross_spec(a, b).z.raw * b.z.raw < 6 * ONE_RAW,
        vec_bounded(cross_spec(a, b), 0x1000_0000_0000_0000),
{
    let c = cross_spec(a, b);
    lemma_cross_error(a, b, 0x800_0000_0000_0000);
    lemma_dot_unit(c, b, 0x1000_0000_0000_0000);
    let (x0, x1, x2) = (a.y.raw * b.z.raw - a.z.raw * b.y.raw, a.z.raw * b.x.raw - a.x.raw
        * b.z.raw, a.x.raw * b.y.raw - a.y.raw * b.x.raw);
    assert(x0 * b.x.raw + x1 * b.y.raw + x2 * b.z.raw == 0) by (nonlinear_arith)
        requires
            x0 == a.y.raw * b.z.raw - a.z.raw * b.y.raw,
            x1 == a.z.raw * b.x.raw - a.x.raw * b.z.raw,
            x2 == a.x.raw * b.y.raw - a.y.raw * b.x.raw,
    ;
    lemma_errors_against_unit(
        c.x.raw as int,
        c.y.raw as int,
        c.z.raw as int,
        x0,
        x1,
        x2,
        b.x.raw as int,
        b.y.raw as int,
        b.z.raw as int,
    );
}

/// The cross product is at right angles to its first factor, up to
/// rounding: where the first factor lies in the unit cube and the
/// second is at most 2^59 raw counts in each component, their dot
/// product is at most eight raw counts.
pub proof fn lemma_cross_is_orthogonal_to_first(a: Vec3, b: Vec3)
    requires
        a.in_unit_cube(),
        vec_bounded(b, 0x800_0000_0000_0000),
    ensures
        -8 <= dot_spec(cross_spec(a, b), a).raw <= 8,
{
    let c = cross_spec(a, b);
    lemma_cross_error(a, b, 0x800_0000_0000_0000);
    lemma_dot_unit(c, a, 0x1000_0000_0000_0000);
    let (x0, x1, x2) = (a.y.raw * b.z.raw - a.z.raw * b.y.raw, a.z.raw * b.x.raw - a.x.raw
        * b.z.raw, a.x.raw * b.y.raw - a.y.raw * b.x.raw);
    assert(x0 * a.x.raw + x1 * a.y.raw + x2 * a.z.raw == 0) by (nonlinear_arith)
        requires
            x0 == a.y.raw * b.z.raw - a.z.raw * b.y.raw,
            x1 == a.z.raw * b.x.raw - a.x.raw * b.z.raw,
            x2 == a.x.raw * b.y.raw - a.y.raw * b.x.raw,
    ;
    lemma_errors_against_unit(
        c.x.raw as int,
        c.y.raw as int,
        c.z.raw as int,
        x0,
        x1,
        x2,
        a.x.raw as int,
        a.y.raw as int,
        a.z.raw as int,
    );
}

impl Camera {
    /// The axes of the camera: `w` from the target back to the eye, `u`
    /// to the right and `v` up, as `new_spec` makes them.
    pub open spec fn axes_spec(lookfrom: Vec3, lookat: Vec3, vup: Vec3) -> (Vec3, Vec3, Vec3) {
        let w = lookfrom.minus(lookat).unit_vector_spec();
        let u = cross_spec(vup, w).unit_vector_spec();
        let v = cross_spec(w, u);
        (w, u, v)
    }
}

/// One component of a normalised vector: it misses the exact quotient of
/// the component by the length by less than one raw count.
proof fn lemma_normalised_component(x: int, l: int)
    requires
        0 < l <= i64::MAX,
        magnitude(x) <= l,
    ensures
        -l < x * ONE_RAW - l * ratio_raw(x, l) < l,
        -ONE_RAW <= ratio_raw(x, l) <= ONE_RAW,
{
    let s = ONE_RAW as int;
    let m = magnitude(x);
    assert(magnitude(x * s) == m * s) by (nonlinear_arith)
        requires
            m == magnitude(x),
            s > 0,
    ;
    let q = (m * s) / l;
    assert(0 <= m * s <= s * l) by (nonlinear_arith)
        requires
            0 <= m <= l,
            s > 0,
    ;
    vstd::arithmetic::div_mod::lemma_fundamental_div_mod(m * s, l);
    vstd::arithmetic::div_mod::lemma_mod_pos_bound(m * s, l);
    vstd::arithmetic::div_mod::lemma_div_pos_is_pos(m * s, l);
    vstd::arithmetic::div_mod::lemma_div_is_ordered(m * s, s * l, l);
    vstd::arithmetic::div_mod::lemma_div_by_multiple(s, l);
    assert(0 <= q <= s);
    assert(x * ONE_RAW == x * s);
    assert(l * (-q) == -(l * q)) by (nonlinear_arith);
    assert(x * s == -(m * s) || x * s == m * s) by (nonlinear_arith)
        requires
            m == magnitude(x),
    ;
}

/// One term of the dot product of a normalised vector with a vector of
/// the unit cube, against the term of the vector before normalising.
proof fn lemma_normalised_term(c: int, u: int, n: int, l: int)
    requires
        0 < l,
        -ONE_RAW <= n <= ONE_RAW,
        -l < c * ONE_RAW - l * u < l,
    ensures
        l * (u * n) == ONE_RAW * (c * n) - (c * ONE_RAW - l * u) * n,
        -(l * ONE_RAW) < (c * ONE_RAW - l * u) * n < l * ONE_RAW,
{
    let s = ONE_RAW as int;
    let r = c * s - l * u;
    assert(l * (u * n) == s * (c * n) - r * n) by (nonlinear_arith)
        requires
            r == c * s - l * u,
    ;
    assert(-(l * s) < r * n < l * s) by (nonlinear_arith)
        requires
            -l < r < l,
            -s <= n <= s,
            l > 0,
            s > 0,
    ;
}

/// Normalising keeps a vector at right angles: where the exact sum of
/// products of `c` with a vector `n` of the unit cube is below `6 s`, and
/// `c` is at least one half long, the dot product of the normalised `c`
/// with `n` is at most seventeen raw counts.
proof fn lemma_normalised_stays_orthogonal(c: Vec3, n: Vec3)
    requires
        n.in_unit_cube(),
        vec_bounded(c, 0x1000_0000_0000_0000),
        2 * c.length_spec().raw >= ONE_RAW,
        -6 * ONE_RAW < c.x.raw * n.x.raw + c.y.raw * n.y.raw + c.z.raw * n.z.raw < 6 * ONE_RAW,
    ensures
        -17 <= dot_spec(c.unit_vector_spec(), n).raw <= 17,
        -15 * ONE_RAW < c.unit_vector_spec().x.raw * n.x.raw + c.unit_vector_spec().y.raw
            * n.y.raw + c.unit_vector_spec().z.raw * n.z.raw < 15 * ONE_RAW,
{
    let s = ONE_RAW as int;
    let nn = c.norm_squared_raw();
    let bound: int = 0x1000_0000_0000_0000;
    assert(c.x.raw * c.x.raw <= bound * bound && c.y.raw * c.y.raw <= bound * bound && c.z.raw
        * c.z.raw <= bound * bound && 0 <= nn) by (nonlinear_arith)
        requires
            -bound <= c.x.raw <= bound,
            -bound <= c.y.raw <= bound,
            -bound <= c.z.raw <= bound,
            nn == c.x.raw * c.x.raw + c.y.raw * c.y.raw + c.z.raw * c.z.raw,
    ;
    lemma_int_sqrt_exists(nn);
    let l = int_sqrt(nn);
    if l > 2 * bound {
        lemma_square_monotone(2 * bound, l);
        assert((2 * bound) * (2 * bound) == 4 * (bound * bound)) by (nonlinear_arith);
        assert(false);
    }
    assert(c.length_spec().raw == l);
    lemma_component_at_most_length(c);
    let u = c.unit_vector_spec();
    lemma_normalised_component(c.x.raw as int, l);
    lemma_normalised_component(c.y.raw as int, l);
    lemma_normalised_component(c.z.raw as int, l);
    lemma_dot_unit(u, n, s);
    let (n0, n1, n2) = (n.x.raw as int, n.y.raw as int, n.z.raw as int);
    let (r0, r1, r2) = (c.x.raw * s - l * u.x.raw, c.y.raw * s - l * u.y.raw, c.z.raw * s - l
        * u.z.raw);
    let exact = c.x.raw * n0 + c.y.raw * n1 + c.z.raw * n2;
    let sum = u.x.raw * n0 + u.y.raw * n1 + u.z.raw * n2;
    lemma_normalised_term(c.x.raw as int, u.x.raw as int, n0, l);
    lemma_normalised_term(c.y.raw as int, u.y.raw as int, n1, l);
    lemma_normalised_term(c.z.raw as int, u.z.raw as int, n2, l);
    assert(l * sum == l * (u.x.raw * n0) + l * (u.y.raw * n1) + l * (u.z.raw * n2))
        by (nonlinear_arith)
        requires
            sum == u.x.raw * n0 + u.y.raw * n1 + u.z.raw * n2,
    ;
    assert(s * exact == s * (c.x.raw * n0) + s * (c.y.raw * n1) + s * (c.z.raw * n2))
        by (nonlinear_arith)
        requires
            exact == c.x.raw * n0 + c.y.raw * n1 + c.z.raw * n2,
    ;
    assert(l * sum == s * exact - (r0 * n0 + r1 * n1 + r2 * n2));
    assert(-3 * (l * s) < r0 * n0 + r1 * n1 + r2 * n2 < 3 * (l * s));
    assert(-15 * s < sum < 15 * s) by (nonlinear_arith)
        requires
            l * sum == s * exact - (r0 * n0 + r1 * n1 + r2 * n2),
            -6 * s < exact < 6 * s,
            -3 * (l * s) < r0 * n0 + r1 * n1 + r2 * n2 < 3 * (l * s),
            2 * l >= s,
            s == 4294967296,
    ;
}

/// The squared length of a vector of the unit cube whose length is one
/// up to rounding misses one by at most eight raw counts below and five
/// above, in units of 2^-64.
proof fn lemma_axis_norm(u: Vec3)
    requires
        u.in_unit_cube(),
        ONE_RAW - 4 <= u.length_spec().raw <= ONE_RAW + 1,
    ensures
        ONE_RAW * ONE_RAW - 8 * ONE_RAW <= u.norm_squared_raw() <= ONE_RAW * ONE_RAW + 5 * ONE_RAW,
{
    let s = ONE_RAW as int;
    let nn = u.norm_squared_raw();
    assert(0 <= nn <= 3 * (s * s)) by (nonlinear_arith)
        requires
            nn == u.x.raw * u.x.raw + u.y.raw * u.y.raw + u.z.raw * u.z.raw,
            -s <= u.x.raw <= s,
            -s <= u.y.raw <= s,
            -s <= u.z.raw <= s,
    ;
    lemma_int_sqrt_exists(nn);
    let l = int_sqrt(nn);
    if l > 2 * s {
        lemma_square_monotone(2 * s, l);
        assert(false);
    }
    assert(u.length_spec().raw == l);
    assert((s - 4) * (s - 4) <= l * l) by (nonlinear_arith)
        requires
            0 <= s - 4 <= l,
    ;
    assert((l + 1) * (l + 1) <= (s + 2) * (s + 2)) by (nonlinear_arith)
        requires
            0 <= l + 1 <= s + 2,
    ;
    assert((s - 4) * (s - 4) == s * s - 8 * s + 16 && (s + 2) * (s + 2) == s * s + 4 * s + 4)
        by (nonlinear_arith);
}

/// The squares of the components of a cross product and the square of
/// the dot product add up to the product of the squared lengths.
proof fn lemma_lagrange(w0: int, w1: int, w2: int, u0: int, u1: int, u2: int)
    ensures
        (w1 * u2 - w2 * u1) * (w1 * u2 - w2 * u1) + (w2 * u0 - w0 * u2) * (w2 * u0 - w0 * u2) + (w0
            * u1 - w1 * u0) * (w0 * u1 - w1 * u0) + (w0 * u0 + w1 * u1 + w2 * u2) * (w0 * u0 + w1
            * u1 + w2 * u2) == (w0 * w0 + w1 * w1 + w2 * w2) * (u0 * u0 + u1 * u1 + u2 * u2),
{
    let (f0, f1, f2) = (w0 * u0, w1 * u1, w2 * u2);
    lemma_square_of_difference(w1 * u2, w2 * u1);
    lemma_square_of_difference(w2 * u0, w0 * u2);
    lemma_square_of_difference(w0 * u1, w1 * u0);
    lemma_square_of_sum(f0, f1, f2);
    lemma_product_of_sums(w0 * w0, w1 * w1, w2 * w2, u0 * u0, u1 * u1, u2 * u2);
    lemma_monomials(w1, u2);
    lemma_monomials(w2, u1);
    lemma_monomials(w2, u0);
    lemma_monomials(w0, u2);
    lemma_monomials(w0, u1);
    lemma_monomials(w1, u0);
    lemma_monomials(w0, u0);
    lemma_monomials(w1, u1);
    lemma_monomials(w2, u2);
    assert((w1 * u2) * (w2 * u1) == f1 * f2 && (w2 * u0) * (w0 * u2) == f0 * f2 && (w0 * u1)
        * (w1 * u0) == f0 * f1) by {
        assert((w1 * u2) * (w2 * u1) == (w1 * u1) * (w2 * u2)) by (nonlinear_arith);
        assert((w2 * u0) * (w0 * u2) == (w0 * u0) * (w2 * u2)) by (nonlinear_arith);
        assert((w0 * u1) * (w1 * u0) == (w0 * u0) * (w1 * u1)) by (nonlinear_arith);
    }
}

/// `(a - b)^2 = a^2 - 2 a b + b^2`.
proof fn lemma_square_of_difference(a: int, b: int)
    ensures
        (a - b) * (a - b) == a * a - 2 * (a * b) + b * b,
{
    assert((a - b) * (a - b) == a * a - 2 * (a * b) + b * b) by (nonlinear_arith);
}

/// `(a + b + c)^2` written out.
proof fn lemma_square_of_sum(a: int, b: int, c: int)
    ensures
        (a + b + c) * (a + b + c) == a * a + b * b + c * c + 2 * (a * b) + 2 * (a * c) + 2 * (b
            * c),
{
    assert((a + b + c) * (a + b + c) == a * a + b * b + c * c + 2 * (a * b) + 2 * (a * c) + 2 * (b
        * c)) by (nonlinear_arith);
}

/// The product of two sums of three written out.
proof fn lemma_product_of_sums(a0: int, a1: int, a2: int, b0: int, b1: int, b2: int)
    ensures
        (a0 + a1 + a2) * (b0 + b1 + b2) == a0 * b0 + a0 * b1 + a0 * b2 + a1 * b0 + a1 * b1 + a1
            * b2 + a2 * b0 + a2 * b1 + a2 * b2,
{
    assert((a0 + a1 + a2) * (b0 + b1 + b2) == a0 * b0 + a0 * b1 + a0 * b2 + a1 * b0 + a1 * b1
        + a1 * b2 + a2 * b0 + a2 * b1 + a2 * b2) by (nonlinear_arith);
}

/// The square of a product is the product of the squares.
proof fn lemma_monomials(a: int, b: int)
    ensures
        (a * b) * (a * b) == (a * a) * (b * b),
{
    assert((a * b) * (a * b) == (a * a) * (b * b)) by (nonlinear_arith);
}

/// The square of a component of a cross product of two vectors of the
/// unit cube: with `s v = x + e`, `e` below two raw counts and `x` at most
/// `2 s^2`, `s^2 v^2` misses `x^2` by at most `8 s^3` below and
/// `8 s^3 + 4 s^2` above.
proof fn lemma_cross_component_square(x: int, v: int)
    requires
        -2 * (ONE_RAW * ONE_RAW) <= x <= 2 * (ONE_RAW * ONE_RAW),
        -2 * ONE_RAW < ONE_RAW * v - x < 2 * ONE_RAW,
    ensures
        x * x - 8 * (ONE_RAW * ONE_RAW * ONE_RAW) <= (ONE_RAW * ONE_RAW) * (v * v) <= x * x + 8 * (
        ONE_RAW * ONE_RAW * ONE_RAW) + 4 * (ONE_RAW * ONE_RAW),
{
    let s = ONE_RAW as int;
    let e = s * v - x;
    assert((s * v) * (s * v) == x * x + 2 * (x * e) + e * e) by (nonlinear_arith)
        requires
            e == s * v - x,
    ;
    assert((s * v) * (s * v) == (s * s) * (v * v)) by (nonlinear_arith);
    assert(-(4 * (s * s * s)) <= x * e <= 4 * (s * s * s)) by (nonlinear_arith)
        requires
            -2 * (s * s) <= x <= 2 * (s * s),
            -2 * s < e < 2 * s,
            s > 0,
    ;
    assert(0 <= e * e <= 4 * (s * s)) by (nonlinear_arith)
        requires
            -2 * s < e < 2 * s,
    ;
    assert(s * s * s == ONE_RAW * ONE_RAW * ONE_RAW && s * s == ONE_RAW * ONE_RAW);
}

/// The cross product of two axes of length one that stand at right
/// angles, up to rounding, has length one, up to rounding: it is at
/// most 21 raw counts below one and 18 above.
pub proof fn lemma_cross_of_unit_axes(w: Vec3, u: Vec3)
    requires
        w.in_unit_cube(),
        u.in_unit_cube(),
        ONE_RAW - 4 <= w.length_spec().raw <= ONE_RAW + 1,
        ONE_RAW - 4 <= u.length_spec().raw <= ONE_RAW + 1,
        -15 * ONE_RAW < w.x.raw * u.x.raw + w.y.raw * u.y.raw + w.z.raw * u.z.raw < 15 * ONE_RAW,
    ensures
        ONE_RAW - 21 <= cross_spec(w, u).length_spec().raw <= ONE_RAW + 18,
{
    let s = ONE_RAW as int;
    let v = cross_spec(w, u);
    let (w0, w1, w2) = (w.x.raw as int, w.y.raw as int, w.z.raw as int);
    let (u0, u1, u2) = (u.x.raw as int, u.y.raw as int, u.z.raw as int);
    lemma_axis_norm(w);
    lemma_axis_norm(u);
    lemma_cross_error(w, u, s);
    let (x0, x1, x2) = (w1 * u2 - w2 * u1, w2 * u0 - w0 * u2, w0 * u1 - w1 * u0);
    lemma_difference_of_unit_products(w1, u2, w2, u1);
    lemma_difference_of_unit_products(w2, u0, w0, u2);
    lemma_difference_of_unit_products(w0, u1, w1, u0);
    lemma_cross_component_square(x0, v.x.raw as int);
    lemma_cross_component_square(x1, v.y.raw as int);
    lemma_cross_component_square(x2, v.z.raw as int);
    lemma_lagrange(w0, w1, w2, u0, u1, u2);
    let p = w0 * u0 + w1 * u1 + w2 * u2;
    let nw = w.norm_squared_raw();
    let nu = u.norm_squared_raw();
    let ss = s * s;
    assert(0 <= p * p < 225 * ss) by (nonlinear_arith)
        requires
            -15 * s < p < 15 * s,
            ss == s * s,
    ;
    assert((ss - 8 * s) * (ss - 8 * s) <= nw * nu <= (ss + 5 * s) * (ss + 5 * s))
        by (nonlinear_arith)
        requires
            0 <= ss - 8 * s <= nw <= ss + 5 * s,
            ss - 8 * s <= nu <= ss + 5 * s,
    ;
    assert((ss - 8 * s) * (ss - 8 * s) == 340282365653287864415736826652476309504int) by {
        assert(ss - 8 * s == 18446744039349813248);
        assert(18446744039349813248int * 18446744039349813248
            == 340282365653287864415736826652476309504int) by (nonlinear_arith);
    }
    assert((ss + 5 * s) * (ss + 5 * s) == 340282367713220089067186585209946505216int) by {
        assert(ss + 5 * s == 18446744095184388096);
        assert(18446744095184388096int * 18446744095184388096
            == 340282367713220089067186585209946505216int) by (nonlinear_arith);
    }
    let big = v.norm_squared_raw();
    let sum_x = x0 * x0 + x1 * x1 + x2 * x2;
    assert(sum_x + p * p == nw * nu);
    assert(ss * big == ss * (v.x.raw * v.x.raw) + ss * (v.y.raw * v.y.raw) + ss * (v.z.raw
        * v.z.raw)) by (nonlinear_arith)
        requires
            big == v.x.raw * v.x.raw + v.y.raw * v.y.raw + v.z.raw * v.z.raw,
    ;
    let sss = s * s * s;
    assert(sum_x - 24 * sss <= ss * big <= sum_x + 24 * sss + 12 * ss);
    let top = s + 18;
    let low = s - 21;
    assert(ss * (top * top) == 340282369773152319953635840681245147136int) by {
        assert(top * top == 18446744228328374596int) by (nonlinear_arith)
            requires
                top == 4294967314,
        ;
        assert(18446744073709551616int * 18446744228328374596
            == 340282369773152319953635840681245147136int) by (nonlinear_arith);
    }
    assert(ss * (low * low) == 340282363593355645999286565008834560000int) by {
        assert(low * low == 18446743893320925625int) by (nonlinear_arith)
            requires
                low == 4294967275,
        ;
        assert(18446744073709551616int * 18446743893320925625
            == 340282363593355645999286565008834560000int) by (nonlinear_arith);
    }
    assert(low * low <= big <= top * top) by (nonlinear_arith)
        requires
            ss * (low * low) <= ss * big <= ss * (top * top),
            ss > 0,
    ;
    lemma_int_sqrt_exists(big);
    let root = int_sqrt(big);
    if root > top {
        lemma_square_monotone(top, root);
        assert(false);
    }
    if root + 1 <= low {
        assert((root + 1) * (root + 1) <= low * low) by (nonlinear_arith)
            requires
                0 <= root + 1 <= low,
        ;
        assert(false);
    }
}

/// A difference of two products of numbers of the unit interval is at
/// most two.
proof fn lemma_difference_of_unit_products(a: int, b: int, c: int, d: int)
    requires
        -ONE_RAW <= a <= ONE_RAW,
        -ONE_RAW <= b <= ONE_RAW,
        -ONE_RAW <= c <= ONE_RAW,
        -ONE_RAW <= d <= ONE_RAW,
    ensures
        -2 * (ONE_RAW * ONE_RAW) <= a * b - c * d <= 2 * (ONE_RAW * ONE_RAW),
{
    let s = ONE_RAW as int;
    assert(-(s * s) <= a * b <= s * s && -(s * s) <= c * d <= s * s) by (nonlinear_arith)
        requires
            -s <= a <= s,
            -s <= b <= s,
            -s <= c <= s,
            -s <= d <= s,
    ;
}

/// The camera is made of its axes: the horizontal and the vertical edge
/// of the viewport are `u` and `v` scaled by the width and the height,
/// and the lower left corner lies one `w` ahead of the eye and half of
/// each edge back.
pub proof fn lemma_camera_is_made_of_its_axes(
    lookfrom: Vec3,
    lookat: Vec3,
    vup: Vec3,
    half_height: Fixed,
    aspect_ratio: Fixed,
)
    ensures
        ({
            let (w, u, v) = Camera::axes_spec(lookfrom, lookat, vup);
            let height = Fixed::int_spec(2).times(half_height);
            let width = aspect_ratio.times(height);
            let camera = Camera::new_spec(lookfrom, lookat, vup, half_height, aspect_ratio);
            &&& camera.origin == lookfrom
            &&& camera.horizontal == u.scaled(width)
            &&& camera.vertical == v.scaled(height)
            &&& camera.lower_left_corner == lookfrom.minus(w).minus(
                camera.horizontal.over(Fixed::int_spec(2)),
            ).minus(camera.vertical.over(Fixed::int_spec(2)))
        }),
{
}

/// The axes of the camera have length one and stand at right angles to
/// each other, up to rounding.
///
/// Where the eye is at least one half away from the target and at most
/// 2^61 raw counts in each component, and `vup` is at most 2^59 raw
/// counts in each component and not so close to the line of sight that
/// its cross product with `w` is shorter than one half: `w` and `u` have
/// length one to four raw counts below and one above, and `v` to 21
/// below and 18 above; the dot product of `u` and `w` is at most
/// seventeen raw counts, and those of `v` with `w` and with `u` are at
/// most eight.
pub proof fn lemma_camera_axes(lookfrom: Vec3, lookat: Vec3, vup: Vec3)
    requires
        vec_bounded(lookfrom.minus(lookat), 0x2000_0000_0000_0000),
        2 * lookfrom.minus(lookat).length_spec().raw >= ONE_RAW,
        vec_bounded(vup, 0x800_0000_0000_0000),
        2 * cross_spec(vup, lookfrom.minus(lookat).unit_vector_spec()).length_spec().raw
            >= ONE_RAW,
    ensures
        ({
            let (w, u, v) = Camera::axes_spec(lookfrom, lookat, vup);
            &&& ONE_RAW - 4 <= w.length_spec().raw <= ONE_RAW + 1
            &&& ONE_RAW - 4 <= u.length_spec().raw <= ONE_RAW + 1
            &&& -17 <= dot_spec(u, w).raw <= 17
            &&& -8 <= dot_spec(v, w).raw <= 8
            &&& -8 <= dot_spec(v, u).raw <= 8
            &&& ONE_RAW - 21 <= v.length_spec().raw <= ONE_RAW + 18
        }),
{
    let gaze = lookfrom.minus(lookat);
    let w = gaze.unit_vector_spec();
    lemma_unit_vector_has_unit_length(gaze);
    lemma_unit_vector_in_unit_cube(gaze);
    let c = cross_spec(vup, w);
    lemma_cross_is_orthogonal_to_second(vup, w);
    lemma_unit_vector_has_unit_length(c);
    lemma_unit_vector_in_unit_cube(c);
    let u = c.unit_vector_spec();
    lemma_normalised_stays_orthogonal(c, w);
    lemma_cross_is_orthogonal_to_first(w, u);
    lemma_cross_is_orthogonal_to_second(w, u);
    assert(w.x.raw * u.x.raw == u.x.raw * w.x.raw && w.y.raw * u.y.raw == u.y.raw * w.y.raw
        && w.z.raw * u.z.raw == u.z.raw * w.z.raw) by (nonlinear_arith);
    lemma_cross_of_unit_axes(w, u);
}

} // verus!
