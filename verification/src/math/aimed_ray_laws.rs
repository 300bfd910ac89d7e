//! Where a ray that is aimed at the centre of a sphere meets it, whatever
//! its direction.
use vstd::prelude::*;
use crate::math::fixed::{
    int_sqrt, is_int_sqrt, lemma_int_sqrt_exists, lemma_square_monotone, magnitude, ratio_raw,
    trunc_div, Fixed, ONE_RAW,
};
use crate::math::hittables::{raymarch_spec, sphere_discriminant, sphere_hit_spec, sphere_roots};
use crate::math::signed_distance::SignedDistanceField;
use crate::math::materials::Material;
use crate::math::math3::{dot_spec, Vec3};
use crate::math::raytracing::Ray;
use crate::math::vector_laws::{lemma_times_unit, lemma_trunc_div_by_one, vec_bounded};

verus! {

/// One component of a direction scaled by a distance: `w` is the product
/// of `u` and `d` rounded toward zero. It is no larger than the
/// distance, has the sign of `u`, and the error `u * d - s * w` is below
/// one raw count and has the sign of `u` too.
proof fn lemma_scaled_component(u: int, d: int, w: int)
    requires
        -ONE_RAW <= u <= ONE_RAW,
        0 <= d,
        w == trunc_div(u * d, ONE_RAW as int),
    ensures
        -d <= w <= d,
        w * u >= 0,
        0 <= (u * d - ONE_RAW * w) * u < ONE_RAW * ONE_RAW,
        0 <= (u * d) * (u * d - ONE_RAW * w) <= d * (ONE_RAW * ONE_RAW),
        0 <= (u * d - ONE_RAW * w) * (u * d - ONE_RAW * w) < ONE_RAW * ONE_RAW,
{
    let s = ONE_RAW as int;
    let p = u * d;
    let e = p - s * w;
    lemma_trunc_div_by_one(p);
    assert(magnitude(p) <= d * s && (u >= 0 ==> p >= 0) && (u <= 0 ==> p <= 0))
        by (nonlinear_arith)
        requires
            p == u * d,
            -s <= u <= s,
            0 <= d,
    ;
    assert(magnitude(s * w) == s * magnitude(w));
    assert(magnitude(w) <= d);
    assert(-s < e < s);
    assert((p >= 0 ==> 0 <= e && w >= 0) && (p <= 0 ==> e <= 0 && w <= 0));
    assert(w * u >= 0) by (nonlinear_arith)
        requires
            (u >= 0 && w >= 0) || (u <= 0 && w <= 0),
    ;
    assert(0 <= e * u < s * s) by (nonlinear_arith)
        requires
            (u >= 0 && 0 <= e < s) || (u <= 0 && -s < e <= 0),
            -s <= u <= s,
    ;
    assert(0 <= p * e <= d * (s * s)) by (nonlinear_arith)
        requires
            (p >= 0 && 0 <= e < s) || (p <= 0 && -s < e <= 0),
            -(d * s) <= p <= d * s,
            0 <= d,
            s > 0,
    ;
    assert(0 <= e * e < s * s) by (nonlinear_arith)
        requires
            -s < e < s,
    ;
}

/// The dot product of the scaled direction with the direction: with
/// `p_i` the products `w_i * u_i` rounded down and `beta` their sum,
/// `beta * s^2` misses `d * n` from below by less than `6 s^2`.
proof fn lemma_offset_along_direction(
    d: int,
    n: int,
    beta: int,
    u0: int,
    u1: int,
    u2: int,
    w0: int,
    w1: int,
    w2: int,
    f0: int,
    f1: int,
    f2: int,
)
    requires
        0 <= d,
        n == u0 * u0 + u1 * u1 + u2 * u2,
        beta == f0 + f1 + f2,
        0 <= (u0 * d - ONE_RAW * w0) * u0 < ONE_RAW * ONE_RAW,
        0 <= (u1 * d - ONE_RAW * w1) * u1 < ONE_RAW * ONE_RAW,
        0 <= (u2 * d - ONE_RAW * w2) * u2 < ONE_RAW * ONE_RAW,
        0 <= w0 * u0 - ONE_RAW * f0 < ONE_RAW,
        0 <= w1 * u1 - ONE_RAW * f1 < ONE_RAW,
        0 <= w2 * u2 - ONE_RAW * f2 < ONE_RAW,
    ensures
        d * n - 6 * (ONE_RAW * ONE_RAW) < beta * (ONE_RAW * ONE_RAW) <= d * n,
{
    let s = ONE_RAW as int;
    lemma_component_identity(u0, d, w0);
    lemma_component_identity(u1, d, w1);
    lemma_component_identity(u2, d, w2);
    assert(d * n == d * (u0 * u0) + d * (u1 * u1) + d * (u2 * u2)) by (nonlinear_arith)
        requires
            n == u0 * u0 + u1 * u1 + u2 * u2,
    ;
}

/// `s * (w * u)` is `d * u^2` less the error of `w` times `u`.
proof fn lemma_component_identity(u: int, d: int, w: int)
    ensures
        ONE_RAW * (w * u) == d * (u * u) - (u * d - ONE_RAW * w) * u,
{
    assert(ONE_RAW * (w * u) == d * (u * u) - (u * d - ONE_RAW * w) * u) by (nonlinear_arith);
}

/// `s^2 * w^2` is `d^2 * u^2` less twice `u d` times the error of `w`,
/// plus the square of that error.
proof fn lemma_component_square(u: int, d: int, w: int)
    ensures
        (ONE_RAW * ONE_RAW) * (w * w) == (d * d) * (u * u) - 2 * ((u * d) * (u * d - ONE_RAW
            * w)) + (u * d - ONE_RAW * w) * (u * d - ONE_RAW * w),
{
    let s = ONE_RAW as int;
    let p = u * d;
    let e = p - s * w;
    assert(s * w == p - e);
    assert((s * w) * (s * w) == p * p - 2 * (p * e) + e * e) by (nonlinear_arith)
        requires
            s * w == p - e,
    ;
    assert((s * w) * (s * w) == (s * s) * (w * w)) by (nonlinear_arith);
    assert(p * p == (d * d) * (u * u)) by (nonlinear_arith)
        requires
            p == u * d,
    ;
}

/// The squared length of the scaled direction: with `q_i` the squares
/// `w_i^2` rounded down and `big_q` their sum, `big_q * s^3` lies
/// between `d^2 n - 6 d s^2 - 3 s^3` and `d^2 n + 3 s^2`.
proof fn lemma_offset_squared(
    d: int,
    n: int,
    big_q: int,
    u0: int,
    u1: int,
    u2: int,
    w0: int,
    w1: int,
    w2: int,
    q0: int,
    q1: int,
    q2: int,
)
    requires
        0 <= d,
        n == u0 * u0 + u1 * u1 + u2 * u2,
        big_q == q0 + q1 + q2,
        0 <= (u0 * d) * (u0 * d - ONE_RAW * w0) <= d * (ONE_RAW * ONE_RAW),
        0 <= (u1 * d) * (u1 * d - ONE_RAW * w1) <= d * (ONE_RAW * ONE_RAW),
        0 <= (u2 * d) * (u2 * d - ONE_RAW * w2) <= d * (ONE_RAW * ONE_RAW),
        0 <= (u0 * d - ONE_RAW * w0) * (u0 * d - ONE_RAW * w0) < ONE_RAW * ONE_RAW,
        0 <= (u1 * d - ONE_RAW * w1) * (u1 * d - ONE_RAW * w1) < ONE_RAW * ONE_RAW,
        0 <= (u2 * d - ONE_RAW * w2) * (u2 * d - ONE_RAW * w2) < ONE_RAW * ONE_RAW,
        0 <= w0 * w0 - ONE_RAW * q0 < ONE_RAW,
        0 <= w1 * w1 - ONE_RAW * q1 < ONE_RAW,
        0 <= w2 * w2 - ONE_RAW * q2 < ONE_RAW,
    ensures
        (d * d) * n - 6 * (d * (ONE_RAW * ONE_RAW)) - 3 * (ONE_RAW * ONE_RAW * ONE_RAW) < big_q * (
        ONE_RAW * ONE_RAW * ONE_RAW) < (d * d) * n + 3 * (ONE_RAW * ONE_RAW),
{
    let s = ONE_RAW as int;
    let ss = s * s;
    lemma_component_square(u0, d, w0);
    lemma_component_square(u1, d, w1);
    lemma_component_square(u2, d, w2);
    assert((d * d) * n == (d * d) * (u0 * u0) + (d * d) * (u1 * u1) + (d * d) * (u2 * u2))
        by (nonlinear_arith)
        requires
            n == u0 * u0 + u1 * u1 + u2 * u2,
    ;
    let (a0, a1, a2) = (ss * (w0 * w0), ss * (w1 * w1), ss * (w2 * w2));
    let (b0, b1, b2) = ((d * d) * (u0 * u0), (d * d) * (u1 * u1), (d * d) * (u2 * u2));
    let dss = d * ss;
    assert(b0 - 2 * dss <= a0 < b0 + ss);
    assert(b1 - 2 * dss <= a1 < b1 + ss);
    assert(b2 - 2 * dss <= a2 < b2 + ss);
    let sss = ss * s;
    assert(sss * q0 <= a0 < sss * q0 + sss) by (nonlinear_arith)
        requires
            0 <= w0 * w0 - s * q0 < s,
            a0 == ss * (w0 * w0),
            sss == ss * s,
            ss == s * s,
            s > 0,
    ;
    assert(sss * q1 <= a1 < sss * q1 + sss) by (nonlinear_arith)
        requires
            0 <= w1 * w1 - s * q1 < s,
            a1 == ss * (w1 * w1),
            sss == ss * s,
            ss == s * s,
            s > 0,
    ;
    assert(sss * q2 <= a2 < sss * q2 + sss) by (nonlinear_arith)
        requires
            0 <= w2 * w2 - s * q2 < s,
            a2 == ss * (w2 * w2),
            sss == ss * s,
            ss == s * s,
            s > 0,
    ;
    assert(big_q * sss == sss * q0 + sss * q1 + sss * q2) by (nonlinear_arith)
        requires
            big_q == q0 + q1 + q2,
    ;
    assert(sss == ONE_RAW * ONE_RAW * ONE_RAW);
}

/// The dot product of the offset with the direction is the distance,
/// up to the rounding of the direction's length: `beta` lies at most
/// `8 k + 6` below `d` and `5 k` above it, where `k` counts the units of
/// the distance.
proof fn lemma_offset_along_direction_bounds(d: int, k: int, n: int, beta: int)
    requires
        0 <= d <= k * ONE_RAW,
        ONE_RAW * ONE_RAW - 8 * ONE_RAW <= n <= ONE_RAW * ONE_RAW + 5 * ONE_RAW,
        d * n - 6 * (ONE_RAW * ONE_RAW) < beta * (ONE_RAW * ONE_RAW) <= d * n,
    ensures
        d - 8 * k - 6 <= beta <= d + 5 * k,
{
    let s = ONE_RAW as int;
    assert(d * (s * s - 8 * s) <= d * n <= d * (s * s + 5 * s)) by (nonlinear_arith)
        requires
            0 <= d,
            s * s - 8 * s <= n <= s * s + 5 * s,
    ;
    let dn = d * n;
    let b = beta * (s * s);
    assert(beta <= d + 5 * k) by (nonlinear_arith)
        requires
            b == beta * (s * s),
            b <= dn,
            dn <= d * (s * s + 5 * s),
            0 <= d <= k * s,
            s == 4294967296,
    ;
    assert(beta >= d - 8 * k - 6) by (nonlinear_arith)
        requires
            b == beta * (s * s),
            dn - 6 * (s * s) < b,
            d * (s * s - 8 * s) <= dn,
            0 <= d <= k * s,
            s == 4294967296,
    ;
}

/// The squared length of the offset is the squared distance, up to
/// rounding: `big_q` lies at most `8 k^2 + 6 k + 2` below `dd`, the
/// rounded square of the distance, and `5 k^2 + 1` above it.
proof fn lemma_offset_squared_bounds(d: int, k: int, kk: int, n: int, dd: int, big_q: int)
    requires
        0 <= d <= k * ONE_RAW,
        kk == k * k,
        ONE_RAW * ONE_RAW - 8 * ONE_RAW <= n <= ONE_RAW * ONE_RAW + 5 * ONE_RAW,
        0 <= d * d - ONE_RAW * dd < ONE_RAW,
        (d * d) * n - 6 * (d * (ONE_RAW * ONE_RAW)) - 3 * (ONE_RAW * ONE_RAW * ONE_RAW) < big_q * (
        ONE_RAW * ONE_RAW * ONE_RAW) < (d * d) * n + 3 * (ONE_RAW * ONE_RAW),
    ensures
        dd - 8 * kk - 6 * k - 2 <= big_q <= dd + 5 * kk + 1,
        0 <= dd <= kk * ONE_RAW,
{
    let s = ONE_RAW as int;
    let d2 = d * d;
    assert(0 <= d2 <= kk * (s * s)) by (nonlinear_arith)
        requires
            0 <= d <= k * s,
            kk == k * k,
            d2 == d * d,
    ;
    assert(d2 * (s * s - 8 * s) <= d2 * n <= d2 * (s * s + 5 * s)) by (nonlinear_arith)
        requires
            0 <= d2,
            s * s - 8 * s <= n <= s * s + 5 * s,
    ;
    let d2n = d2 * n;
    let dss = d * (s * s);
    let b = big_q * (s * s * s);
    assert(0 <= dd <= kk * s) by (nonlinear_arith)
        requires
            0 <= d2 - s * dd < s,
            0 <= d2 <= kk * (s * s),
            s == 4294967296,
    ;
    assert(big_q <= dd + 5 * kk + 1) by (nonlinear_arith)
        requires
            b == big_q * (s * s * s),
            b < d2n + 3 * (s * s),
            d2n <= d2 * (s * s + 5 * s),
            0 <= d2 - s * dd < s,
            0 <= d2 <= kk * (s * s),
            s == 4294967296,
    ;
    assert(big_q >= dd - 8 * kk - 6 * k - 2) by (nonlinear_arith)
        requires
            b == big_q * (s * s * s),
            d2n - 6 * dss - 3 * (s * s * s) < b,
            d2 * (s * s - 8 * s) <= d2n,
            dss == d * (s * s),
            0 <= d <= k * s,
            0 <= d2 - s * dd < s,
            0 <= d2 <= kk * (s * s),
            s == 4294967296,
    ;
}

/// The square of the dot product, rounded down: `p` lies at most
/// `16 k^2 + 12 k` below `dd` and `11 k^2 + 1` above it.
proof fn lemma_squared_projection_bounds(d: int, k: int, kk: int, dd: int, beta: int, p: int)
    requires
        0 <= d <= k * ONE_RAW,
        1 <= k <= 0x8000,
        kk == k * k,
        0 <= d * d - ONE_RAW * dd < ONE_RAW,
        d - 8 * k - 6 <= beta <= d + 5 * k,
        0 <= beta,
        0 <= beta * beta - ONE_RAW * p < ONE_RAW,
    ensures
        dd - 16 * kk - 12 * k <= p <= dd + 11 * kk + 1,
{
    let s = ONE_RAW as int;
    let hi = d + 5 * k;
    assert(beta * beta <= hi * hi) by (nonlinear_arith)
        requires
            0 <= beta <= hi,
    ;
    assert(hi * hi == d * d + 10 * (d * k) + 25 * kk) by (nonlinear_arith)
        requires
            hi == d + 5 * k,
            kk == k * k,
    ;
    assert(d * k <= s * kk) by (nonlinear_arith)
        requires
            0 <= d <= k * s,
            kk == k * k,
            k >= 1,
    ;
    assert(0 <= kk && 25 * kk <= s * kk) by (nonlinear_arith)
        requires
            kk == k * k,
            s == 4294967296,
    ;
    let lo = d - 8 * k - 6;
    if lo >= 0 {
        assert(beta * beta >= lo * lo) by (nonlinear_arith)
            requires
                0 <= lo <= beta,
        ;
        assert(lo * lo >= d * d - 16 * (d * k) - 12 * d) by (nonlinear_arith)
            requires
                lo == d - 8 * k - 6,
        ;
        assert(12 * d <= (12 * s) * k) by (nonlinear_arith)
            requires
                d <= k * s,
        ;
    } else {
        assert(d * d <= (8 * k + 6) * d) by (nonlinear_arith)
            requires
                0 <= d < 8 * k + 6,
        ;
        assert((8 * k + 6) * d == 8 * (d * k) + 6 * d) by (nonlinear_arith);
        assert(p >= 0) by (nonlinear_arith)
            requires
                beta * beta - s * p < s,
                beta * beta >= 0,
                s > 0,
        ;
        assert(beta * beta >= 0) by (nonlinear_arith);
    }
}

/// The product of the squared length of the direction with the constant
/// term, rounded toward zero: `t` is at most `12 k^2` away from `cq`.
proof fn lemma_scaled_constant_term_bounds(a: int, k: int, kk: int, cq: int, t: int)
    requires
        ONE_RAW - 11 <= a <= ONE_RAW + 5,
        1 <= k,
        kk == k * k,
        -(kk * ONE_RAW + 5 * kk + 1) <= cq <= kk * ONE_RAW + 5 * kk + 1,
        -ONE_RAW < a * cq - ONE_RAW * t < ONE_RAW,
    ensures
        cq - 12 * kk <= t <= cq + 12 * kk,
{
    let s = ONE_RAW as int;
    let alpha = a - s;
    assert(a * cq == s * cq + alpha * cq) by (nonlinear_arith)
        requires
            alpha == a - s,
    ;
    let bound = kk * s + 5 * kk + 1;
    assert(-11 * bound <= alpha * cq <= 11 * bound) by (nonlinear_arith)
        requires
            -11 <= alpha <= 5,
            -bound <= cq <= bound,
            bound >= 0,
    ;
    assert(kk >= 1) by (nonlinear_arith)
        requires
            kk == k * k,
            k >= 1,
    ;
    assert(kk * s == s * kk) by (nonlinear_arith);
}

/// The root of the discriminant: where the discriminant is at most `e`
/// away from the rounded square of the radius and `g * r` exceeds
/// `(e + 1) s`, the root is at most `g` away from the radius.
proof fn lemma_root_near_radius(r: int, rr: int, e: int, g: int, disc: int, root: int)
    requires
        0 < r,
        0 <= e,
        0 <= g,
        0 <= r * r - ONE_RAW * rr < ONE_RAW,
        rr - e <= disc <= rr + e,
        0 <= disc,
        is_int_sqrt(disc * ONE_RAW, root),
        g * r > (e + 1) * ONE_RAW,
    ensures
        r - g <= root <= r + g,
{
    let s = ONE_RAW as int;
    let x = (e + 1) * s;
    assert(disc * s == s * disc && (e + 1) * s == s * e + s) by (nonlinear_arith);
    assert(r * r - x < disc * s <= r * r + x - s);
    if root > r + g {
        lemma_square_monotone(r + g, root);
        assert((r + g) * (r + g) >= r * r + 2 * (g * r)) by (nonlinear_arith)
            requires
                0 <= g,
                0 < r,
        ;
        assert(false);
    }
    if root < r - g {
        assert((root + 1) * (root + 1) <= (r - g) * (r - g)) by (nonlinear_arith)
            requires
                0 <= root + 1 <= r - g,
        ;
        assert((r - g) * (r - g) <= r * r - g * r) by (nonlinear_arith)
            requires
                0 <= g <= r,
        ;
        assert(false);
    }
}

/// The quotient by the squared length of the direction: `t`, the
/// quotient of `m` by `a` rounded toward zero, is at most `44 k + 1` away
/// from `m`.
proof fn lemma_parameter_near_numerator(a: int, k: int, m: int, t: int)
    requires
        ONE_RAW - 11 <= a <= ONE_RAW + 5,
        1 <= k,
        -2 * (k * ONE_RAW) <= m <= 2 * (k * ONE_RAW),
        t == trunc_div(m * ONE_RAW, a),
    ensures
        m - 44 * k - 1 <= t <= m + 44 * k + 1,
        -4 * (k * ONE_RAW) <= t <= 4 * (k * ONE_RAW),
{
    let s = ONE_RAW as int;
    let mm = magnitude(m);
    assert(magnitude(m * s) == mm * s) by (nonlinear_arith)
        requires
            mm == magnitude(m),
            s > 0,
    ;
    let q = (mm * s) / a;
    vstd::arithmetic::div_mod::lemma_fundamental_div_mod(mm * s, a);
    vstd::arithmetic::div_mod::lemma_mod_pos_bound(mm * s, a);
    assert(mm * s >= 0) by (nonlinear_arith)
        requires
            mm >= 0,
            s > 0,
    ;
    vstd::arithmetic::div_mod::lemma_div_pos_is_pos(mm * s, a);
    assert(magnitude(t) == q);
    // a * q <= mm * s < a * q + a, with a = s + alpha
    let alpha = a - s;
    assert(a * q == s * q + alpha * q) by (nonlinear_arith)
        requires
            alpha == a - s,
    ;
    assert(q <= 2 * mm) by (nonlinear_arith)
        requires
            a * q <= mm * s,
            a >= s - 11,
            s == 4294967296,
            q >= 0,
            mm >= 0,
    ;
    assert(-11 * q <= alpha * q <= 5 * q) by (nonlinear_arith)
        requires
            -11 <= alpha <= 5,
            q >= 0,
    ;
    assert(mm * s == s * mm) by (nonlinear_arith);
    assert(mm <= 2 * (k * s));
    assert(k * s == s * k) by (nonlinear_arith);
}

/// A product whose exact value is at most `m` in magnitude does not
/// saturate: it is the exact product rounded toward zero.
proof fn lemma_times_no_saturation(a: Fixed, b: Fixed, m: int)
    requires
        0 <= m <= i64::MAX,
        magnitude(a.raw * b.raw) <= m * ONE_RAW,
    ensures
        a.times(b).raw == trunc_div(a.raw * b.raw, ONE_RAW as int),
        magnitude(a.times(b).raw as int) <= m,
        a.raw * b.raw >= 0 ==> 0 <= a.raw * b.raw - ONE_RAW * a.times(b).raw < ONE_RAW,
        a.raw * b.raw <= 0 ==> -ONE_RAW < a.raw * b.raw - ONE_RAW * a.times(b).raw <= 0,
{
    let s = ONE_RAW as int;
    let p = a.raw * b.raw;
    lemma_trunc_div_by_one(p);
    let q = trunc_div(p, s);
    assert(magnitude(s * q) == s * magnitude(q));
    assert(m * ONE_RAW == s * m) by (nonlinear_arith)
        requires
            s == ONE_RAW,
    ;
}

/// The squared length of a direction of length one, up to rounding,
/// misses one by at most eight raw counts below and five above, in units
/// of 2^-64.
proof fn lemma_near_unit_norm(u: Vec3)
    requires
        u.in_unit_cube(),
        ONE_RAW - 4 <= u.length_spec().raw <= ONE_RAW + 1,
    ensures
        ONE_RAW * ONE_RAW - 8 * ONE_RAW <= u.norm_squared_raw() <= ONE_RAW * ONE_RAW + 5 * ONE_RAW,
{
    let s = ONE_RAW as int;
    let nn = u.norm_squared_raw();
    assert(0 <= nn <= 3 * (s * s)) by (nonlinear_arith)
        requires
            nn == u.x.raw * u.x.raw + u.y.raw * u.y.raw + u.z.raw * u.z.raw,
            -s <= u.x.raw <= s,
            -s <= u.y.raw <= s,
            -s <= u.z.raw <= s,
    ;
    lemma_int_sqrt_exists(nn);
    let l = int_sqrt(nn);
    if l > 2 * s {
        lemma_square_monotone(2 * s, l);
        assert(false);
    }
    assert(u.length_spec().raw == l);
    assert((s - 4) * (s - 4) <= l * l) by (nonlinear_arith)
        requires
            0 <= s - 4 <= l,
    ;
    assert((l + 1) * (l + 1) <= (s + 2) * (s + 2)) by (nonlinear_arith)
        requires
            0 <= l + 1 <= s + 2,
    ;
    assert((s - 4) * (s - 4) == s * s - 8 * s + 16 && (s + 2) * (s + 2) == s * s + 4 * s + 4)
        by (nonlinear_arith);
}

/// The units of the distance, counted up: a whole number that the
/// distance does not exceed.
pub open spec fn units_of(distance: Fixed) -> int {
    distance.raw as int / ONE_RAW as int + 1
}

/// By how many raw counts the discriminant of the quadratic can miss
/// the squared radius when the ray is aimed at the centre from a
/// distance of `k` units.
pub open spec fn discriminant_tolerance(k: int) -> int {
    33 * (k * k) + 12 * k + 3
}

/// By how many raw counts the root of the discriminant can miss the
/// radius.
pub open spec fn root_tolerance(k: int, radius: Fixed) -> int {
    ((discriminant_tolerance(k) + 1) * ONE_RAW) / radius.raw as int + 1
}

/// By how many raw counts the parameter of the hit can miss the distance
/// less the radius.
pub open spec fn aimed_ray_tolerance(distance: Fixed, radius: Fixed) -> int {
    52 * units_of(distance) + 7 + root_tolerance(units_of(distance), radius)
}

/// What the three coefficients of the quadratic are made of when the
/// centre of the sphere lies on the ray: the offset from the centre is
/// the direction scaled by the distance, turned round.
proof fn lemma_aimed_offset(ray: Ray, distance: Fixed)
    requires
        ray.dir.in_unit_cube(),
        vec_bounded(ray.origin, 0x2000_0000_0000_0000),
        0 <= distance.raw <= 0x4000_0000_0000,
    ensures
        ray.origin.minus(ray.at_spec(distance)).x.raw == -trunc_div(
            ray.dir.x.raw * distance.raw,
            ONE_RAW as int,
        ),
        ray.origin.minus(ray.at_spec(distance)).y.raw == -trunc_div(
            ray.dir.y.raw * distance.raw,
            ONE_RAW as int,
        ),
        ray.origin.minus(ray.at_spec(distance)).z.raw == -trunc_div(
            ray.dir.z.raw * distance.raw,
            ONE_RAW as int,
        ),
{
    let d = distance.raw as int;
    lemma_scaled_component(ray.dir.x.raw as int, d, trunc_div(ray.dir.x.raw * d, ONE_RAW as int));
    lemma_scaled_component(ray.dir.y.raw as int, d, trunc_div(ray.dir.y.raw * d, ONE_RAW as int));
    lemma_scaled_component(ray.dir.z.raw as int, d, trunc_div(ray.dir.z.raw * d, ONE_RAW as int));
}

/// The three sums of products behind the coefficients of the
/// quadratic, where the offset `oc` from the centre is minus `w` and
/// each `w_i` has the sign of `u_i` and is at most `d`: none of them
/// saturates, so each is a sum of exact products rounded down.
proof fn lemma_aimed_coefficients(u: Vec3, oc: Vec3, d: int)
    requires
        u.in_unit_cube(),
        0 <= d <= 0x4000_0000_0000,
        -d <= oc.x.raw <= d && -d <= oc.y.raw <= d && -d <= oc.z.raw <= d,
        (-oc.x.raw) * u.x.raw >= 0 && (-oc.y.raw) * u.y.raw >= 0 && (-oc.z.raw) * u.z.raw >= 0,
    ensures
        dot_spec(u, u).raw == (u.x.raw * u.x.raw) / (ONE_RAW as int) + (u.y.raw * u.y.raw) / (
        ONE_RAW as int) + (u.z.raw * u.z.raw) / (ONE_RAW as int),
        dot_spec(oc, u).raw == -((((-oc.x.raw) * u.x.raw) / (ONE_RAW as int)) + (((-oc.y.raw)
            * u.y.raw) / (ONE_RAW as int)) + (((-oc.z.raw) * u.z.raw) / (ONE_RAW as int))),
        dot_spec(oc, oc).raw == (oc.x.raw * oc.x.raw) / (ONE_RAW as int) + (oc.y.raw * oc.y.raw)
            / (ONE_RAW as int) + (oc.z.raw * oc.z.raw) / (ONE_RAW as int),
{
    let s = ONE_RAW as int;
    lemma_square_term(u.x, s);
    lemma_square_term(u.y, s);
    lemma_square_term(u.z, s);
    lemma_square_term(oc.x, 0x4000_0000_0000);
    lemma_square_term(oc.y, 0x4000_0000_0000);
    lemma_square_term(oc.z, 0x4000_0000_0000);
    lemma_mixed_term(oc.x, u.x, d);
    lemma_mixed_term(oc.y, u.y, d);
    lemma_mixed_term(oc.z, u.z, d);
}

/// The square of a number of at most `m`, where `m` is at most 2^46
/// raw counts: it does not saturate and is at most `m^2 / s`.
proof fn lemma_square_term(x: Fixed, m: int)
    requires
        -m <= x.raw <= m,
        0 <= m <= 0x4000_0000_0000,
    ensures
        x.times(x).raw == (x.raw * x.raw) / (ONE_RAW as int),
        0 <= x.times(x).raw <= 0x1000_0000_0000_0000,
        0 <= x.raw * x.raw - ONE_RAW * x.times(x).raw < ONE_RAW,
{
    let p = x.raw * x.raw;
    assert(0 <= p <= 0x4000_0000_0000 * 0x4000_0000_0000) by (nonlinear_arith)
        requires
            p == x.raw * x.raw,
            -0x4000_0000_0000 <= x.raw <= 0x4000_0000_0000,
    ;
    assert(0x4000_0000_0000int * 0x4000_0000_0000 == 0x1000_0000_0000_0000 * ONE_RAW);
    lemma_times_no_saturation(x, x, 0x1000_0000_0000_0000);
}

/// The product of a component of the offset with the component of the
/// direction that it runs against: it does not saturate and is minus
/// the rounded-down product of the magnitudes.
proof fn lemma_mixed_term(oc: Fixed, u: Fixed, d: int)
    requires
        -ONE_RAW <= u.raw <= ONE_RAW,
        0 <= d <= 0x4000_0000_0000,
        -d <= oc.raw <= d,
        (-oc.raw) * u.raw >= 0,
    ensures
        oc.times(u).raw == -(((-oc.raw) * u.raw) / (ONE_RAW as int)),
        -d <= oc.times(u).raw <= 0,
        0 <= (-oc.raw) * u.raw - ONE_RAW * (-oc.times(u).raw) < ONE_RAW,
{
    let p = oc.raw * u.raw;
    let x = (-oc.raw) * u.raw;
    assert(p == -x) by (nonlinear_arith)
        requires
            p == oc.raw * u.raw,
            x == (-oc.raw) * u.raw,
    ;
    assert(x <= d * ONE_RAW) by (nonlinear_arith)
        requires
            x == (-oc.raw) * u.raw,
            -ONE_RAW <= u.raw <= ONE_RAW,
            -d <= oc.raw <= d,
    ;
    lemma_times_no_saturation(oc, u, d);
}

/// The discriminant of the quadratic of a ray that is aimed at the
/// centre, from the parts it is made of: it misses the rounded square of
/// the radius by at most the tolerance, and the parts stay small.
proof fn lemma_aimed_discriminant(
    u: Vec3,
    d: int,
    r: int,
    k: int,
    w0: int,
    w1: int,
    w2: int,
    a: int,
    beta: int,
    big_q: int,
    rr: int,
    p: int,
    t: int,
)
    requires
        u.in_unit_cube(),
        ONE_RAW * ONE_RAW - 8 * ONE_RAW <= u.norm_squared_raw() <= ONE_RAW * ONE_RAW + 5
            * ONE_RAW,
        0 < r <= d <= 0x4000_0000_0000,
        k == d / (ONE_RAW as int) + 1,
        w0 == trunc_div(u.x.raw * d, ONE_RAW as int),
        w1 == trunc_div(u.y.raw * d, ONE_RAW as int),
        w2 == trunc_div(u.z.raw * d, ONE_RAW as int),
        a == (u.x.raw * u.x.raw) / (ONE_RAW as int) + (u.y.raw * u.y.raw) / (ONE_RAW as int) + (
        u.z.raw * u.z.raw) / (ONE_RAW as int),
        beta == (w0 * u.x.raw) / (ONE_RAW as int) + (w1 * u.y.raw) / (ONE_RAW as int) + (w2
            * u.z.raw) / (ONE_RAW as int),
        big_q == (w0 * w0) / (ONE_RAW as int) + (w1 * w1) / (ONE_RAW as int) + (w2 * w2) / (
        ONE_RAW as int),
        rr == (r * r) / (ONE_RAW as int),
        p == (beta * beta) / (ONE_RAW as int),
        t == trunc_div(a * (big_q - rr), ONE_RAW as int),
        r * r >= (discriminant_tolerance(k) + 2) * ONE_RAW,
    ensures
        1 <= k <= 0x4001,
        ONE_RAW - 11 <= a <= ONE_RAW + 5,
        0 <= d - 8 * k - 6 <= beta <= d + 5 * k,
        0 <= rr,
        0 <= r * r - ONE_RAW * rr < ONE_RAW,
        -0x2000_0000_0000_0000 <= big_q - rr <= 0x2000_0000_0000_0000,
        0 <= p <= 0x2000_0000_0000_0000,
        -0x4000_0000_0000_0000 <= t <= 0x4000_0000_0000_0000,
        magnitude(a * (big_q - rr)) <= 0x4000_0000_0000_0000 * ONE_RAW,
        magnitude(beta * beta) <= 0x2000_0000_0000_0000 * ONE_RAW,
        rr - discriminant_tolerance(k) <= p - t <= rr + discriminant_tolerance(k),
{
    let s = ONE_RAW as int;
    let (u0, u1, u2) = (u.x.raw as int, u.y.raw as int, u.z.raw as int);
    let n = u.norm_squared_raw();
    let kk = k * k;
    let far: int = 0x4000_0000_0000;
    vstd::arithmetic::div_mod::lemma_fundamental_div_mod(d, s);
    vstd::arithmetic::div_mod::lemma_mod_pos_bound(d, s);
    assert(d <= k * s && 1 <= k <= 0x4001);
    assert(1 <= kk <= 0x4001 * 0x4001) by (nonlinear_arith)
        requires
            kk == k * k,
            1 <= k <= 0x4001,
    ;
    // The parts.
    lemma_scaled_component(u0, d, w0);
    lemma_scaled_component(u1, d, w1);
    lemma_scaled_component(u2, d, w2);
    let (a0, a1, a2) = ((u0 * u0) / s, (u1 * u1) / s, (u2 * u2) / s);
    assert(u0 * u0 >= 0 && u1 * u1 >= 0 && u2 * u2 >= 0) by (nonlinear_arith);
    lemma_floor(u0 * u0);
    lemma_floor(u1 * u1);
    lemma_floor(u2 * u2);
    assert(a * s <= n < a * s + 3 * s);
    let (f0, f1, f2) = ((w0 * u0) / s, (w1 * u1) / s, (w2 * u2) / s);
    lemma_floor(w0 * u0);
    lemma_floor(w1 * u1);
    lemma_floor(w2 * u2);
    lemma_offset_along_direction(d, n, beta, u0, u1, u2, w0, w1, w2, f0, f1, f2);
    lemma_offset_along_direction_bounds(d, k, n, beta);
    let (q0, q1, q2) = ((w0 * w0) / s, (w1 * w1) / s, (w2 * w2) / s);
    assert(w0 * w0 >= 0 && w1 * w1 >= 0 && w2 * w2 >= 0) by (nonlinear_arith);
    lemma_floor(w0 * w0);
    lemma_floor(w1 * w1);
    lemma_floor(w2 * w2);
    lemma_offset_squared(d, n, big_q, u0, u1, u2, w0, w1, w2, q0, q1, q2);
    let dd = (d * d) / s;
    assert(0 <= r * r <= d * d && d * d <= far * far) by (nonlinear_arith)
        requires
            0 < r <= d <= far,
    ;
    lemma_floor(d * d);
    lemma_floor(r * r);
    lemma_offset_squared_bounds(d, k, kk, n, dd, big_q);
    vstd::arithmetic::div_mod::lemma_div_is_ordered(r * r, d * d, s);
    vstd::arithmetic::div_mod::lemma_div_is_ordered(d * d, far * far, s);
    assert(far * far == 4951760157141521099596496896) by (nonlinear_arith)
        requires
            far == 0x4000_0000_0000,
    ;
    assert(4951760157141521099596496896int / 4294967296 == 0x1000_0000_0000_0000);
    // The radius is not small against the rounding, so neither is the distance.
    assert(r >= 8 * k + 6) by {
        let low = 8 * k + 6;
        assert(low * low <= 196 * kk) by (nonlinear_arith)
            requires
                low == 8 * k + 6,
                kk == k * k,
                k >= 1,
        ;
        assert(r * r >= 196 * kk) by (nonlinear_arith)
            requires
                r * r >= (33 * kk + 12 * k + 5) * s,
                kk >= 1,
                k >= 1,
                s == 4294967296,
        ;
        if r < low {
            lemma_square_monotone(r, low);
        }
    }
    assert(beta * beta >= 0) by (nonlinear_arith);
    lemma_floor(beta * beta);
    lemma_squared_projection_bounds(d, k, kk, dd, beta, p);
    let cq = big_q - rr;
    assert(kk * s >= dd);
    lemma_trunc_div_by_one(a * cq);
    lemma_scaled_constant_term_bounds(a, k, kk, cq, t);
    assert(magnitude(a * cq) <= 0x4000_0000_0000_0000 * s) by (nonlinear_arith)
        requires
            s - 11 <= a <= s + 5,
            -0x2000_0000_0000_0000 <= cq <= 0x2000_0000_0000_0000,
            s == 4294967296,
    ;
    assert(0 <= beta <= 70368744259589);
    assert(0 <= beta * beta <= 0x2000_0000_0000_0000 * s) by (nonlinear_arith)
        requires
            0 <= beta <= 70368744259589,
            s == 4294967296,
    ;
}

/// A number that is not negative is its quotient by one, rounded down,
/// times one, plus a rest below one.
proof fn lemma_floor(x: int)
    requires
        x >= 0,
    ensures
        0 <= x - ONE_RAW * (x / (ONE_RAW as int)) < ONE_RAW,
        x / (ONE_RAW as int) >= 0,
        trunc_div(x, ONE_RAW as int) == x / (ONE_RAW as int),
{
    vstd::arithmetic::div_mod::lemma_fundamental_div_mod(x, ONE_RAW as int);
    vstd::arithmetic::div_mod::lemma_mod_pos_bound(x, ONE_RAW as int);
    vstd::arithmetic::div_mod::lemma_div_pos_is_pos(x, ONE_RAW as int);
}

/// A ray aimed at the centre of a sphere meets it where the distance to
/// the centre less the radius says, whatever the direction of the ray.
///
/// The direction has length one up to rounding, as normalising gives
/// it; the origin is at most 2^61 raw counts in each component; the
/// centre is the point of the ray at the distance, which is at most
/// 2^46 raw counts (2^14 as a number); and the radius is large enough
/// against the rounding of the discriminant. Then the sphere is hit, at
/// the nearer root, and the parameter of the hit misses the distance
/// less the radius by at most `aimed_ray_tolerance` raw counts: a few
/// dozen for every unit of the distance, plus a few dozen for every
/// unit of the squared distance over the radius.
pub proof fn lemma_sphere_hit_of_aimed_ray(
    ray: Ray,
    radius: Fixed,
    material: &Material,
    distance: Fixed,
    t_min: Fixed,
    t_max: Fixed,
)
    requires
        ray.dir.in_unit_cube(),
        ONE_RAW - 4 <= ray.dir.length_spec().raw <= ONE_RAW + 1,
        vec_bounded(ray.origin, 0x2000_0000_0000_0000),
        0 < radius.raw <= distance.raw <= 0x4000_0000_0000,
        radius.raw * radius.raw >= (discriminant_tolerance(units_of(distance)) + 2) * ONE_RAW,
        t_min.raw < distance.raw - radius.raw - aimed_ray_tolerance(distance, radius),
        distance.raw - radius.raw + aimed_ray_tolerance(distance, radius) < t_max.raw,
    ensures
        sphere_hit_spec(ray.at_spec(distance), radius, material, ray, t_min, t_max) matches Some(
            hit,
        ) && {
            &&& distance.raw - radius.raw - aimed_ray_tolerance(distance, radius) <= hit.t.raw
            &&& hit.t.raw <= distance.raw - radius.raw + aimed_ray_tolerance(distance, radius)
            &&& hit.point == ray.at_spec(hit.t)
            &&& hit.material == material
        },
{
    let s = ONE_RAW as int;
    let d = distance.raw as int;
    let r = radius.raw as int;
    let k = units_of(distance);
    let e = discriminant_tolerance(k);
    let g = root_tolerance(k, radius);
    let u = ray.dir;
    let center = ray.at_spec(distance);
    let oc = ray.origin.minus(center);
    let (w0, w1, w2) = (
        trunc_div(u.x.raw * d, s),
        trunc_div(u.y.raw * d, s),
        trunc_div(u.z.raw * d, s),
    );
    lemma_near_unit_norm(u);
    lemma_aimed_offset(ray, distance);
    lemma_scaled_component(u.x.raw as int, d, w0);
    lemma_scaled_component(u.y.raw as int, d, w1);
    lemma_scaled_component(u.z.raw as int, d, w2);
    assert(-oc.x.raw == w0 && -oc.y.raw == w1 && -oc.z.raw == w2);
    lemma_aimed_coefficients(u, oc, d);
    assert(oc.x.raw * oc.x.raw == w0 * w0 && oc.y.raw * oc.y.raw == w1 * w1 && oc.z.raw
        * oc.z.raw == w2 * w2) by (nonlinear_arith)
        requires
            -oc.x.raw == w0 && -oc.y.raw == w1 && -oc.z.raw == w2,
    ;
    let a = u.length_squared_spec();
    let half_b = dot_spec(oc, u);
    let beta = -half_b.raw;
    let lsq = oc.length_squared_spec();
    let big_q = lsq.raw as int;
    lemma_square_term(radius, 0x4000_0000_0000);
    let squared_radius = radius.times(radius);
    let rr = squared_radius.raw as int;
    let c = lsq.minus(squared_radius);
    let p = (beta * beta) / s;
    let t = trunc_div(a.raw * (big_q - rr), s);
    lemma_aimed_discriminant(u, d, r, k, w0, w1, w2, a.raw as int, beta, big_q, rr, p, t);
    assert(c.raw == big_q - rr);
    // The discriminant.
    assert(half_b.raw * half_b.raw == beta * beta) by (nonlinear_arith)
        requires
            beta == -half_b.raw,
    ;
    assert(beta * beta >= 0) by (nonlinear_arith);
    lemma_floor(beta * beta);
    lemma_times_no_saturation(half_b, half_b, 0x2000_0000_0000_0000);
    lemma_times_no_saturation(a, c, 0x4000_0000_0000_0000);
    let discriminant = sphere_discriminant(center, radius, ray);
    assert(discriminant.raw == p - t);
    assert(rr >= e + 2);
    assert(discriminant.raw >= 2);
    // Its root.
    let scaled = discriminant.raw * s;
    lemma_int_sqrt_exists(scaled);
    let root = int_sqrt(scaled);
    let x = (e + 1) * s;
    assert(0 <= x < r * r);
    vstd::arithmetic::div_mod::lemma_fundamental_div_mod(x, r);
    vstd::arithmetic::div_mod::lemma_mod_pos_bound(x, r);
    vstd::arithmetic::div_mod::lemma_div_pos_is_pos(x, r);
    assert(g == x / r + 1);
    assert(g * r > x && 1 <= g <= r) by (nonlinear_arith)
        requires
            x == r * (x / r) + x % r,
            0 <= x % r < r,
            g == x / r + 1,
            0 <= x < r * r,
            x / r >= 0,
            r > 0,
    ;
    lemma_root_near_radius(r, rr, e, g, discriminant.raw as int, root);
    assert(discriminant.sqrt_spec().raw == root);
    // The nearer parameter.
    let m = beta - root;
    assert(r <= k * s && d <= k * s);
    assert(k * s == s * k && 2 * (k * s) == 2 * s * k) by (nonlinear_arith);
    assert(-2 * (k * s) <= m <= 2 * (k * s));
    let nearer = trunc_div(m * s, a.raw as int);
    lemma_parameter_near_numerator(a.raw as int, k, m, nearer);
    assert(4 * (k * s) <= 0x4000_0000_0000_0000) by (nonlinear_arith)
        requires
            1 <= k <= 0x4001,
            s == 4294967296,
    ;
    let roots = sphere_roots(center, radius, ray);
    assert(half_b.negated().raw == beta);
    assert(half_b.negated().minus(discriminant.sqrt_spec()).raw == m);
    assert(m * ONE_RAW == m * s);
    assert(roots.0.raw == nearer);
}

/// By how many raw counts a component of the normal of the hit can
/// miss the component of the direction that it runs against.
pub open spec fn normal_tolerance(distance: Fixed, radius: Fixed) -> int {
    ((aimed_ray_tolerance(distance, radius) + 2) * ONE_RAW) / radius.raw as int + 2
}

/// A quotient by the radius: for `x` of at most twice the radius in
/// magnitude it does not saturate and misses the exact quotient by less
/// than one raw count.
proof fn lemma_quotient_by_radius(x: int, r: int)
    requires
        0 < r <= 0x4000_0000_0000,
        -2 * r <= x <= 2 * r,
    ensures
        -r < x * ONE_RAW - r * ratio_raw(x, r) < r,
        -2 * ONE_RAW <= ratio_raw(x, r) <= 2 * ONE_RAW,
{
    let s = ONE_RAW as int;
    let m = magnitude(x);
    assert(magnitude(x * s) == m * s) by (nonlinear_arith)
        requires
            m == magnitude(x),
            s > 0,
    ;
    let q = (m * s) / r;
    assert(0 <= m * s <= (2 * s) * r) by (nonlinear_arith)
        requires
            0 <= m <= 2 * r,
            s > 0,
    ;
    vstd::arithmetic::div_mod::lemma_fundamental_div_mod(m * s, r);
    vstd::arithmetic::div_mod::lemma_mod_pos_bound(m * s, r);
    vstd::arithmetic::div_mod::lemma_div_pos_is_pos(m * s, r);
    vstd::arithmetic::div_mod::lemma_div_is_ordered(m * s, (2 * s) * r, r);
    vstd::arithmetic::div_mod::lemma_div_by_multiple(2 * s, r);
    assert(0 <= q <= 2 * s);
    assert(x * ONE_RAW == x * s);
    assert(trunc_div(x * s, r) == if x < 0 {
        -q
    } else {
        q
    });
    assert(r * (-q) == -(r * q)) by (nonlinear_arith);
    assert(x * s == -(m * s) || x * s == m * s) by (nonlinear_arith)
        requires
            m == magnitude(x),
    ;
}

/// One component of the normal where a ray that is aimed at the centre
/// meets the sphere: it runs against the component of the direction, up
/// to the tolerance.
proof fn lemma_normal_component(u: int, d: int, r: int, t: int, tol: int, w: int, v: int, out: int)
    requires
        -ONE_RAW <= u <= ONE_RAW,
        0 < r <= 0x4000_0000_0000,
        0 <= tol,
        d - r - tol <= t <= d - r + tol,
        (tol + 2) * ONE_RAW <= r * ONE_RAW,
        -ONE_RAW < u * d - ONE_RAW * w < ONE_RAW,
        -ONE_RAW < u * t - ONE_RAW * v < ONE_RAW,
        out == ratio_raw(v - w, r),
    ensures
        -(((tol + 2) * ONE_RAW) / r + 2) <= out + u <= ((tol + 2) * ONE_RAW) / r + 2,
        -2 * ONE_RAW <= out <= 2 * ONE_RAW,
{
    let s = ONE_RAW as int;
    let x = v - w;
    let tau = t - (d - r);
    // s * x == u * (t - d) + (errors below 2 s)
    assert(u * t - u * d == u * (tau - r)) by (nonlinear_arith)
        requires
            tau == t - (d - r),
    ;
    assert(u * (tau - r) == u * tau - u * r) by (nonlinear_arith);
    assert(-(s * tol) <= u * tau <= s * tol) by (nonlinear_arith)
        requires
            -s <= u <= s,
            -tol <= tau <= tol,
    ;
    assert(-(s * r) <= u * r <= s * r) by (nonlinear_arith)
        requires
            -s <= u <= s,
            0 < r,
    ;
    assert(s * x == s * v - s * w);
    assert(-(s * r) - s * tol - 2 * s < s * x < s * r + s * tol + 2 * s);
    assert((tol + 2) * s == s * tol + 2 * s && r * s == s * r) by (nonlinear_arith);
    assert(-2 * r <= x <= 2 * r);
    lemma_quotient_by_radius(x, r);
    assert(x * ONE_RAW == s * x);
    // r * (out + u) == u * tau + errors
    let lhs = r * out + u * r;
    assert(lhs == r * (out + u)) by (nonlinear_arith)
        requires
            lhs == r * out + u * r,
    ;
    let bound = ((tol + 2) * s) / r + 2;
    let y = (tol + 2) * s;
    vstd::arithmetic::div_mod::lemma_fundamental_div_mod(y, r);
    vstd::arithmetic::div_mod::lemma_mod_pos_bound(y, r);
    assert(-(y + r) < lhs < y + r);
    assert(bound * r > y + r) by (nonlinear_arith)
        requires
            bound == y / r + 2,
            y == r * (y / r) + y % r,
            0 <= y % r < r,
    ;
    assert(-bound <= out + u <= bound) by (nonlinear_arith)
        requires
            lhs == r * (out + u),
            -(bound * r) < lhs < bound * r,
            r > 0,
    ;
}

/// Where a ray that is aimed at the centre of a sphere meets it, the hit
/// is on the front face and the normal runs back along the ray, whatever
/// the direction of the ray.
///
/// Under the conditions of `lemma_sphere_hit_of_aimed_ray`, and where
/// three times `normal_tolerance` stays below one, each component of the
/// normal misses minus the component of the direction by at most
/// `normal_tolerance` raw counts.
pub proof fn lemma_normal_of_aimed_ray(
    ray: Ray,
    radius: Fixed,
    material: &Material,
    distance: Fixed,
    t_min: Fixed,
    t_max: Fixed,
)
    requires
        ray.dir.in_unit_cube(),
        ONE_RAW - 4 <= ray.dir.length_spec().raw <= ONE_RAW + 1,
        vec_bounded(ray.origin, 0x2000_0000_0000_0000),
        0 < radius.raw <= distance.raw <= 0x4000_0000_0000,
        radius.raw * radius.raw >= (discriminant_tolerance(units_of(distance)) + 2) * ONE_RAW,
        t_min.raw < distance.raw - radius.raw - aimed_ray_tolerance(distance, radius),
        distance.raw - radius.raw + aimed_ray_tolerance(distance, radius) < t_max.raw,
        3 * normal_tolerance(distance, radius) <= ONE_RAW - 11,
    ensures
        sphere_hit_spec(ray.at_spec(distance), radius, material, ray, t_min, t_max) matches Some(
            hit,
        ) && {
            &&& hit.front_face
            &&& magnitude(hit.normal.x.raw + ray.dir.x.raw) <= normal_tolerance(distance, radius)
            &&& magnitude(hit.normal.y.raw + ray.dir.y.raw) <= normal_tolerance(distance, radius)
            &&& magnitude(hit.normal.z.raw + ray.dir.z.raw) <= normal_tolerance(distance, radius)
        },
{
    let s = ONE_RAW as int;
    let d = distance.raw as int;
    let r = radius.raw as int;
    let tol = aimed_ray_tolerance(distance, radius);
    let delta = normal_tolerance(distance, radius);
    let u = ray.dir;
    let center = ray.at_spec(distance);
    lemma_sphere_hit_of_aimed_ray(ray, radius, material, distance, t_min, t_max);
    let hit = sphere_hit_spec(center, radius, material, ray, t_min, t_max)->Some_0;
    let t = hit.t;
    lemma_near_unit_norm(u);
    assert(tol >= 0 && units_of(distance) >= 1) by {
        vstd::arithmetic::div_mod::lemma_div_pos_is_pos(d, s);
        let k = units_of(distance);
        assert(k * k >= 0) by (nonlinear_arith);
        assert((discriminant_tolerance(k) + 1) * ONE_RAW >= 0) by (nonlinear_arith)
            requires
                discriminant_tolerance(k) >= 0,
        ;
        vstd::arithmetic::div_mod::lemma_div_pos_is_pos(
            (discriminant_tolerance(k) + 1) * ONE_RAW,
            r,
        );
    }
    // The tolerance is small against the radius.
    let y = (tol + 2) * s;
    assert(y >= 0) by (nonlinear_arith)
        requires
            y == (tol + 2) * s,
            tol >= 0,
            s > 0,
    ;
    vstd::arithmetic::div_mod::lemma_fundamental_div_mod(y, r);
    vstd::arithmetic::div_mod::lemma_mod_pos_bound(y, r);
    assert(y <= r * s) by (nonlinear_arith)
        requires
            y == r * (y / r) + y % r,
            0 <= y % r < r,
            3 * (y / r + 2) <= s - 11,
            r > 0,
            s == 4294967296,
    ;
    assert(tol + 2 <= r) by (nonlinear_arith)
        requires
            y == (tol + 2) * s,
            y <= r * s,
            s > 0,
    ;
    // The offset of the hit from the centre.
    let (w0, w1, w2) = (u.x.times(distance).raw as int, u.y.times(distance).raw as int, u.z.times(
        distance,
    ).raw as int);
    let (v0, v1, v2) = (u.x.times(t).raw as int, u.y.times(t).raw as int, u.z.times(t).raw as int);
    lemma_times_unit(distance, u.x);
    lemma_times_unit(distance, u.y);
    lemma_times_unit(distance, u.z);
    lemma_times_unit(t, u.x);
    lemma_times_unit(t, u.y);
    lemma_times_unit(t, u.z);
    assert(u.x.raw * d == distance.raw * u.x.raw && u.y.raw * d == distance.raw * u.y.raw
        && u.z.raw * d == distance.raw * u.z.raw) by (nonlinear_arith)
        requires
            d == distance.raw,
    ;
    assert(u.x.raw * t.raw == t.raw * u.x.raw && u.y.raw * t.raw == t.raw * u.y.raw && u.z.raw
        * t.raw == t.raw * u.z.raw) by (nonlinear_arith);
    let offset = hit.point.minus(center);
    assert(offset.x.raw == v0 - w0 && offset.y.raw == v1 - w1 && offset.z.raw == v2 - w2);
    let outward = offset.over(radius);
    lemma_normal_component(u.x.raw as int, d, r, t.raw as int, tol, w0, v0, outward.x.raw as int);
    lemma_normal_component(u.y.raw as int, d, r, t.raw as int, tol, w1, v1, outward.y.raw as int);
    lemma_normal_component(u.z.raw as int, d, r, t.raw as int, tol, w2, v2, outward.z.raw as int);
    // The ray runs against the outward normal.
    lemma_runs_against(u, outward, delta);
}

/// A direction of length one, up to rounding, runs against a vector
/// that misses minus the direction by little: their dot product is
/// negative.
proof fn lemma_runs_against(u: Vec3, outward: Vec3, delta: int)
    requires
        u.in_unit_cube(),
        ONE_RAW * ONE_RAW - 8 * ONE_RAW <= u.norm_squared_raw(),
        0 <= delta,
        3 * delta <= ONE_RAW - 11,
        -delta <= outward.x.raw + u.x.raw <= delta,
        -delta <= outward.y.raw + u.y.raw <= delta,
        -delta <= outward.z.raw + u.z.raw <= delta,
    ensures
        dot_spec(u, outward).raw < 0,
{
    let s = ONE_RAW as int;
    lemma_times_unit(outward.x, u.x);
    lemma_times_unit(outward.y, u.y);
    lemma_times_unit(outward.z, u.z);
    let (u0, u1, u2) = (u.x.raw as int, u.y.raw as int, u.z.raw as int);
    let (o0, o1, o2) = (outward.x.raw as int, outward.y.raw as int, outward.z.raw as int);
    assert(o0 * u0 <= -(u0 * u0) + s * delta) by (nonlinear_arith)
        requires
            -delta <= o0 + u0 <= delta,
            -s <= u0 <= s,
    ;
    assert(o1 * u1 <= -(u1 * u1) + s * delta) by (nonlinear_arith)
        requires
            -delta <= o1 + u1 <= delta,
            -s <= u1 <= s,
    ;
    assert(o2 * u2 <= -(u2 * u2) + s * delta) by (nonlinear_arith)
        requires
            -delta <= o2 + u2 <= delta,
            -s <= u2 <= s,
    ;
    let sum = u.x.times(outward.x).raw + u.y.times(outward.y).raw + u.z.times(outward.z).raw;
    assert(s * sum < o0 * u0 + o1 * u1 + o2 * u2 + 3 * s);
    assert(s * sum < 0);
    assert(magnitude(u.x.times(outward.x).raw as int) <= magnitude(o0) && magnitude(o0) <= 2 * s);
    assert(magnitude(u.y.times(outward.y).raw as int) <= magnitude(o1) && magnitude(o1) <= 2 * s);
    assert(magnitude(u.z.times(outward.z).raw as int) <= magnitude(o2) && magnitude(o2) <= 2 * s);
    assert(-6 * s <= sum < 0);
}

/// By how many raw counts the distance estimate of the sphere's field
/// can miss the true distance on a ray that is aimed at the centre.
pub open spec fn field_tolerance(distance: Fixed) -> int {
    8 * units_of(distance) + 12
}

/// The square of one component of the offset from the centre: with
/// `s x = -u h + eps` and `eps` below two raw counts, `s^2 x^2` misses
/// `u^2 h^2` by at most `4 h s^2` below and `4 h s^2 + 4 s^2` above.
proof fn lemma_offset_component_square(u: int, h: int, x: int)
    requires
        -ONE_RAW <= u <= ONE_RAW,
        0 <= h,
        -2 * ONE_RAW < ONE_RAW * x + u * h < 2 * ONE_RAW,
    ensures
        (h * h) * (u * u) - 4 * (h * (ONE_RAW * ONE_RAW)) <= (ONE_RAW * ONE_RAW) * (x * x),
        (ONE_RAW * ONE_RAW) * (x * x) <= (h * h) * (u * u) + 4 * (h * (ONE_RAW * ONE_RAW)) + 4 * (
        ONE_RAW * ONE_RAW),
{
    let s = ONE_RAW as int;
    let p = u * h;
    let eps = s * x + p;
    assert((s * x) * (s * x) == p * p - 2 * (p * eps) + eps * eps) by (nonlinear_arith)
        requires
            eps == s * x + p,
    ;
    assert((s * x) * (s * x) == (s * s) * (x * x)) by (nonlinear_arith);
    assert(p * p == (h * h) * (u * u)) by (nonlinear_arith)
        requires
            p == u * h,
    ;
    assert(-(h * s) <= p <= h * s) by (nonlinear_arith)
        requires
            p == u * h,
            -s <= u <= s,
            0 <= h,
    ;
    let hs = h * s;
    assert(-((2 * s) * hs) <= p * eps <= (2 * s) * hs) by (nonlinear_arith)
        requires
            -hs <= p <= hs,
            -2 * s < eps < 2 * s,
            s > 0,
    ;
    assert((2 * s) * hs == 2 * (h * (s * s))) by (nonlinear_arith)
        requires
            hs == h * s,
    ;
    assert(0 <= eps * eps <= 4 * (s * s)) by (nonlinear_arith)
        requires
            -2 * s < eps < 2 * s,
    ;
    let lhs = (s * s) * (x * x);
    let main = (h * h) * (u * u);
    let hss = h * (s * s);
    assert(lhs == main - 2 * (p * eps) + eps * eps);
    assert(-2 * hss <= p * eps <= 2 * hss);
    assert(lhs <= main + 4 * hss + 4 * (s * s));
    assert(s * s == ONE_RAW * ONE_RAW);
}

/// The length of the offset from the centre: where each component of
/// the offset is minus the component of the direction times `h`, up to
/// two raw counts, the integer square root of the sum of their squares
/// misses `h` by at most `8 k + 12`.
proof fn lemma_offset_length(u: Vec3, h: int, k: int, x0: int, x1: int, x2: int)
    requires
        u.in_unit_cube(),
        ONE_RAW * ONE_RAW - 8 * ONE_RAW <= u.norm_squared_raw() <= ONE_RAW * ONE_RAW + 5
            * ONE_RAW,
        0 <= h <= k * ONE_RAW,
        1 <= k,
        -2 * ONE_RAW < ONE_RAW * x0 + u.x.raw * h < 2 * ONE_RAW,
        -2 * ONE_RAW < ONE_RAW * x1 + u.y.raw * h < 2 * ONE_RAW,
        -2 * ONE_RAW < ONE_RAW * x2 + u.z.raw * h < 2 * ONE_RAW,
    ensures
        x0 * x0 + x1 * x1 + x2 * x2 >= 0,
        h - (8 * k + 12) <= int_sqrt(x0 * x0 + x1 * x1 + x2 * x2) <= h + 8 * k + 12,
{
    let s = ONE_RAW as int;
    let ss = s * s;
    let n = u.norm_squared_raw();
    let big = x0 * x0 + x1 * x1 + x2 * x2;
    let b = 8 * k + 12;
    assert(x0 * x0 >= 0 && x1 * x1 >= 0 && x2 * x2 >= 0) by (nonlinear_arith);
    lemma_offset_component_square(u.x.raw as int, h, x0);
    lemma_offset_component_square(u.y.raw as int, h, x1);
    lemma_offset_component_square(u.z.raw as int, h, x2);
    let hh = h * h;
    assert(hh * n == hh * (u.x.raw * u.x.raw) + hh * (u.y.raw * u.y.raw) + hh * (u.z.raw
        * u.z.raw)) by (nonlinear_arith)
        requires
            n == u.x.raw * u.x.raw + u.y.raw * u.y.raw + u.z.raw * u.z.raw,
    ;
    assert(ss * big == ss * (x0 * x0) + ss * (x1 * x1) + ss * (x2 * x2)) by (nonlinear_arith)
        requires
            big == x0 * x0 + x1 * x1 + x2 * x2,
    ;
    let hss = h * ss;
    assert(hh * n - 12 * hss <= ss * big <= hh * n + 12 * hss + 12 * ss);
    assert(0 <= hh && hh * (ss - 8 * s) <= hh * n <= hh * (ss + 5 * s)) by (nonlinear_arith)
        requires
            hh == h * h,
            ss - 8 * s <= n <= ss + 5 * s,
    ;
    let hk = h * k;
    assert(0 <= hk && hh <= hk * s) by (nonlinear_arith)
        requires
            hh == h * h,
            hk == h * k,
            0 <= h <= k * s,
            1 <= k,
    ;
    // From above.
    let top = h + b;
    assert(top * top == hh + 16 * hk + 24 * h + b * b) by (nonlinear_arith)
        requires
            top == h + b,
            b == 8 * k + 12,
            hh == h * h,
            hk == h * k,
    ;
    assert(b * b >= 144) by (nonlinear_arith)
        requires
            b == 8 * k + 12,
            k >= 1,
    ;
    assert(big <= top * top) by (nonlinear_arith)
        requires
            ss * big <= hh * n + 12 * hss + 12 * ss,
            hh * n <= hh * (ss + 5 * s),
            hss == h * ss,
            hh <= hk * s,
            0 <= hk,
            0 <= h,
            top * top >= hh + 16 * hk + 24 * h + 144,
            ss == s * s,
            s == 4294967296,
    ;
    lemma_int_sqrt_exists(big);
    let root = int_sqrt(big);
    if root > top {
        lemma_square_monotone(top, root);
        assert(false);
    }
    // From below.
    if h > b {
        let low = h - b;
        assert(low * low == hh - 16 * hk - 24 * h + b * b) by (nonlinear_arith)
            requires
                low == h - b,
                b == 8 * k + 12,
                hh == h * h,
                hk == h * k,
        ;
        assert(b * b <= h * b) by (nonlinear_arith)
            requires
                0 <= b < h,
        ;
        assert(h * b == 8 * hk + 12 * h) by (nonlinear_arith)
            requires
                b == 8 * k + 12,
                hk == h * k,
        ;
        assert(low * low <= big) by (nonlinear_arith)
            requires
                hh * n - 12 * hss <= ss * big,
                hh * (ss - 8 * s) <= hh * n,
                hss == h * ss,
                hh <= hk * s,
                0 <= hk,
                0 <= h,
                low * low <= hh - 8 * hk - 12 * h,
                ss == s * s,
                s == 4294967296,
        ;
        if root + 1 <= low {
            assert((root + 1) * (root + 1) <= low * low) by (nonlinear_arith)
                requires
                    0 <= root + 1 <= low,
            ;
            assert(false);
        }
    }
}

/// On a ray that is aimed at the centre of a sphere, at a parameter
/// short of the centre, the field of the sphere estimates the distance
/// to the surface up to `field_tolerance`.
proof fn lemma_field_on_aimed_ray(ray: Ray, radius: Fixed, distance: Fixed, t: Fixed)
    requires
        ray.dir.in_unit_cube(),
        ONE_RAW - 4 <= ray.dir.length_spec().raw <= ONE_RAW + 1,
        vec_bounded(ray.origin, 0x2000_0000_0000_0000),
        0 < radius.raw <= distance.raw <= 0x4000_0000_0000,
        0 <= t.raw <= distance.raw,
    ensures
        distance.raw - t.raw - radius.raw - field_tolerance(distance)
            <= SignedDistanceField::Sphere(ray.at_spec(distance), radius).distance_spec(
            ray.at_spec(t),
        ).raw <= distance.raw - t.raw - radius.raw + field_tolerance(distance),
{
    let s = ONE_RAW as int;
    let d = distance.raw as int;
    let h = d - t.raw;
    let k = units_of(distance);
    let u = ray.dir;
    lemma_near_unit_norm(u);
    vstd::arithmetic::div_mod::lemma_fundamental_div_mod(d, s);
    vstd::arithmetic::div_mod::lemma_mod_pos_bound(d, s);
    assert(1 <= k <= 0x4001 && d <= k * s);
    let (w0, w1, w2) = (u.x.times(distance).raw as int, u.y.times(distance).raw as int, u.z.times(
        distance,
    ).raw as int);
    let (v0, v1, v2) = (u.x.times(t).raw as int, u.y.times(t).raw as int, u.z.times(t).raw as int);
    lemma_times_unit(distance, u.x);
    lemma_times_unit(distance, u.y);
    lemma_times_unit(distance, u.z);
    lemma_times_unit(t, u.x);
    lemma_times_unit(t, u.y);
    lemma_times_unit(t, u.z);
    let offset = ray.at_spec(t).minus(ray.at_spec(distance));
    assert(offset.x.raw == v0 - w0 && offset.y.raw == v1 - w1 && offset.z.raw == v2 - w2);
    assert(u.x.raw * h == distance.raw * u.x.raw - t.raw * u.x.raw && u.y.raw * h == distance.raw
        * u.y.raw - t.raw * u.y.raw && u.z.raw * h == distance.raw * u.z.raw - t.raw * u.z.raw)
        by (nonlinear_arith)
        requires
            h == distance.raw - t.raw,
    ;
    lemma_offset_length(u, h, k, v0 - w0, v1 - w1, v2 - w2);
    assert(offset.norm_squared_raw() == (v0 - w0) * (v0 - w0) + (v1 - w1) * (v1 - w1) + (v2 - w2)
        * (v2 - w2));
}

/// Sphere tracing a sphere along a ray that is aimed at its centre ends
/// where the distance to the centre less the radius says, whatever the
/// direction of the ray.
///
/// The direction has length one up to rounding; the origin is at most
/// 2^61 raw counts in each component; the centre is the point of the
/// ray at the distance, of at most 2^46 raw counts; the radius is at
/// least `field_tolerance`; the tolerance of the tracing is more than
/// twice `field_tolerance`; tracing starts at a parameter that is not
/// negative and not inside the sphere; and there are at least two steps.
/// Then the sphere is hit, on the front face, at a parameter that is at
/// most `field_tolerance` beyond the distance less the radius, and less
/// than `field_tolerance` plus the tolerance of the tracing short of it.
pub proof fn lemma_raymarch_of_aimed_ray(
    ray: Ray,
    radius: Fixed,
    material: &Material,
    distance: Fixed,
    epsilon: Fixed,
    t_min: Fixed,
    t_max: Fixed,
    max_steps: nat,
)
    requires
        ray.dir.in_unit_cube(),
        ONE_RAW - 4 <= ray.dir.length_spec().raw <= ONE_RAW + 1,
        vec_bounded(ray.origin, 0x2000_0000_0000_0000),
        0 < radius.raw <= distance.raw <= 0x4000_0000_0000,
        field_tolerance(distance) <= radius.raw,
        2 * field_tolerance(distance) < epsilon.raw,
        0 <= t_min.raw <= distance.raw - radius.raw,
        distance.raw - radius.raw + field_tolerance(distance) <= t_max.raw,
        max_steps >= 2,
    ensures
        raymarch_spec(
            SignedDistanceField::Sphere(ray.at_spec(distance), radius),
            epsilon,
            material,
            ray,
            t_min,
            t_max,
            max_steps,
        ) matches Some(hit) && {
            &&& distance.raw - radius.raw - field_tolerance(distance) - epsilon.raw < hit.t.raw
            &&& hit.t.raw <= distance.raw - radius.raw + field_tolerance(distance)
            &&& hit.front_face
            &&& hit.point == ray.at_spec(hit.t)
            &&& hit.material == material
        },
{
    let field = SignedDistanceField::Sphere(ray.at_spec(distance), radius);
    lemma_field_on_aimed_ray(ray, radius, distance, t_min);
    let estimate = field.distance_spec(ray.at_spec(t_min));
    if estimate.raw >= epsilon.raw {
        let next = t_min.plus(estimate);
        assert(next.raw == t_min.raw + estimate.raw);
        lemma_field_on_aimed_ray(ray, radius, distance, next);
        assert(raymarch_spec(field, epsilon, material, ray, next, t_max, (max_steps - 1) as nat)
            is Some);
    }
}

/// Sphere tracing the field of a sphere finds the hit that the analytic
/// intersection finds, up to the tolerances, whatever the direction of
/// the ray that is aimed at the centre.
///
/// Where both `lemma_sphere_hit_of_aimed_ray` and
/// `lemma_raymarch_of_aimed_ray` apply, both report a hit; the traced
/// parameter exceeds the analytic one by at most `field_tolerance` plus
/// `aimed_ray_tolerance`, and falls short of it by less than those two
/// plus the tolerance of the tracing.
pub proof fn lemma_raymarch_agrees_on_aimed_ray(
    ray: Ray,
    radius: Fixed,
    material: &Material,
    distance: Fixed,
    epsilon: Fixed,
    t_min: Fixed,
    t_max: Fixed,
    max_steps: nat,
)
    requires
        ray.dir.in_unit_cube(),
        ONE_RAW - 4 <= ray.dir.length_spec().raw <= ONE_RAW + 1,
        vec_bounded(ray.origin, 0x2000_0000_0000_0000),
        0 < radius.raw <= distance.raw <= 0x4000_0000_0000,
        radius.raw * radius.raw >= (discriminant_tolerance(units_of(distance)) + 2) * ONE_RAW,
        field_tolerance(distance) <= radius.raw,
        2 * field_tolerance(distance) < epsilon.raw,
        0 <= t_min.raw < distance.raw - radius.raw - aimed_ray_tolerance(distance, radius),
        distance.raw - radius.raw + aimed_ray_tolerance(distance, radius) < t_max.raw,
        distance.raw - radius.raw + field_tolerance(distance) <= t_max.raw,
        max_steps >= 2,
    ensures
        sphere_hit_spec(ray.at_spec(distance), radius, material, ray, t_min, t_max) matches Some(
            analytic,
        ) && raymarch_spec(
            SignedDistanceField::Sphere(ray.at_spec(distance), radius),
            epsilon,
            material,
            ray,
            t_min,
            t_max,
            max_steps,
        ) matches Some(traced) && {
            &&& traced.t.raw <= analytic.t.raw + field_tolerance(distance) + aimed_ray_tolerance(
                distance,
                radius,
            )
            &&& analytic.t.raw - field_tolerance(distance) - aimed_ray_tolerance(distance, radius)
                - epsilon.raw < traced.t.raw
        },
{
    lemma_sphere_hit_of_aimed_ray(ray, radius, material, distance, t_min, t_max);
    lemma_raymarch_of_aimed_ray(ray, radius, material, distance, epsilon, t_min, t_max, max_steps);
    let k = units_of(distance);
    assert(aimed_ray_tolerance(distance, radius) >= 0) by {
        vstd::arithmetic::div_mod::lemma_div_pos_is_pos(distance.raw as int, ONE_RAW as int);
        assert(k * k >= 0) by (nonlinear_arith);
        assert((discriminant_tolerance(k) + 1) * ONE_RAW >= 0) by (nonlinear_arith)
            requires
                discriminant_tolerance(k) >= 0,
        ;
        vstd::arithmetic::div_mod::lemma_div_pos_is_pos(
            (discriminant_tolerance(k) + 1) * ONE_RAW,
            radius.raw as int,
        );
    }
}

} // verus!
