//! What holds of the vector algebra up to rounding.
use vstd::prelude::*;
use crate::math::fixed::{
    int_sqrt, is_int_sqrt, lemma_int_sqrt_exists, lemma_square_monotone,
    magnitude, ratio_raw, trunc_div, Fixed, ONE_RAW,
};
use crate::math::math3::{dot_spec, lemma_component_at_most_length, reflect_spec, Vec3};

verus! {

/// Whether the number is at most `m` raw counts away from zero.
pub open spec fn bounded(x: Fixed, m: int) -> bool {
    -m <= x.raw <= m
}

/// Whether each component is at most `m` raw counts away from zero.
pub open spec fn vec_bounded(v: Vec3, m: int) -> bool {
    bounded(v.x, m) && bounded(v.y, m) && bounded(v.z, m)
}

/// Rounding a quotient by one toward zero loses less than one: `q`
/// times the scale differs from `p` by less than the scale, and lies no
/// farther from zero than `p` does.
pub proof fn lemma_trunc_div_by_one(p: int)
    ensures
        -ONE_RAW < p - ONE_RAW * trunc_div(p, ONE_RAW as int) < ONE_RAW,
        magnitude(ONE_RAW * trunc_div(p, ONE_RAW as int)) <= magnitude(p),
{
    let m = magnitude(p);
    let s = ONE_RAW as int;
    assert(m == s * (m / s) + m % s) by {
        vstd::arithmetic::div_mod::lemma_fundamental_div_mod(m, s);
    }
    assert(0 <= m % s && m % s < s);
    assert(0 <= m / s);
}

/// The product of a number with one of the unit interval `[-1, 1]`: it
/// does not saturate, is no larger than the number, and misses the exact
/// product by less than one raw count.
pub proof fn lemma_times_unit(a: Fixed, n: Fixed)
    requires
        bounded(n, ONE_RAW as int),
        bounded(a, i64::MAX as int),
    ensures
        n.times(a).raw == a.times(n).raw,
        magnitude(a.times(n).raw as int) <= magnitude(a.raw as int),
        -ONE_RAW < a.raw * n.raw - ONE_RAW * a.times(n).raw < ONE_RAW,
{
    let s = ONE_RAW as int;
    let p = a.raw * n.raw;
    let q = trunc_div(p, s);
    lemma_trunc_div_by_one(p);
    assert(magnitude(p) <= magnitude(a.raw as int) * s) by (nonlinear_arith)
        requires
            p == a.raw * n.raw,
            -s <= n.raw <= s,
    ;
    assert(magnitude(s * q) == s * magnitude(q)) by (nonlinear_arith)
        requires
            s > 0,
    ;
    assert(magnitude(q) <= magnitude(a.raw as int));
    assert(a.times(n).raw == q);
    assert(n.raw * a.raw == p) by (nonlinear_arith)
        requires
            p == a.raw * n.raw,
    ;
}

/// The dot product of a vector with one of the unit cube: it does not
/// saturate if three times the vector's bound fits, and misses the exact
/// sum of products by less than three raw counts.
pub proof fn lemma_dot_unit(v: Vec3, n: Vec3, m: int)
    requires
        n.in_unit_cube(),
        vec_bounded(v, m),
        3 * m <= i64::MAX,
    ensures
        bounded(dot_spec(v, n), 3 * m),
        -3 * ONE_RAW < (v.x.raw * n.x.raw + v.y.raw * n.y.raw + v.z.raw * n.z.raw) - ONE_RAW
            * dot_spec(v, n).raw < 3 * ONE_RAW,
{
    lemma_times_unit(v.x, n.x);
    lemma_times_unit(v.y, n.y);
    lemma_times_unit(v.z, n.z);
}

/// A vector of the unit cube scaled by a number: no component is larger
/// than the number, and each misses the exact product by less than one
/// raw count.
pub proof fn lemma_scaled_unit(n: Vec3, k: Fixed)
    requires
        n.in_unit_cube(),
        bounded(k, i64::MAX as int),
    ensures
        vec_bounded(n.scaled(k), magnitude(k.raw as int)),
        -ONE_RAW < k.raw * n.x.raw - ONE_RAW * n.scaled(k).x.raw < ONE_RAW,
        -ONE_RAW < k.raw * n.y.raw - ONE_RAW * n.scaled(k).y.raw < ONE_RAW,
        -ONE_RAW < k.raw * n.z.raw - ONE_RAW * n.scaled(k).z.raw < ONE_RAW,
{
    lemma_times_unit(k, n.x);
    lemma_times_unit(k, n.y);
    lemma_times_unit(k, n.z);
}

/// Twice a number of at most a quarter of the range is exact.
pub proof fn lemma_double(d: Fixed)
    requires
        bounded(d, 0x2000_0000_0000_0000),
    ensures
        Fixed::int_spec(2).times(d).raw == 2 * d.raw,
{
    let s = ONE_RAW as int;
    let x = 2 * d.raw;
    assert(Fixed::int_spec(2).raw == 2 * s);
    assert((2 * s) * d.raw == s * x) by (nonlinear_arith)
        requires
            x == 2 * d.raw,
    ;
    lemma_trunc_div_by_one(s * x);
    assert(trunc_div(s * x, s) == x) by (nonlinear_arith)
        requires
            -s < s * x - s * trunc_div(s * x, s) < s,
            s > 0,
    ;
}

/// Mirroring a vector at a plane negates its component along the
/// plane's normal, up to rounding.
///
/// For a normal in the unit cube and a vector of at most 2^58 raw counts
/// (2^26 as a number) in each component, the dot products with the
/// normal before and after add up to at most nine raw counts, plus
/// twice the dot product before times the amount by which the squared
/// length of the normal misses one. Both sides are written out in units
/// of 2^-96.
pub proof fn lemma_reflect_negates_normal_component(v: Vec3, n: Vec3)
    requires
        n.in_unit_cube(),
        vec_bounded(v, 0x400_0000_0000_0000),
    ensures
        ONE_RAW * ONE_RAW * magnitude(dot_spec(reflect_spec(v, n), n).raw + dot_spec(v, n).raw) <= 9
            * ONE_RAW * ONE_RAW + 2 * magnitude(dot_spec(v, n).raw as int) * magnitude(
            ONE_RAW * ONE_RAW - n.norm_squared_raw(),
        ),
{
    let s = ONE_RAW as int;
    let (n0, n1, n2) = (n.x.raw as int, n.y.raw as int, n.z.raw as int);
    let (v0, v1, v2) = (v.x.raw as int, v.y.raw as int, v.z.raw as int);
    let d = dot_spec(v, n).raw as int;
    let k = Fixed::int_spec(2).times(dot_spec(v, n));
    let w = n.scaled(k);
    let (w0, w1, w2) = (w.x.raw as int, w.y.raw as int, w.z.raw as int);
    let r = reflect_spec(v, n);
    let after = dot_spec(r, n).raw as int;
    let nn = n.norm_squared_raw();
    let rho1 = (v0 * n0 + v1 * n1 + v2 * n2) - s * d;
    let rho3 = ((v0 - w0) * n0 + (v1 - w1) * n1 + (v2 - w2) * n2) - s * after;
    let (e0, e1, e2) = (2 * d * n0 - s * w0, 2 * d * n1 - s * w1, 2 * d * n2 - s * w2);

    lemma_dot_unit(v, n, 0x400_0000_0000_0000);
    lemma_double(dot_spec(v, n));
    lemma_scaled_unit(n, k);
    assert(r.x.raw == v0 - w0 && r.y.raw == v1 - w1 && r.z.raw == v2 - w2);
    lemma_dot_unit(r, n, 0x2000_0000_0000_0000);
    assert(-s < e0 < s && -s < e1 < s && -s < e2 < s) by {
        assert(k.raw * n0 == 2 * d * n0 && k.raw * n1 == 2 * d * n1 && k.raw * n2 == 2 * d * n2)
            by (nonlinear_arith)
            requires
                k.raw == 2 * d,
        ;
    }
    assert(-3 * s < rho1 < 3 * s);
    assert(-3 * s < rho3 < 3 * s);
    lemma_reflect_identity(s, d, after, v0, v1, v2, n0, n1, n2, w0, w1, w2);
    lemma_reflect_error(s, d, after, nn, rho1, rho3, e0, e1, e2, n0, n1, n2);
}

/// The bound that follows from the identity once each rounding error is
/// known to be small.
proof fn lemma_reflect_error(
    s: int,
    d: int,
    after: int,
    nn: int,
    rho1: int,
    rho3: int,
    e0: int,
    e1: int,
    e2: int,
    n0: int,
    n1: int,
    n2: int,
)
    requires
        s > 0,
        -3 * s < rho1 < 3 * s,
        -3 * s < rho3 < 3 * s,
        -s < e0 < s,
        -s < e1 < s,
        -s < e2 < s,
        -s <= n0 <= s,
        -s <= n1 <= s,
        -s <= n2 <= s,
        s * s * (after + d) == 2 * d * (s * s - nn) + s * rho1 + (e0 * n0 + e1 * n1 + e2 * n2) - s
            * rho3,
    ensures
        s * s * magnitude(after + d) <= 9 * s * s + 2 * magnitude(d) * magnitude(s * s - nn),
{
    lemma_small_product(e0, n0, s);
    lemma_small_product(e1, n1, s);
    lemma_small_product(e2, n2, s);
    let ss = s * s;
    let t1 = s * rho1;
    let t3 = s * rho3;
    assert(-3 * ss < t1 < 3 * ss) by (nonlinear_arith)
        requires
            -3 * s < rho1 < 3 * s,
            s > 0,
            ss == s * s,
            t1 == s * rho1,
    ;
    assert(-3 * ss < t3 < 3 * ss) by (nonlinear_arith)
        requires
            -3 * s < rho3 < 3 * s,
            s > 0,
            ss == s * s,
            t3 == s * rho3,
    ;
    assert(-s * s == -ss) by (nonlinear_arith)
        requires
            ss == s * s,
    ;
    let main = 2 * d * (ss - nn);
    let total = ss * (after + d);
    assert(magnitude(main) == 2 * magnitude(d) * magnitude(ss - nn)) by (nonlinear_arith)
        requires
            main == 2 * d * (ss - nn),
    ;
    assert(ss * magnitude(after + d) == magnitude(total)) by (nonlinear_arith)
        requires
            ss >= 0,
            total == ss * (after + d),
    ;
    assert(ss >= 0) by (nonlinear_arith)
        requires
            ss == s * s,
    ;
    assert(total == main + t1 + (e0 * n0 + e1 * n1 + e2 * n2) - t3);
    assert(9 * s * s == 9 * ss) by (nonlinear_arith)
        requires
            ss == s * s,
    ;
}

/// A product of a factor below `s` in magnitude and one of at most `s`
/// is below `s * s` in magnitude.
proof fn lemma_small_product(e: int, n: int, s: int)
    requires
        -s < e < s,
        -s <= n <= s,
    ensures
        -s * s < e * n < s * s,
{
    assert(-s * s < e * n < s * s) by (nonlinear_arith)
        requires
            -s < e < s,
            -s <= n <= s,
    ;
}

/// The polynomial identity that relates the two dot products: all
/// rounding errors on one side, the exact terms cancelled.
proof fn lemma_reflect_identity(
    s: int,
    d: int,
    after: int,
    v0: int,
    v1: int,
    v2: int,
    n0: int,
    n1: int,
    n2: int,
    w0: int,
    w1: int,
    w2: int,
)
    ensures
        s * s * (after + d) == 2 * d * (s * s - (n0 * n0 + n1 * n1 + n2 * n2)) + s * ((v0 * n0 + v1
            * n1 + v2 * n2) - s * d) + ((2 * d * n0 - s * w0) * n0 + (2 * d * n1 - s * w1) * n1 + (2
            * d * n2 - s * w2) * n2) - s * (((v0 - w0) * n0 + (v1 - w1) * n1 + (v2 - w2) * n2) - s
            * after),
{
    assert((2 * d * n0 - s * w0) * n0 == 2 * d * (n0 * n0) - s * (w0 * n0)) by (nonlinear_arith);
    assert((2 * d * n1 - s * w1) * n1 == 2 * d * (n1 * n1) - s * (w1 * n1)) by (nonlinear_arith);
    assert((2 * d * n2 - s * w2) * n2 == 2 * d * (n2 * n2) - s * (w2 * n2)) by (nonlinear_arith);
    assert((v0 - w0) * n0 == v0 * n0 - w0 * n0) by (nonlinear_arith);
    assert((v1 - w1) * n1 == v1 * n1 - w1 * n1) by (nonlinear_arith);
    assert((v2 - w2) * n2 == v2 * n2 - w2 * n2) by (nonlinear_arith);
    let nn = n0 * n0 + n1 * n1 + n2 * n2;
    assert(2 * d * (s * s - nn) == 2 * d * (s * s) - 2 * d * (n0 * n0) - 2 * d * (n1 * n1) - 2 * d
        * (n2 * n2)) by (nonlinear_arith)
        requires
            nn == n0 * n0 + n1 * n1 + n2 * n2,
    ;
    assert(s * s * (after + d) == s * s * after + s * s * d) by (nonlinear_arith);
    assert(2 * d * (s * s) == 2 * (s * s * d)) by (nonlinear_arith);
    let a = (v0 * n0 + v1 * n1 + v2 * n2) - s * d;
    assert(s * a == s * (v0 * n0) + s * (v1 * n1) + s * (v2 * n2) - s * s * d) by (nonlinear_arith)
        requires
            a == (v0 * n0 + v1 * n1 + v2 * n2) - s * d,
    ;
    let b = ((v0 * n0 - w0 * n0) + (v1 * n1 - w1 * n1) + (v2 * n2 - w2 * n2)) - s * after;
    assert(s * b == s * (v0 * n0) + s * (v1 * n1) + s * (v2 * n2) - s * (w0 * n0) - s * (w1 * n1)
        - s * (w2 * n2) - s * s * after) by (nonlinear_arith)
        requires
            b == ((v0 * n0 - w0 * n0) + (v1 * n1 - w1 * n1) + (v2 * n2 - w2 * n2)) - s * after,
    ;
}

/// One component of a normalised vector, seen without its sign: for
/// `0 <= m <= l` the quotient `a` of `m * s` by `l` is at most `s`, and
/// `l * a` misses `m * s` from below by less than `l`.
proof fn lemma_unit_component(m: int, l: int, s: int)
    requires
        0 <= m <= l,
        0 < l,
        0 < s,
    ensures
        0 <= (m * s) / l <= s,
        m * s - l < l * ((m * s) / l) <= m * s,
{
    let a = (m * s) / l;
    assert(0 <= m * s <= l * s) by (nonlinear_arith)
        requires
            0 <= m <= l,
            0 < s,
    ;
    vstd::arithmetic::div_mod::lemma_fundamental_div_mod(m * s, l);
    vstd::arithmetic::div_mod::lemma_mod_pos_bound(m * s, l);
    vstd::arithmetic::div_mod::lemma_div_pos_is_pos(m * s, l);
    vstd::arithmetic::div_mod::lemma_div_is_ordered(m * s, l * s, l);
    vstd::arithmetic::div_mod::lemma_div_by_multiple(s, l);
    assert(s * l == l * s) by (nonlinear_arith);
}

/// The square of `la`, which misses `ms` from below by less than `l`,
/// lies between `ms^2 - 2 ms l` and `ms^2`.
proof fn lemma_square_near(la: int, ms: int, l: int)
    requires
        0 <= la <= ms,
        ms - l < la,
        0 < l,
    ensures
        ms * ms - 2 * (ms * l) <= la * la <= ms * ms,
{
    let delta = ms - la;
    assert(la * la == ms * ms - 2 * (ms * delta) + delta * delta) by (nonlinear_arith)
        requires
            delta == ms - la,
    ;
    assert(ms * delta <= ms * l) by (nonlinear_arith)
        requires
            0 <= delta < l,
            0 <= ms,
    ;
    assert(delta * delta >= 0) by (nonlinear_arith);
    assert(la * la <= ms * ms) by (nonlinear_arith)
        requires
            0 <= la <= ms,
    ;
}

/// From the sum of the squared components to the length: if `l^2 * big`
/// lies between `s^2 * n - 2 s l t` and `s^2 * n`, where `l` is the
/// integer square root of `n`, not zero, and `t` is at most `3 l`, then
/// the integer square root of `big` is at most four below `s` and at
/// most `s / l` above it, and at most one above it where `l` is at
/// least half of `s`.
proof fn lemma_unit_length_bounds(s: int, l: int, n: int, big: int, t: int)
    requires
        s >= 16,
        is_int_sqrt(n, l),
        l >= 1,
        0 <= t <= 3 * l,
        0 <= big,
        (s * s) * n - 2 * ((s * l) * t) <= (l * l) * big <= (s * s) * n,
    ensures
        s - 4 <= int_sqrt(big) <= s + s / l,
        2 * l >= s ==> int_sqrt(big) <= s + 1,
{
    lemma_int_sqrt_exists(big);
    let r = int_sqrt(big);
    let ll = l * l;
    let ss = s * s;
    assert(ll > 0) by (nonlinear_arith)
        requires
            ll == l * l,
            l >= 1,
    ;
    // From above.
    assert(ss * n < ss * ((l + 1) * (l + 1))) by (nonlinear_arith)
        requires
            n < (l + 1) * (l + 1),
            ss == s * s,
            s >= 16,
    ;
    lemma_square_of_product(s, l + 1);
    lemma_root_below(s, l, s + s / l + 1, big);
    vstd::arithmetic::div_mod::lemma_fundamental_div_mod(s, l);
    vstd::arithmetic::div_mod::lemma_mod_pos_bound(s, l);
    assert((s + s / l + 1) * l > s * (l + 1)) by (nonlinear_arith)
        requires
            s == l * (s / l) + s % l,
            s % l < l,
    ;
    if r >= s + s / l + 1 {
        if r > s + s / l + 1 {
            vstd::arithmetic::div_mod::lemma_div_pos_is_pos(s, l);
            lemma_square_monotone(s + s / l + 1, r);
        }
        assert(false);
    }
    if 2 * l >= s {
        assert((s + 2) * l >= s * (l + 1)) by (nonlinear_arith)
            requires
                2 * l >= s,
        ;
        lemma_root_below(s, l, s + 2, big);
        if r >= s + 2 {
            if r > s + 2 {
                lemma_square_monotone(s + 2, r);
            }
            assert(false);
        }
    }
    // From below.
    assert((s * l) * t <= 3 * (s * ll)) by (nonlinear_arith)
        requires
            0 <= t <= 3 * l,
            s >= 16,
            l >= 0,
            ll == l * l,
    ;
    assert(ss * n >= ss * ll) by (nonlinear_arith)
        requires
            n >= l * l,
            ll == l * l,
            ss == s * s,
    ;
    assert(ll * big >= (ss - 6 * s) * ll) by (nonlinear_arith)
        requires
            ll * big >= ss * n - 2 * ((s * l) * t),
            ss * n >= ss * ll,
            (s * l) * t <= 3 * (s * ll),
    ;
    assert(big >= ss - 6 * s) by (nonlinear_arith)
        requires
            ll * big >= (ss - 6 * s) * ll,
            ll > 0,
    ;
    assert((s - 4) * (s - 4) <= ss - 6 * s) by (nonlinear_arith)
        requires
            ss == s * s,
            s >= 16,
    ;
    if r < s - 4 {
        if r + 1 < s - 4 {
            lemma_square_monotone(r + 1, s - 4);
        }
        assert(false);
    }
}

/// If `l^2 * big` is below `s^2 * (l + 1)^2` and `b * l` is at least
/// `s * (l + 1)`, then `big` is below the square of `b`.
proof fn lemma_root_below(s: int, l: int, b: int, big: int)
    requires
        s >= 0,
        l >= 1,
        0 <= big,
        (l * l) * big < (s * s) * ((l + 1) * (l + 1)),
    ensures
        b * l >= s * (l + 1) ==> big < b * b,
{
    if b * l >= s * (l + 1) {
        let x = s * (l + 1);
        let y = b * l;
        assert(0 <= x) by (nonlinear_arith)
            requires
                x == s * (l + 1),
                s >= 0,
                l >= 1,
        ;
        assert(x * x <= y * y) by (nonlinear_arith)
            requires
                0 <= x <= y,
        ;
        lemma_square_of_product(s, l + 1);
        lemma_square_of_product(b, l);
        let ll = l * l;
        let bb = b * b;
        assert(ll > 0) by (nonlinear_arith)
            requires
                ll == l * l,
                l >= 1,
        ;
        assert(ll * big < bb * ll);
        assert(big < bb) by (nonlinear_arith)
            requires
                ll * big < bb * ll,
                ll > 0,
        ;
    }
}

/// A normalised vector has length one, up to rounding.
///
/// For a vector of at most 2^61 raw counts in each component and of
/// length at least one half, the length of the normalised vector is at
/// most four raw counts below one and one above.
pub proof fn lemma_unit_vector_has_unit_length(v: Vec3)
    requires
        vec_bounded(v, 0x2000_0000_0000_0000),
        2 * v.length_spec().raw >= ONE_RAW,
    ensures
        ONE_RAW - 4 <= v.unit_vector_spec().length_spec().raw <= ONE_RAW + 1,
{
    lemma_unit_vector_length(v);
}

/// A normalised vector has length one, up to the rounding of the length
/// that it is divided by.
///
/// For a vector of at most 2^61 raw counts in each component that is
/// not zero, the length of the normalised vector is at most four raw
/// counts below one, and above one by at most one over the length of
/// the vector, in raw counts; by at most one raw count where the vector
/// is at least one half long. A vector of a few raw counts is far from
/// length one once normalised.
pub proof fn lemma_unit_vector_length(v: Vec3)
    requires
        vec_bounded(v, 0x2000_0000_0000_0000),
        v.length_spec().raw >= 1,
    ensures
        ONE_RAW - 4 <= v.unit_vector_spec().length_spec().raw <= ONE_RAW + ONE_RAW
            / v.length_spec().raw,
        2 * v.length_spec().raw >= ONE_RAW ==> v.unit_vector_spec().length_spec().raw <= ONE_RAW
            + 1,
{
    let s = ONE_RAW as int;
    let n = v.norm_squared_raw();
    let l = int_sqrt(n);
    let (m0, m1, m2) = (magnitude(v.x.raw as int), magnitude(v.y.raw as int), magnitude(v.z.raw as int));
    assert(m0 * m0 == v.x.raw * v.x.raw && m1 * m1 == v.y.raw * v.y.raw && m2 * m2 == v.z.raw
        * v.z.raw) by (nonlinear_arith)
        requires
            m0 == magnitude(v.x.raw as int),
            m1 == magnitude(v.y.raw as int),
            m2 == magnitude(v.z.raw as int),
    ;
    assert(m0 * m0 >= 0 && m1 * m1 >= 0 && m2 * m2 >= 0) by (nonlinear_arith);
    lemma_int_sqrt_exists(n);
    lemma_component_at_most_length(v);
    // The length does not saturate.
    let bound: int = 0x2000_0000_0000_0000;
    assert(0 <= l <= 2 * bound) by {
        assert(m0 * m0 <= bound * bound && m1 * m1 <= bound * bound && m2 * m2 <= bound * bound)
            by (nonlinear_arith)
            requires
                0 <= m0 <= bound,
                0 <= m1 <= bound,
                0 <= m2 <= bound,
        ;
        if l > 2 * bound {
            lemma_square_monotone(2 * bound, l);
            assert((2 * bound) * (2 * bound) == 4 * (bound * bound)) by (nonlinear_arith);
        }
    }
    assert(v.length_spec().raw == l);
    // The components of the normalised vector.
    let u = v.unit_vector_spec();
    let (a0, a1, a2) = ((m0 * s) / l, (m1 * s) / l, (m2 * s) / l);
    lemma_unit_component(m0, l, s);
    lemma_unit_component(m1, l, s);
    lemma_unit_component(m2, l, s);
    assert(magnitude(u.x.raw as int) == a0) by {
        lemma_unit_quotient(v.x.raw as int, l);
    }
    assert(magnitude(u.y.raw as int) == a1) by {
        lemma_unit_quotient(v.y.raw as int, l);
    }
    assert(magnitude(u.z.raw as int) == a2) by {
        lemma_unit_quotient(v.z.raw as int, l);
    }
    let big = u.norm_squared_raw();
    assert(big == a0 * a0 + a1 * a1 + a2 * a2) by (nonlinear_arith)
        requires
            big == u.x.raw * u.x.raw + u.y.raw * u.y.raw + u.z.raw * u.z.raw,
            magnitude(u.x.raw as int) == a0,
            magnitude(u.y.raw as int) == a1,
            magnitude(u.z.raw as int) == a2,
    ;
    assert(a0 * a0 >= 0 && a1 * a1 >= 0 && a2 * a2 >= 0) by (nonlinear_arith);
    // Squares, component by component.
    lemma_square_near(l * a0, m0 * s, l);
    lemma_square_near(l * a1, m1 * s, l);
    lemma_square_near(l * a2, m2 * s, l);
    let t = m0 + m1 + m2;
    assert((l * l) * big == (l * a0) * (l * a0) + (l * a1) * (l * a1) + (l * a2) * (l * a2)) by {
        lemma_square_of_product(l, a0);
        lemma_square_of_product(l, a1);
        lemma_square_of_product(l, a2);
        lemma_distribute_three(l * l, a0 * a0, a1 * a1, a2 * a2);
    }
    assert((s * s) * n == (m0 * s) * (m0 * s) + (m1 * s) * (m1 * s) + (m2 * s) * (m2 * s)) by {
        lemma_square_of_product(s, m0);
        lemma_square_of_product(s, m1);
        lemma_square_of_product(s, m2);
        assert(m0 * s == s * m0 && m1 * s == s * m1 && m2 * s == s * m2) by (nonlinear_arith);
        lemma_distribute_three(s * s, m0 * m0, m1 * m1, m2 * m2);
    }
    assert((s * l) * t == (m0 * s) * l + (m1 * s) * l + (m2 * s) * l) by (nonlinear_arith)
        requires
            t == m0 + m1 + m2,
    ;
    lemma_unit_length_bounds(s, l, n, big, t);
    // The length of the normalised vector does not saturate either.
    vstd::arithmetic::div_mod::lemma_div_is_ordered_by_denominator(s, 1, l);
    assert(s / 1 == s);
    assert(u.length_spec().raw == int_sqrt(big));
}

/// At a normal of length one, as normalising gives it, mirroring a
/// vector negates its component along the normal up to rounding.
///
/// For a normal in the unit cube whose length is at most four raw counts
/// below one and one above, and a vector of at most 2^58 raw counts in
/// each component, the dot products with the normal before and after
/// add up to at most nine raw counts plus sixteen raw counts for every
/// unit of the dot product before. Both sides are written out in units
/// of 2^-64.
pub proof fn lemma_reflect_at_a_unit_normal(v: Vec3, n: Vec3)
    requires
        n.in_unit_cube(),
        ONE_RAW - 4 <= n.length_spec().raw <= ONE_RAW + 1,
        vec_bounded(v, 0x400_0000_0000_0000),
    ensures
        ONE_RAW * magnitude(dot_spec(reflect_spec(v, n), n).raw + dot_spec(v, n).raw) <= 9
            * ONE_RAW + 16 * magnitude(dot_spec(v, n).raw as int),
{
    let s = ONE_RAW as int;
    let nn = n.norm_squared_raw();
    lemma_reflect_negates_normal_component(v, n);
    assert(0 <= nn <= 3 * (s * s)) by (nonlinear_arith)
        requires
            nn == n.x.raw * n.x.raw + n.y.raw * n.y.raw + n.z.raw * n.z.raw,
            -s <= n.x.raw <= s,
            -s <= n.y.raw <= s,
            -s <= n.z.raw <= s,
    ;
    lemma_int_sqrt_exists(nn);
    let l = int_sqrt(nn);
    if l > 2 * s {
        lemma_square_monotone(2 * s, l);
        assert(false);
    }
    assert(n.length_spec().raw == l);
    assert((s - 4) * (s - 4) <= l * l) by (nonlinear_arith)
        requires
            0 <= s - 4 <= l,
    ;
    assert((l + 1) * (l + 1) <= (s + 2) * (s + 2)) by (nonlinear_arith)
        requires
            0 <= l + 1 <= s + 2,
    ;
    assert(magnitude(s * s - nn) <= 8 * s) by (nonlinear_arith)
        requires
            (s - 4) * (s - 4) <= nn < (s + 2) * (s + 2),
            s >= 16,
    ;
    let sum = magnitude(dot_spec(reflect_spec(v, n), n).raw + dot_spec(v, n).raw);
    let before = magnitude(dot_spec(v, n).raw as int);
    let miss = magnitude(s * s - nn);
    assert(s * sum <= 9 * s + 16 * before) by (nonlinear_arith)
        requires
            s * s * sum <= 9 * s * s + 2 * before * miss,
            0 <= miss <= 8 * s,
            0 <= before,
            s > 0,
    ;
}

/// Within the unit cube the squared length, each square rounded down,
/// does not exceed the exact one.
pub proof fn lemma_length_squared_at_most_norm(v: Vec3)
    requires
        v.in_unit_cube(),
    ensures
        0 <= ONE_RAW * v.length_squared_spec().raw <= v.norm_squared_raw(),
{
    lemma_times_unit(v.x, v.x);
    lemma_times_unit(v.y, v.y);
    lemma_times_unit(v.z, v.z);
    lemma_trunc_div_by_one(v.x.raw * v.x.raw);
    lemma_trunc_div_by_one(v.y.raw * v.y.raw);
    lemma_trunc_div_by_one(v.z.raw * v.z.raw);
    assert(v.x.raw * v.x.raw >= 0 && v.y.raw * v.y.raw >= 0 && v.z.raw * v.z.raw >= 0)
        by (nonlinear_arith);
}

/// A vector of the unit cube whose squared length is at least a quarter
/// is at least one half long.
pub proof fn lemma_length_at_least_half(v: Vec3)
    requires
        v.in_unit_cube(),
        4 * v.length_squared_spec().raw >= ONE_RAW,
    ensures
        2 * v.length_spec().raw >= ONE_RAW,
        vec_bounded(v, 0x2000_0000_0000_0000),
{
    let n = v.norm_squared_raw();
    let half: int = 0x8000_0000;
    lemma_length_squared_at_most_norm(v);
    lemma_int_sqrt_exists(n);
    let l = int_sqrt(n);
    assert(n >= half * half);
    if l < half {
        if l + 1 < half {
            lemma_square_monotone(l + 1, half);
        }
        assert(false);
    }
    assert(n <= 3 * (ONE_RAW * ONE_RAW)) by (nonlinear_arith)
        requires
            n == v.x.raw * v.x.raw + v.y.raw * v.y.raw + v.z.raw * v.z.raw,
            -ONE_RAW <= v.x.raw <= ONE_RAW,
            -ONE_RAW <= v.y.raw <= ONE_RAW,
            -ONE_RAW <= v.z.raw <= ONE_RAW,
    ;
    if l > 2 * ONE_RAW {
        lemma_square_monotone(2 * ONE_RAW, l);
        assert(false);
    }
}

/// The square of a product is the product of the squares.
proof fn lemma_square_of_product(x: int, y: int)
    ensures
        (x * y) * (x * y) == (x * x) * (y * y),
{
    assert((x * y) * (x * y) == (x * x) * (y * y)) by (nonlinear_arith);
}

/// A product distributes over a sum of three.
proof fn lemma_distribute_three(k: int, a: int, b: int, c: int)
    ensures
        k * (a + b + c) == k * a + k * b + k * c,
{
    assert(k * (a + b + c) == k * a + k * b + k * c) by (nonlinear_arith);
}

/// The magnitude of a saturated quotient `x / l` whose dividend is no
/// larger than its divisor.
proof fn lemma_unit_quotient(x: int, l: int)
    requires
        0 < l <= i64::MAX,
        magnitude(x) <= l,
    ensures
        magnitude(ratio_raw(x, l)) == (magnitude(x) * ONE_RAW) / l,
        -ONE_RAW <= ratio_raw(x, l) <= ONE_RAW,
{
    let s = ONE_RAW as int;
    lemma_unit_component(magnitude(x), l, s);
    assert(magnitude(x * s) == magnitude(x) * s) by (nonlinear_arith)
        requires
            s > 0,
    ;
}

} // verus!
