//! Saturating fixed-point scalars with 32 fractional bits.
//!
//! A [`Fixed`] with raw count `r` stands for the number `r / 2^32`. Sums
//! and differences are exact until they leave the 64-bit range, where they
//! stop at the nearest bound. Products and quotients are rounded toward
//! zero, so that negating an operand negates the result.
use vstd::prelude::*;
use std::ops::{Add, Div, Mul, Neg, Sub};
use vstd::arithmetic::div_mod::{
    lemma_basic_div, lemma_div_by_multiple, lemma_div_denominator, lemma_div_is_ordered,
    lemma_div_pos_is_pos, lemma_fundamental_div_mod, lemma_mod_pos_bound,
};
use vstd::arithmetic::power2::{
    lemma2_to64, lemma_pow2_pos, lemma_pow2_strictly_increases, lemma_pow2_unfold, pow2,
};

verus! {

/// Raw count of the number one: 2^32.
pub const ONE_RAW: i64 = 4294967296;

/// The number `r / 2^32`, held as its raw count `r`. Numbers are ordered
/// as their raw counts are.
#[derive(Clone, Copy, Debug, PartialEq, Eq, Structural, PartialOrd, Ord, Hash)]
pub struct Fixed {
    pub raw: i64,
}

/// The nearest value to `x` that a raw count can hold.
pub open spec fn saturate(x: int) -> int {
    if x < i64::MIN {
        i64::MIN as int
    } else if x > i64::MAX {
        i64::MAX as int
    } else {
        x
    }
}

/// Distance of `x` from zero.
pub open spec fn magnitude(x: int) -> int {
    if x < 0 {
        -x
    } else {
        x
    }
}

/// Quotient of `n` by `d` rounded toward zero, for `d != 0`.
pub open spec fn trunc_div(n: int, d: int) -> int {
    let q = magnitude(n) / magnitude(d);
    if (n < 0) != (d < 0) {
        -q
    } else {
        q
    }
}

/// The raw count of `n / d`: the scaled quotient rounded toward zero and
/// saturated. A zero denominator gives the bound on the side of `n`, and
/// zero for `0 / 0`.
pub open spec fn ratio_raw(n: int, d: int) -> int {
    if d == 0 {
        if n > 0 {
            i64::MAX as int
        } else if n < 0 {
            i64::MIN as int
        } else {
            0
        }
    } else {
        saturate(trunc_div(n * ONE_RAW, d))
    }
}

/// Whether `r` is the integer square root of `n`: the largest integer whose
/// square does not exceed `n`.
pub open spec fn is_int_sqrt(n: int, r: int) -> bool {
    r >= 0 && r * r <= n < (r + 1) * (r + 1)
}

/// The integer square root of `n`, and zero for negative `n`.
pub open spec fn int_sqrt(n: int) -> int {
    if n < 0 {
        0
    } else {
        choose|r: int| is_int_sqrt(n, r)
    }
}

/// Squaring is strictly monotone on the non-negative integers.
pub proof fn lemma_square_monotone(a: int, b: int)
    requires
        0 <= a < b,
    ensures
        a * a < b * b,
{
    assert(a * a < b * b) by (nonlinear_arith)
        requires
            0 <= a < b,
    ;
}

/// An integer has at most one integer square root.
pub proof fn lemma_int_sqrt_unique(n: int, r: int)
    requires
        is_int_sqrt(n, r),
    ensures
        int_sqrt(n) == r,
{
    assert(r * r >= 0) by (nonlinear_arith);
    let s = int_sqrt(n);
    assert(is_int_sqrt(n, s));
    if s < r {
        lemma_square_monotone(s, r);
        if s + 1 < r {
            lemma_square_monotone(s + 1, r);
        }
    } else if r < s {
        lemma_square_monotone(r, s);
        if r + 1 < s {
            lemma_square_monotone(r + 1, s);
        }
    }
}

/// Every non-negative integer has an integer square root.
pub proof fn lemma_int_sqrt_exists(n: int)
    requires
        n >= 0,
    ensures
        is_int_sqrt(n, int_sqrt(n)),
    decreases n,
{
    if n == 0 {
        assert(is_int_sqrt(0, 0));
    } else {
        lemma_int_sqrt_exists(n - 1);
        let r = int_sqrt(n - 1);
        if (r + 1) * (r + 1) <= n {
            assert((r + 1) * (r + 1) < (r + 2) * (r + 2)) by (nonlinear_arith)
                requires
                    r >= 0,
            ;
            assert(is_int_sqrt(n, r + 1));
        } else {
            assert(is_int_sqrt(n, r));
        }
    }
}

/// A quotient whose dividend does not exceed its divisor in magnitude is
/// at most one in magnitude. The dividend may exceed the greatest raw
/// count by one, where the divisor has saturated.
pub proof fn lemma_ratio_at_most_one(x: int, l: int)
    requires
        0 <= l <= i64::MAX,
        magnitude(x) <= l || (l == i64::MAX && magnitude(x) == l + 1),
    ensures
        -ONE_RAW <= ratio_raw(x, l) <= ONE_RAW,
{
    if l != 0 {
        let m = magnitude(x);
        assert(magnitude(x * ONE_RAW) == m * ONE_RAW) by (nonlinear_arith)
            requires
                m == magnitude(x),
        ;
        if m <= l {
            assert(m * ONE_RAW <= l * ONE_RAW) by (nonlinear_arith)
                requires
                    m <= l,
            ;
            lemma_div_is_ordered(m * ONE_RAW, l * ONE_RAW, l);
            lemma_div_by_multiple(ONE_RAW as int, l);
            assert(ONE_RAW * l == l * ONE_RAW) by (nonlinear_arith);
            assert(m * ONE_RAW >= 0) by (nonlinear_arith)
                requires
                    m >= 0,
            ;
            lemma_div_pos_is_pos(m * ONE_RAW, l);
        } else {
            assert(m * ONE_RAW == 39614081257132168796771975168);
            assert(39614081257132168796771975168int / 9223372036854775807 == 4294967296);
        }
    }
}

/// The integer square root of a 128-bit number, by bisection.
pub fn isqrt(n: u128) -> (r: u64)
    ensures
        is_int_sqrt(n as int, r as int),
        r as int == int_sqrt(n as int),
{
    let mut lo: u128 = 0;
    let mut hi: u128 = 18446744073709551616;
    assert(hi * hi > n) by (nonlinear_arith)
        requires
            hi == 18446744073709551616,
            n <= u128::MAX,
    ;
    while hi - lo > 1
        invariant
            lo < hi <= 18446744073709551616,
            lo * lo <= n < hi * hi,
        decreases hi - lo,
    {
        let mid: u128 = lo + (hi - lo) / 2;
        assert(mid * mid <= u128::MAX) by (nonlinear_arith)
            requires
                0 <= mid < 18446744073709551616,
        ;
        if mid * mid <= n {
            lo = mid;
        } else {
            hi = mid;
        }
    }
    proof {
        lemma_int_sqrt_unique(n as int, lo as int);
    }
    lo as u64
}

/// The distance of a raw count from zero, which fits 128 bits.
pub(crate) fn magnitude_of(x: i64) -> (m: u128)
    ensures
        m == magnitude(x as int),
        m <= 9223372036854775808,
{
    if x < 0 {
        (-(x as i128)) as u128
    } else {
        x as u128
    }
}

/// The raw count nearest to the number with the given sign and magnitude.
pub(crate) fn from_sign_magnitude(negative: bool, m: u128) -> (r: i64)
    ensures
        r == saturate(
            if negative {
                -(m as int)
            } else {
                m as int
            },
        ),
{
    if negative {
        if m >= 9223372036854775808 {
            i64::MIN
        } else {
            -(m as i64)
        }
    } else {
        if m > 9223372036854775807 {
            i64::MAX
        } else {
            m as i64
        }
    }
}

/// The raw count nearest to a 128-bit integer.
fn saturate_wide(x: i128) -> (r: i64)
    ensures
        r == saturate(x as int),
{
    if x < -9223372036854775808 {
        i64::MIN
    } else if x > 9223372036854775807 {
        i64::MAX
    } else {
        x as i64
    }
}

/// The raw count of the quotient of two 64-bit integers.
fn ratio(n: i64, d: i64) -> (r: i64)
    ensures
        r == ratio_raw(n as int, d as int),
{
    if d == 0 {
        if n > 0 {
            i64::MAX
        } else if n < 0 {
            i64::MIN
        } else {
            0
        }
    } else {
        let mn: u128 = magnitude_of(n);
        let md: u128 = magnitude_of(d);
        let scaled: u128 = mn * 4294967296;
        let q: u128 = scaled / md;
        proof {
            let ni = n as int;
            assert(magnitude(ni * ONE_RAW) == magnitude(ni) * ONE_RAW) by (nonlinear_arith);
            assert((ni * ONE_RAW < 0) == (ni < 0)) by (nonlinear_arith);
        }
        from_sign_magnitude((n < 0) != (d < 0), q)
    }
}

impl Fixed {
    /// The fixed-point number nearest to the integer `x` counted in raw units.
    pub open spec fn of_raw(x: int) -> Fixed {
        Fixed { raw: saturate(x) as i64 }
    }

    /// The integer `n`, saturated.
    pub open spec fn int_spec(n: int) -> Fixed {
        Fixed::of_raw(n * ONE_RAW)
    }

    /// The quotient `n / d` of two integers.
    pub open spec fn ratio_spec(n: int, d: int) -> Fixed {
        Fixed { raw: ratio_raw(n, d) as i64 }
    }

    /// The negated number; the least raw count negates to the greatest.
    pub open spec fn negated(self) -> Fixed {
        Fixed::of_raw(-self.raw)
    }

    /// The saturated sum.
    pub open spec fn plus(self, rhs: Fixed) -> Fixed {
        Fixed::of_raw(self.raw + rhs.raw)
    }

    /// The saturated difference.
    pub open spec fn minus(self, rhs: Fixed) -> Fixed {
        Fixed::of_raw(self.raw - rhs.raw)
    }

    /// The product, rounded toward zero and saturated.
    pub open spec fn times(self, rhs: Fixed) -> Fixed {
        Fixed::of_raw(trunc_div(self.raw * rhs.raw, ONE_RAW as int))
    }

    /// The quotient, rounded toward zero and saturated. Division by zero
    /// gives the bound on the side of the dividend, and zero for `0 / 0`.
    pub open spec fn over(self, rhs: Fixed) -> Fixed {
        Fixed::ratio_spec(self.raw as int, rhs.raw as int)
    }

    /// The square root, rounded down to a raw count; zero for a negative number.
    pub open spec fn sqrt_spec(self) -> Fixed {
        Fixed { raw: int_sqrt(self.raw * ONE_RAW) as i64 }
    }

    /// The number divided by `2^n`, rounded toward zero.
    pub open spec fn halved_spec(self, n: nat) -> Fixed {
        Fixed { raw: trunc_div(self.raw as int, pow2(n) as int) as i64 }
    }

    /// The largest integer that does not exceed the number.
    pub open spec fn floor_spec(self) -> int {
        self.raw as int / ONE_RAW as int
    }

    /// The number zero.
    pub fn zero() -> (r: Fixed)
        ensures
            r.raw == 0,
    {
        Fixed { raw: 0 }
    }

    /// The number one.
    pub fn one() -> (r: Fixed)
        ensures
            r.raw == ONE_RAW,
    {
        Fixed { raw: ONE_RAW }
    }

    /// The number with the given raw count.
    pub fn from_raw(raw: i64) -> (r: Fixed)
        ensures
            r.raw == raw,
    {
        Fixed { raw }
    }

    /// The integer `n`, which every 32-bit integer is exactly.
    pub fn from_int(n: i32) -> (r: Fixed)
        ensures
            r == Fixed::int_spec(n as int),
            r.raw == n * ONE_RAW,
    {
        Fixed { raw: (n as i64) * ONE_RAW }
    }

    /// The count `n`, saturated: counts from 2^31 on are the greatest number.
    pub fn from_count(n: u32) -> (r: Fixed)
        ensures
            r == Fixed::int_spec(n as int),
    {
        if n >= 2147483648 {
            Fixed { raw: i64::MAX }
        } else {
            Fixed { raw: (n as i64) * ONE_RAW }
        }
    }

    /// The quotient `n / d`, rounded toward zero to a raw count.
    pub fn from_ratio(n: i64, d: i64) -> (r: Fixed)
        ensures
            r == Fixed::ratio_spec(n as int, d as int),
    {
        Fixed { raw: ratio(n, d) }
    }

    /// The square root, rounded down; zero for a negative number.
    pub fn sqrt(self) -> (r: Fixed)
        ensures
            r == self.sqrt_spec(),
            self.raw >= 0 ==> is_int_sqrt(self.raw * ONE_RAW, r.raw as int),
            self.raw < 0 ==> r.raw == 0,
    {
        if self.raw < 0 {
            proof {
                assert(self.raw * ONE_RAW < 0) by (nonlinear_arith)
                    requires
                        self.raw < 0,
                ;
            }
            Fixed { raw: 0 }
        } else {
            let scaled: u128 = (self.raw as u128) * 4294967296;
            let root: u64 = isqrt(scaled);
            proof {
                let r = root as int;
                if r >= 281474976710656 {
                    lemma_square_monotone(281474976710655, r);
                    assert(false);
                }
            }
            Fixed { raw: root as i64 }
        }
    }

    /// The number divided by `2^n`, rounded toward zero.
    pub fn halved(self, n: usize) -> (r: Fixed)
        ensures
            r == self.halved_spec(n as nat),
    {
        let negative: bool = self.raw < 0;
        let mut m: u128 = magnitude_of(self.raw);
        let mut i: usize = 0;
        proof {
            lemma2_to64();
        }
        while i < n && m != 0
            invariant
                i <= n,
                m == magnitude(self.raw as int) / pow2(i as nat) as int,
                m <= 9223372036854775808,
            decreases n - i,
        {
            proof {
                lemma_pow2_pos(i as nat);
                lemma_pow2_unfold((i + 1) as nat);
                lemma_div_denominator(magnitude(self.raw as int), pow2(i as nat) as int, 2);
                assert(pow2(i as nat) * 2 == pow2((i + 1) as nat));
            }
            m = m / 2;
            i = i + 1;
        }
        proof {
            lemma_pow2_pos(i as nat);
            lemma_pow2_pos(n as nat);
            if i < n {
                let mag = magnitude(self.raw as int);
                let pi = pow2(i as nat) as int;
                lemma_fundamental_div_mod(mag, pi);
                lemma_mod_pos_bound(mag, pi);
                assert(pi * (mag / pi) == 0);
                assert(mag < pi);
                lemma_pow2_strictly_increases(i as nat, n as nat);
                lemma_basic_div(mag, pow2(n as nat) as int);
            }
        }
        Fixed { raw: from_sign_magnitude(negative, m) }
    }

    /// The largest integer that does not exceed the number.
    pub fn floor(self) -> (r: i64)
        ensures
            r == self.floor_spec(),
    {
        if self.raw >= 0 {
            self.raw / ONE_RAW
        } else {
            let m: u128 = magnitude_of(self.raw);
            let up: u128 = (m + 4294967295) / 4294967296;
            -(up as i64)
        }
    }
}

impl Neg for Fixed {
    type Output = Fixed;

    /// The negated number; the least raw count negates to the greatest.
    fn neg(self) -> (r: Fixed) {
        Fixed { raw: from_sign_magnitude(self.raw >= 0, magnitude_of(self.raw)) }
    }
}

impl vstd::std_specs::ops::NegSpecImpl for Fixed {
    open spec fn obeys_neg_spec() -> bool {
        true
    }

    open spec fn neg_req(self) -> bool {
        true
    }

    open spec fn neg_spec(self) -> Fixed {
        self.negated()
    }
}

impl Add for Fixed {
    type Output = Fixed;

    /// The saturated sum.
    fn add(self, rhs: Fixed) -> (r: Fixed) {
        let wide: i128 = self.raw as i128 + rhs.raw as i128;
        Fixed { raw: saturate_wide(wide) }
    }
}

impl vstd::std_specs::ops::AddSpecImpl for Fixed {
    open spec fn obeys_add_spec() -> bool {
        true
    }

    open spec fn add_req(self, rhs: Fixed) -> bool {
        true
    }

    open spec fn add_spec(self, rhs: Fixed) -> Fixed {
        self.plus(rhs)
    }
}

impl Sub for Fixed {
    type Output = Fixed;

    /// The saturated difference.
    fn sub(self, rhs: Fixed) -> (r: Fixed) {
        let wide: i128 = self.raw as i128 - rhs.raw as i128;
        Fixed { raw: saturate_wide(wide) }
    }
}

impl vstd::std_specs::ops::SubSpecImpl for Fixed {
    open spec fn obeys_sub_spec() -> bool {
        true
    }

    open spec fn sub_req(self, rhs: Fixed) -> bool {
        true
    }

    open spec fn sub_spec(self, rhs: Fixed) -> Fixed {
        self.minus(rhs)
    }
}

impl Mul for Fixed {
    type Output = Fixed;

    /// The product, rounded toward zero and saturated.
    fn mul(self, rhs: Fixed) -> (r: Fixed) {
        let ma: u128 = magnitude_of(self.raw);
        let mb: u128 = magnitude_of(rhs.raw);
        proof {
            let a = self.raw as int;
            let b = rhs.raw as int;
            assert(magnitude(a * b) == magnitude(a) * magnitude(b)) by (nonlinear_arith);
            assert((a * b < 0) ==> ((a < 0) != (b < 0))) by (nonlinear_arith);
            assert((a * b > 0) ==> ((a < 0) == (b < 0))) by (nonlinear_arith);
            assert(ma * mb <= 9223372036854775808 * 9223372036854775808) by (nonlinear_arith)
                requires
                    ma <= 9223372036854775808,
                    mb <= 9223372036854775808,
            ;
        }
        let q: u128 = (ma * mb) / 4294967296;
        Fixed { raw: from_sign_magnitude((self.raw < 0) != (rhs.raw < 0), q) }
    }
}

impl vstd::std_specs::ops::MulSpecImpl for Fixed {
    open spec fn obeys_mul_spec() -> bool {
        true
    }

    open spec fn mul_req(self, rhs: Fixed) -> bool {
        true
    }

    open spec fn mul_spec(self, rhs: Fixed) -> Fixed {
        self.times(rhs)
    }
}

impl Div for Fixed {
    type Output = Fixed;

    /// The quotient, rounded toward zero and saturated. Division by zero
    /// gives the bound on the side of the dividend, and zero for `0 / 0`.
    fn div(self, rhs: Fixed) -> (r: Fixed) {
        Fixed { raw: ratio(self.raw, rhs.raw) }
    }
}

impl vstd::std_specs::ops::DivSpecImpl for Fixed {
    open spec fn obeys_div_spec() -> bool {
        true
    }

    open spec fn div_req(self, rhs: Fixed) -> bool {
        true
    }

    open spec fn div_spec(self, rhs: Fixed) -> Fixed {
        self.over(rhs)
    }
}

} // verus!
