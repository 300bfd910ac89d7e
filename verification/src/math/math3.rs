//! Three-component vectors over [`Fixed`] scalars.
use vstd::prelude::*;
use std::ops::{Add, Div, Mul, Neg, Sub};
use rand::rngs::StdRng;
use crate::math::fixed::{
    from_sign_magnitude, int_sqrt, isqrt, lemma_int_sqrt_exists, lemma_int_sqrt_unique,
    lemma_ratio_at_most_one, lemma_square_monotone, magnitude, magnitude_of, Fixed, ONE_RAW,
};
use crate::math::vector_laws::{lemma_length_at_least_half, lemma_unit_vector_has_unit_length};
use crate::math::rng::uniform_raw;

verus! {

/// How often a sampler draws before it settles for its fallback.
pub const SAMPLE_TRIES: u32 = 64;

/// A vector, a point or a colour: three fixed-point components.
#[derive(Clone, Copy, Debug, PartialEq, Eq, Structural)]
pub struct Vec3 {
    pub x: Fixed,
    pub y: Fixed,
    pub z: Fixed,
}

/// The dot product: the three component products, summed left to right.
pub open spec fn dot_spec(v1: Vec3, v2: Vec3) -> Fixed {
    v1.x.times(v2.x).plus(v1.y.times(v2.y)).plus(v1.z.times(v2.z))
}

/// The cross product.
pub open spec fn cross_spec(v1: Vec3, v2: Vec3) -> Vec3 {
    Vec3 {
        x: v1.y.times(v2.z).minus(v1.z.times(v2.y)),
        y: v1.z.times(v2.x).minus(v1.x.times(v2.z)),
        z: v1.x.times(v2.y).minus(v1.y.times(v2.x)),
    }
}

/// The mirror image of `vec` at the plane with the given normal:
/// `vec - 2 (vec . normal) normal`.
pub open spec fn reflect_spec(vec: Vec3, normal: Vec3) -> Vec3 {
    vec.minus(normal.scaled(Fixed::int_spec(2).times(dot_spec(vec, normal))))
}

impl Vec3 {
    /// The vector of all zeros.
    pub open spec fn zero_spec() -> Vec3 {
        Vec3 { x: Fixed { raw: 0 }, y: Fixed { raw: 0 }, z: Fixed { raw: 0 } }
    }

    /// The vector of all ones.
    pub open spec fn one_spec() -> Vec3 {
        Vec3 { x: Fixed { raw: ONE_RAW }, y: Fixed { raw: ONE_RAW }, z: Fixed { raw: ONE_RAW } }
    }

    /// Each component negated.
    pub open spec fn negated(self) -> Vec3 {
        Vec3 { x: self.x.negated(), y: self.y.negated(), z: self.z.negated() }
    }

    /// The sum, component by component.
    pub open spec fn plus(self, other: Vec3) -> Vec3 {
        Vec3 { x: self.x.plus(other.x), y: self.y.plus(other.y), z: self.z.plus(other.z) }
    }

    /// The difference, component by component.
    pub open spec fn minus(self, other: Vec3) -> Vec3 {
        Vec3 { x: self.x.minus(other.x), y: self.y.minus(other.y), z: self.z.minus(other.z) }
    }

    /// The product, component by component.
    pub open spec fn times(self, other: Vec3) -> Vec3 {
        Vec3 { x: self.x.times(other.x), y: self.y.times(other.y), z: self.z.times(other.z) }
    }

    /// Each component multiplied by `k`.
    pub open spec fn scaled(self, k: Fixed) -> Vec3 {
        Vec3 { x: self.x.times(k), y: self.y.times(k), z: self.z.times(k) }
    }

    /// Each component divided by `k`.
    pub open spec fn over(self, k: Fixed) -> Vec3 {
        Vec3 { x: self.x.over(k), y: self.y.over(k), z: self.z.over(k) }
    }

    /// The sum of the squares of the raw counts: the square of the length,
    /// counted in units of 2^-64 and therefore exact.
    pub open spec fn norm_squared_raw(self) -> int {
        self.x.raw * self.x.raw + self.y.raw * self.y.raw + self.z.raw * self.z.raw
    }

    /// The Euclidean length, rounded down to a raw count and saturated.
    pub open spec fn length_spec(self) -> Fixed {
        Fixed::of_raw(int_sqrt(self.norm_squared_raw()))
    }

    /// The dot product of the vector with itself.
    pub open spec fn length_squared_spec(self) -> Fixed {
        dot_spec(self, self)
    }

    /// The square root of each component.
    pub open spec fn sqrt_spec(self) -> Vec3 {
        Vec3 { x: self.x.sqrt_spec(), y: self.y.sqrt_spec(), z: self.z.sqrt_spec() }
    }

    /// The vector divided by its length.
    pub open spec fn unit_vector_spec(self) -> Vec3 {
        self.over(self.length_spec())
    }

    /// Whether every component lies in `[low, high)`.
    pub open spec fn within(self, low: Fixed, high: Fixed) -> bool {
        &&& low.raw <= self.x.raw < high.raw
        &&& low.raw <= self.y.raw < high.raw
        &&& low.raw <= self.z.raw < high.raw
    }

    /// Whether no component exceeds one in magnitude.
    pub open spec fn in_unit_cube(self) -> bool {
        &&& -ONE_RAW <= self.x.raw <= ONE_RAW
        &&& -ONE_RAW <= self.y.raw <= ONE_RAW
        &&& -ONE_RAW <= self.z.raw <= ONE_RAW
    }

    pub fn new(e0: Fixed, e1: Fixed, e2: Fixed) -> (v: Vec3)
        ensures
            v == (Vec3 { x: e0, y: e1, z: e2 }),
    {
        Vec3 { x: e0, y: e1, z: e2 }
    }

    pub fn zero() -> (v: Vec3)
        ensures
            v == Vec3::zero_spec(),
    {
        Vec3::new(Fixed::zero(), Fixed::zero(), Fixed::zero())
    }

    pub fn one() -> (v: Vec3)
        ensures
            v == Vec3::one_spec(),
    {
        Vec3::new(Fixed::one(), Fixed::one(), Fixed::one())
    }

    pub fn x_axis() -> (v: Vec3)
        ensures
            v == (Vec3 { x: Fixed { raw: ONE_RAW }, y: Fixed { raw: 0 }, z: Fixed { raw: 0 } }),
    {
        Vec3::new(Fixed::one(), Fixed::zero(), Fixed::zero())
    }

    pub fn y_axis() -> (v: Vec3)
        ensures
            v == (Vec3 { x: Fixed { raw: 0 }, y: Fixed { raw: ONE_RAW }, z: Fixed { raw: 0 } }),
    {
        Vec3::new(Fixed::zero(), Fixed::one(), Fixed::zero())
    }

    pub fn z_axis() -> (v: Vec3)
        ensures
            v == (Vec3 { x: Fixed { raw: 0 }, y: Fixed { raw: 0 }, z: Fixed { raw: ONE_RAW } }),
    {
        Vec3::new(Fixed::zero(), Fixed::zero(), Fixed::one())
    }

    pub fn x(&self) -> (r: Fixed)
        ensures
            r == self.x,
    {
        self.x
    }

    pub fn y(&self) -> (r: Fixed)
        ensures
            r == self.y,
    {
        self.y
    }

    pub fn z(&self) -> (r: Fixed)
        ensures
            r == self.z,
    {
        self.z
    }

    /// The Euclidean length. It is taken from the exact sum of the squared
    /// raw counts, so only the final root is rounded.
    pub fn length(&self) -> (r: Fixed)
        ensures
            r == self.length_spec(),
    {
        let mx: u128 = magnitude_of(self.x.raw);
        let my: u128 = magnitude_of(self.y.raw);
        let mz: u128 = magnitude_of(self.z.raw);
        proof {
            let bound: int = 9223372036854775808;
            assert(mx * mx <= bound * bound) by (nonlinear_arith)
                requires
                    0 <= mx <= bound,
            ;
            assert(my * my <= bound * bound) by (nonlinear_arith)
                requires
                    0 <= my <= bound,
            ;
            assert(mz * mz <= bound * bound) by (nonlinear_arith)
                requires
                    0 <= mz <= bound,
            ;
            assert(mx * mx == self.x.raw * self.x.raw) by (nonlinear_arith)
                requires
                    mx == self.x.raw || mx == -self.x.raw,
            ;
            assert(my * my == self.y.raw * self.y.raw) by (nonlinear_arith)
                requires
                    my == self.y.raw || my == -self.y.raw,
            ;
            assert(mz * mz == self.z.raw * self.z.raw) by (nonlinear_arith)
                requires
                    mz == self.z.raw || mz == -self.z.raw,
            ;
        }
        let sum: u128 = mx * mx + my * my + mz * mz;
        let root: u64 = isqrt(sum);
        Fixed { raw: from_sign_magnitude(false, root as u128) }
    }

    pub fn length_squared(&self) -> (r: Fixed)
        ensures
            r == self.length_squared_spec(),
    {
        dot(*self, *self)
    }

    /// The square root of each component, as gamma correction takes it.
    pub fn sqrt(&self) -> (v: Vec3)
        ensures
            v == self.sqrt_spec(),
    {
        Vec3::new(self.x.sqrt(), self.y.sqrt(), self.z.sqrt())
    }

    /// The vector divided by its length. The zero vector, which has no
    /// direction, stays the zero vector.
    pub fn unit_vector(&self) -> (v: Vec3)
        ensures
            v == self.unit_vector_spec(),
    {
        *self / self.length()
    }

    /// A vector whose components are drawn from `[0, 1)`.
    pub fn random(rng_source: &mut StdRng) -> (v: Vec3)
        ensures
            v.within(Fixed { raw: 0 }, Fixed { raw: ONE_RAW }),
    {
        let x: i64 = uniform_raw(rng_source, 0, ONE_RAW);
        let y: i64 = uniform_raw(rng_source, 0, ONE_RAW);
        let z: i64 = uniform_raw(rng_source, 0, ONE_RAW);
        Vec3::new(Fixed::from_raw(x), Fixed::from_raw(y), Fixed::from_raw(z))
    }

    /// A vector whose components are drawn from `[min, max)`.
    pub fn random_range(rng_source: &mut StdRng, min: Fixed, max: Fixed) -> (v: Vec3)
        requires
            min.raw < max.raw,
        ensures
            v.within(min, max),
    {
        let x: i64 = uniform_raw(rng_source, min.raw, max.raw);
        let y: i64 = uniform_raw(rng_source, min.raw, max.raw);
        let z: i64 = uniform_raw(rng_source, min.raw, max.raw);
        Vec3::new(Fixed::from_raw(x), Fixed::from_raw(y), Fixed::from_raw(z))
    }
}

impl Neg for Vec3 {
    type Output = Vec3;

    fn neg(self) -> (r: Vec3) {
        Vec3 { x: self.x.neg(), y: self.y.neg(), z: self.z.neg() }
    }
}

impl vstd::std_specs::ops::NegSpecImpl for Vec3 {
    open spec fn obeys_neg_spec() -> bool {
        true
    }

    open spec fn neg_req(self) -> bool {
        true
    }

    open spec fn neg_spec(self) -> Vec3 {
        self.negated()
    }
}

impl Add for Vec3 {
    type Output = Vec3;

    fn add(self, other: Vec3) -> (r: Vec3) {
        Vec3 { x: self.x + other.x, y: self.y + other.y, z: self.z + other.z }
    }
}

impl vstd::std_specs::ops::AddSpecImpl for Vec3 {
    open spec fn obeys_add_spec() -> bool {
        true
    }

    open spec fn add_req(self, other: Vec3) -> bool {
        true
    }

    open spec fn add_spec(self, other: Vec3) -> Vec3 {
        self.plus(other)
    }
}

impl Sub for Vec3 {
    type Output = Vec3;

    fn sub(self, other: Vec3) -> (r: Vec3) {
        Vec3 { x: self.x - other.x, y: self.y - other.y, z: self.z - other.z }
    }
}

impl vstd::std_specs::ops::SubSpecImpl for Vec3 {
    open spec fn obeys_sub_spec() -> bool {
        true
    }

    open spec fn sub_req(self, other: Vec3) -> bool {
        true
    }

    open spec fn sub_spec(self, other: Vec3) -> Vec3 {
        self.minus(other)
    }
}

/// Component by component, as colours are attenuated.
impl Mul for Vec3 {
    type Output = Vec3;

    fn mul(self, other: Vec3) -> (r: Vec3) {
        Vec3 { x: self.x * other.x, y: self.y * other.y, z: self.z * other.z }
    }
}

impl vstd::std_specs::ops::MulSpecImpl for Vec3 {
    open spec fn obeys_mul_spec() -> bool {
        true
    }

    open spec fn mul_req(self, other: Vec3) -> bool {
        true
    }

    open spec fn mul_spec(self, other: Vec3) -> Vec3 {
        self.times(other)
    }
}

impl Mul<Fixed> for Vec3 {
    type Output = Vec3;

    fn mul(self, other: Fixed) -> (r: Vec3) {
        Vec3 { x: self.x * other, y: self.y * other, z: self.z * other }
    }
}

impl vstd::std_specs::ops::MulSpecImpl<Fixed> for Vec3 {
    open spec fn obeys_mul_spec() -> bool {
        true
    }

    open spec fn mul_req(self, other: Fixed) -> bool {
        true
    }

    open spec fn mul_spec(self, other: Fixed) -> Vec3 {
        self.scaled(other)
    }
}

impl Mul<Vec3> for Fixed {
    type Output = Vec3;

    fn mul(self, other: Vec3) -> (r: Vec3) {
        other * self
    }
}

impl vstd::std_specs::ops::MulSpecImpl<Vec3> for Fixed {
    open spec fn obeys_mul_spec() -> bool {
        true
    }

    open spec fn mul_req(self, other: Vec3) -> bool {
        true
    }

    open spec fn mul_spec(self, other: Vec3) -> Vec3 {
        other.scaled(self)
    }
}

/// Each component divided by the scalar.
impl Div<Fixed> for Vec3 {
    type Output = Vec3;

    fn div(self, other: Fixed) -> (r: Vec3) {
        Vec3 { x: self.x / other, y: self.y / other, z: self.z / other }
    }
}

impl vstd::std_specs::ops::DivSpecImpl<Fixed> for Vec3 {
    open spec fn obeys_div_spec() -> bool {
        true
    }

    open spec fn div_req(self, other: Fixed) -> bool {
        true
    }

    open spec fn div_spec(self, other: Fixed) -> Vec3 {
        self.over(other)
    }
}

pub fn dot(v1: Vec3, v2: Vec3) -> (r: Fixed)
    ensures
        r == dot_spec(v1, v2),
{
    v1.x * v2.x + v1.y * v2.y + v1.z * v2.z
}

pub fn cross(v1: Vec3, v2: Vec3) -> (r: Vec3)
    ensures
        r == cross_spec(v1, v2),
{
    Vec3::new(
        v1.y * v2.z - v1.z * v2.y,
        v1.z * v2.x - v1.x * v2.z,
        v1.x * v2.y - v1.y * v2.x,
    )
}

pub fn reflect(vec: Vec3, normal: Vec3) -> (r: Vec3)
    ensures
        r == reflect_spec(vec, normal),
{
    vec - Fixed::from_int(2) * dot(vec, normal) * normal
}

/// No component of a vector exceeds the vector's length.
pub proof fn lemma_component_at_most_length(v: Vec3)
    ensures
        magnitude(v.x.raw as int) <= int_sqrt(v.norm_squared_raw()),
        magnitude(v.y.raw as int) <= int_sqrt(v.norm_squared_raw()),
        magnitude(v.z.raw as int) <= int_sqrt(v.norm_squared_raw()),
{
    let x = v.x.raw as int;
    let y = v.y.raw as int;
    let z = v.z.raw as int;
    let n = v.norm_squared_raw();
    assert(x * x >= 0 && y * y >= 0 && z * z >= 0) by (nonlinear_arith);
    lemma_int_sqrt_exists(n);
    let r = int_sqrt(n);
    assert(magnitude(x) * magnitude(x) == x * x) by (nonlinear_arith);
    assert(magnitude(y) * magnitude(y) == y * y) by (nonlinear_arith);
    assert(magnitude(z) * magnitude(z) == z * z) by (nonlinear_arith);
    if magnitude(x) > r + 1 {
        lemma_square_monotone(r + 1, magnitude(x));
    }
    if magnitude(y) > r + 1 {
        lemma_square_monotone(r + 1, magnitude(y));
    }
    if magnitude(z) > r + 1 {
        lemma_square_monotone(r + 1, magnitude(z));
    }
}

/// The components of a normalised vector lie between minus one and one.
pub proof fn lemma_unit_vector_in_unit_cube(v: Vec3)
    ensures
        v.unit_vector_spec().in_unit_cube(),
{
    lemma_component_at_most_length(v);
    lemma_int_sqrt_exists(v.norm_squared_raw());
    let l = v.length_spec().raw as int;
    lemma_ratio_at_most_one(v.x.raw as int, l);
    lemma_ratio_at_most_one(v.y.raw as int, l);
    lemma_ratio_at_most_one(v.z.raw as int, l);
}

/// A point of the unit ball, by rejection from the cube around it: what
/// `point_from_draws` makes of the draws of one run of at most
/// `SAMPLE_TRIES` tries, whatever the generator returns.
pub fn random_vec_in_unit_sphere(rng_source: &mut StdRng) -> (v: Vec3)
    ensures
        v.length_squared_spec().raw <= ONE_RAW,
        v.in_unit_cube(),
        exists|draws: Seq<Vec3>|
            #[trigger] is_run_of_draws(draws, Fixed { raw: 0 }) && v == point_of_draws(draws),
{
    let ghost least = Fixed { raw: 0 };
    let ghost mut draws: Seq<Vec3> = Seq::empty();
    let mut tries: u32 = 0;
    while tries < SAMPLE_TRIES
        invariant
            tries <= SAMPLE_TRIES,
            least == (Fixed { raw: 0 }),
            draws.len() == tries,
            forall|i: int|
                0 <= i < draws.len() ==> (#[trigger] draws[i]).within(
                    Fixed::int_spec(-1),
                    Fixed::int_spec(1),
                ) && !in_shell(draws[i], least),
        decreases SAMPLE_TRIES - tries,
    {
        let random_vec = Vec3::random_range(rng_source, Fixed::from_int(-1), Fixed::from_int(1));
        proof {
            lemma_length_squared_non_negative(random_vec);
        }
        if random_vec.length_squared().raw <= ONE_RAW {
            proof {
                let all = draws.push(random_vec);
                lemma_first_in_shell_after_rejections(all, 0, least);
                assert(is_run_of_draws(all, least));
            }
            return random_vec;
        }
        proof {
            draws = draws.push(random_vec);
        }
        tries = tries + 1;
    }
    proof {
        lemma_first_in_shell_after_rejections(draws, 0, least);
        assert(is_run_of_draws(draws, least));
        assert(Fixed { raw: 0 }.times(Fixed { raw: 0 }).raw == 0);
    }
    Vec3::zero()
}

/// A direction, by rejection from the cube around the unit ball: what
/// `direction_from_draws` makes of the draws of one run of at most
/// `SAMPLE_TRIES` tries, whatever the generator returns. Its length is
/// one, up to rounding.
pub fn random_unit_vector(rng_source: &mut StdRng) -> (v: Vec3)
    ensures
        v.in_unit_cube(),
        ONE_RAW - 4 <= v.length_spec().raw <= ONE_RAW + 1,
        exists|draws: Seq<Vec3>|
            #[trigger] is_run_of_draws(draws, Fixed { raw: QUARTER_RAW }) && v
                == direction_of_draws(draws),
{
    let ghost least = Fixed { raw: QUARTER_RAW };
    let ghost mut draws: Seq<Vec3> = Seq::empty();
    let mut tries: u32 = 0;
    while tries < SAMPLE_TRIES
        invariant
            tries <= SAMPLE_TRIES,
            least == (Fixed { raw: QUARTER_RAW }),
            draws.len() == tries,
            forall|i: int|
                0 <= i < draws.len() ==> (#[trigger] draws[i]).within(
                    Fixed::int_spec(-1),
                    Fixed::int_spec(1),
                ) && !in_shell(draws[i], least),
        decreases SAMPLE_TRIES - tries,
    {
        let random_vec = Vec3::random_range(rng_source, Fixed::from_int(-1), Fixed::from_int(1));
        let length_squared = random_vec.length_squared();
        if length_squared.raw <= ONE_RAW && length_squared.raw >= QUARTER_RAW {
            proof {
                lemma_unit_vector_in_unit_cube(random_vec);
                lemma_length_at_least_half(random_vec);
                lemma_unit_vector_has_unit_length(random_vec);
                let all = draws.push(random_vec);
                lemma_first_in_shell_after_rejections(all, 0, least);
                assert(is_run_of_draws(all, least));
            }
            return random_vec.unit_vector();
        }
        proof {
            draws = draws.push(random_vec);
        }
        tries = tries + 1;
    }
    proof {
        lemma_int_sqrt_unique(ONE_RAW * ONE_RAW, ONE_RAW as int);
        lemma_first_in_shell_after_rejections(draws, 0, least);
        assert(is_run_of_draws(draws, least));
    }
    Vec3::z_axis()
}

/// Raw count of one quarter.
pub const QUARTER_RAW: i64 = 1073741824;

/// Whether the squared length of `v` lies between `least` and one.
pub open spec fn in_shell(v: Vec3, least: Fixed) -> bool {
    least.raw <= v.length_squared_spec().raw <= ONE_RAW
}

/// The first of the draws from position `start` on whose squared length
/// lies between `least` and one, if there is one.
pub open spec fn first_in_shell(draws: Seq<Vec3>, start: int, least: Fixed) -> Option<Vec3>
    decreases draws.len() - start,
{
    if start < 0 || start >= draws.len() {
        None
    } else if in_shell(draws[start], least) {
        Some(draws[start])
    } else {
        first_in_shell(draws, start + 1, least)
    }
}

/// The point of the unit ball that rejection sampling makes of the
/// draws: the first that lies in the ball, and the centre if none does.
pub open spec fn point_of_draws(draws: Seq<Vec3>) -> Vec3 {
    match first_in_shell(draws, 0, Fixed { raw: 0 }) {
        Some(draw) => draw,
        None => Vec3::zero_spec(),
    }
}

/// The direction that rejection sampling makes of the draws: the first
/// whose squared length lies between a quarter and one, normalised, and
/// the z axis if there is none.
pub open spec fn direction_of_draws(draws: Seq<Vec3>) -> Vec3 {
    match first_in_shell(draws, 0, Fixed { raw: QUARTER_RAW }) {
        Some(draw) => draw.unit_vector_spec(),
        None => Vec3 { x: Fixed { raw: 0 }, y: Fixed { raw: 0 }, z: Fixed { raw: ONE_RAW } },
    }
}

/// Whether the draws can be those of one run of a sampler that accepts
/// squared lengths between `least` and one: at least one and at most
/// `SAMPLE_TRIES` draws from the cube `[-1, 1)^3`, none but the last of
/// them accepted, and the last one accepted unless the tries are used
/// up.
pub open spec fn is_run_of_draws(draws: Seq<Vec3>, least: Fixed) -> bool {
    &&& 0 < draws.len() <= SAMPLE_TRIES
    &&& forall|i: int|
        0 <= i < draws.len() ==> (#[trigger] draws[i]).within(
            Fixed::int_spec(-1),
            Fixed::int_spec(1),
        )
    &&& forall|i: int| 0 <= i < draws.len() - 1 ==> !in_shell(#[trigger] draws[i], least)
    &&& draws.len() < SAMPLE_TRIES ==> in_shell(draws[draws.len() - 1], least)
}

/// The squared length is not negative.
pub proof fn lemma_length_squared_non_negative(v: Vec3)
    ensures
        v.length_squared_spec().raw >= 0,
{
    assert(v.x.raw * v.x.raw >= 0 && v.y.raw * v.y.raw >= 0 && v.z.raw * v.z.raw >= 0)
        by (nonlinear_arith);
    assert(v.x.times(v.x).raw >= 0);
    assert(v.y.times(v.y).raw >= 0);
    assert(v.z.times(v.z).raw >= 0);
}

/// Where every draw from `start` on but the last is rejected, the last
/// draw decides.
pub proof fn lemma_first_in_shell_after_rejections(draws: Seq<Vec3>, start: int, least: Fixed)
    requires
        0 <= start < draws.len(),
        forall|i: int| start <= i < draws.len() - 1 ==> !in_shell(#[trigger] draws[i], least),
    ensures
        first_in_shell(draws, start, least) == if in_shell(draws[draws.len() - 1], least) {
            Some(draws[draws.len() - 1])
        } else {
            None
        },
    decreases draws.len() - start,
{
    if start < draws.len() - 1 {
        assert(!in_shell(draws[start], least));
        lemma_first_in_shell_after_rejections(draws, start + 1, least);
    } else {
        assert(first_in_shell(draws, start + 1, least) is None);
    }
}

/// The first of the draws whose squared length lies between `least` and
/// one.
fn first_draw_in_shell(draws: &Vec<Vec3>, least: Fixed) -> (found: Option<Vec3>)
    ensures
        found == first_in_shell(draws@, 0, least),
{
    let mut i: usize = 0;
    while i < draws.len()
        invariant
            i <= draws.len(),
            first_in_shell(draws@, 0, least) == first_in_shell(draws@, i as int, least),
        decreases draws.len() - i,
    {
        let length_squared = draws[i].length_squared();
        if least.raw <= length_squared.raw && length_squared.raw <= ONE_RAW {
            return Some(draws[i]);
        }
        i = i + 1;
    }
    None
}

/// The point of the unit ball that rejection sampling makes of given
/// draws in place of random ones.
pub fn point_from_draws(draws: &Vec<Vec3>) -> (v: Vec3)
    ensures
        v == point_of_draws(draws@),
{
    match first_draw_in_shell(draws, Fixed::zero()) {
        Some(draw) => draw,
        None => Vec3::zero(),
    }
}

/// The direction that rejection sampling makes of given draws in place
/// of random ones.
pub fn direction_from_draws(draws: &Vec<Vec3>) -> (v: Vec3)
    ensures
        v == direction_of_draws(draws@),
{
    match first_draw_in_shell(draws, Fixed::from_raw(QUARTER_RAW)) {
        Some(draw) => draw.unit_vector(),
        None => Vec3::z_axis(),
    }
}

} // verus!
