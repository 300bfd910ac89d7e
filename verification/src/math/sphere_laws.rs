//! Where a ray that is aimed at the centre of a sphere meets it.
use vstd::prelude::*;
use crate::math::fixed::{
    int_sqrt, lemma_int_sqrt_exists, lemma_int_sqrt_unique, lemma_ratio_at_most_one,
    lemma_square_monotone, magnitude, trunc_div, Fixed, ONE_RAW,
};
use crate::math::hittables::{raymarch_spec, sphere_discriminant, sphere_hit_spec, sphere_roots};
use crate::math::signed_distance::SignedDistanceField;
use crate::math::materials::Material;
use crate::math::math3::{dot_spec, Vec3};
use crate::math::raytracing::Ray;
use crate::math::vector_laws::{lemma_trunc_div_by_one, vec_bounded};

verus! {

/// The ray that starts `distance` above `center` on the z axis and runs
/// down that axis.
pub open spec fn ray_down_the_z_axis(center: Vec3, distance: Fixed) -> Ray {
    Ray {
        origin: center.plus(Vec3 { x: Fixed { raw: 0 }, y: Fixed { raw: 0 }, z: distance }),
        dir: Vec3 { x: Fixed { raw: 0 }, y: Fixed { raw: 0 }, z: Fixed::int_spec(-1) },
    }
}

/// Dividing a multiple of one by one gives the multiplier back.
proof fn lemma_trunc_div_exact(x: int)
    ensures
        trunc_div(ONE_RAW * x, ONE_RAW as int) == x,
        trunc_div(x * ONE_RAW, ONE_RAW as int) == x,
{
    let s = ONE_RAW as int;
    lemma_trunc_div_by_one(s * x);
    assert(trunc_div(s * x, s) == x) by (nonlinear_arith)
        requires
            -s < s * x - s * trunc_div(s * x, s) < s,
            s > 0,
    ;
    assert(x * s == s * x) by (nonlinear_arith);
}

/// The square root of a rounded square: for `r` of at least one half,
/// the root of `r * r`, rounded down to a raw count, is `r` or one raw
/// count less.
proof fn lemma_root_of_rounded_square(r: int)
    requires
        2 * r >= ONE_RAW,
    ensures
        (r * r) / (ONE_RAW as int) > 0,
        r - 1 <= int_sqrt(((r * r) / (ONE_RAW as int)) * ONE_RAW) <= r,
{
    let s = ONE_RAW as int;
    let square = r * r;
    let rounded = square / s;
    vstd::arithmetic::div_mod::lemma_fundamental_div_mod(square, s);
    assert(square >= s * r / 2 && square >= 0) by (nonlinear_arith)
        requires
            square == r * r,
            2 * r >= s,
            s > 0,
    ;
    vstd::arithmetic::div_mod::lemma_mod_pos_bound(square, s);
    assert(rounded * s == s * rounded) by (nonlinear_arith);
    assert(square - s < rounded * s <= square);
    assert(rounded > 0) by (nonlinear_arith)
        requires
            square - s < rounded * s,
            square == r * r,
            2 * r >= s,
            s == 4294967296,
    ;
    assert(rounded * s >= 0);
    lemma_int_sqrt_exists(rounded * s);
    let root = int_sqrt(rounded * s);
    if root > r {
        lemma_square_monotone(r, root);
        assert(false);
    }
    assert((r - 1) * (r - 1) <= rounded * s) by (nonlinear_arith)
        requires
            square - s < rounded * s,
            square == r * r,
            2 * r >= s,
    ;
    if root + 1 < r - 1 {
        lemma_square_monotone(root + 1, r - 1);
        assert(false);
    }
    if root + 1 == r - 1 {
        assert(false);
    }
}

/// A ray aimed at the centre of a sphere meets it where the distance to
/// the centre less the radius says, and the normal there points back
/// along the ray.
///
/// This is shown for the ray that runs down the z axis, for a centre of
/// at most 2^61 raw counts in each component, a radius of at least one
/// half and a distance of at most 2^47 raw counts (2^15 as a number):
/// the parameter of the hit is the distance less the radius or one raw
/// count more, the hit is on the front face, and the normal has no x or
/// y component and a positive z component.
pub proof fn lemma_sphere_hit_down_the_z_axis(
    center: Vec3,
    radius: Fixed,
    material: &Material,
    distance: Fixed,
    t_min: Fixed,
    t_max: Fixed,
)
    requires
        vec_bounded(center, 0x2000_0000_0000_0000),
        2 * radius.raw >= ONE_RAW,
        radius.raw <= distance.raw <= 0x8000_0000_0000,
        t_min.raw < distance.raw - radius.raw,
        distance.raw - radius.raw + 1 < t_max.raw,
    ensures
        sphere_hit_spec(
            center,
            radius,
            material,
            ray_down_the_z_axis(center, distance),
            t_min,
            t_max,
        ) matches Some(hit) && {
            &&& distance.raw - radius.raw <= hit.t.raw <= distance.raw - radius.raw + 1
            &&& hit.front_face
            &&& hit.normal.x.raw == 0
            &&& hit.normal.y.raw == 0
            &&& 0 < hit.normal.z.raw <= ONE_RAW
            &&& hit.material == material
        },
{
    let s = ONE_RAW as int;
    let d = distance.raw as int;
    let r = radius.raw as int;
    let ray = ray_down_the_z_axis(center, distance);
    let far: int = 0x8000_0000_0000;
    // The offset from the centre and the three coefficients.
    let oc = ray.origin.minus(center);
    assert(oc.x.raw == 0 && oc.y.raw == 0 && oc.z.raw == d);
    assert(ray.dir.z.raw == -ONE_RAW);
    lemma_trunc_div_exact(s);
    lemma_trunc_div_exact(-d);
    assert((-ONE_RAW) * (-ONE_RAW) == s * s && d * (-ONE_RAW) == (-d) * s) by (nonlinear_arith)
        requires
            s == ONE_RAW,
    ;
    let a = ray.dir.length_squared_spec();
    assert(a.raw == s);
    let half_b = dot_spec(oc, ray.dir);
    assert(half_b.raw == -d);
    let d_squared = (d * d) / s;
    let r_squared = (r * r) / s;
    assert(0 <= d * d <= far * far && 0 <= r * r <= d * d) by (nonlinear_arith)
        requires
            0 <= r <= d <= far,
    ;
    vstd::arithmetic::div_mod::lemma_div_is_ordered(r * r, d * d, s);
    vstd::arithmetic::div_mod::lemma_div_is_ordered(d * d, far * far, s);
    vstd::arithmetic::div_mod::lemma_div_pos_is_pos(r * r, s);
    assert((far * far) / s == 0x4000_0000_0000_0000);
    assert(oc.length_squared_spec().raw == d_squared);
    assert(radius.times(radius).raw == r_squared);
    let c = oc.length_squared_spec().minus(radius.times(radius));
    assert(c.raw == d_squared - r_squared);
    assert((-d) * (-d) == d * d) by (nonlinear_arith);
    assert(half_b.times(half_b).raw == d_squared);
    lemma_trunc_div_exact(d_squared - r_squared);
    assert(a.times(c).raw == d_squared - r_squared);
    let discriminant = sphere_discriminant(center, radius, ray);
    assert(discriminant.raw == r_squared);
    // The root and the nearer of the two parameters.
    lemma_root_of_rounded_square(r);
    let root = discriminant.sqrt_spec();
    assert(root.raw == int_sqrt(r_squared * s));
    assert(r - 1 <= root.raw <= r);
    let t = sphere_roots(center, radius, ray).0;
    lemma_trunc_div_exact(d - root.raw);
    assert(t.raw == d - root.raw);
    // The point of the hit and the normal there.
    lemma_trunc_div_exact(-t.raw);
    assert((-ONE_RAW) * t.raw == (-t.raw) * s) by (nonlinear_arith)
        requires
            s == ONE_RAW,
    ;
    let point = ray.at_spec(t);
    assert(point.x.raw == center.x.raw && point.y.raw == center.y.raw);
    assert(point.z.raw == center.z.raw + root.raw);
    let outward = point.minus(center).over(radius);
    assert(outward.x.raw == 0 && outward.y.raw == 0);
    lemma_ratio_at_most_one(root.raw as int, r);
    assert(outward.z.raw > 0) by {
        assert(root.raw * s >= r) by (nonlinear_arith)
            requires
                root.raw >= r - 1,
                2 * r >= s,
                s == 4294967296,
        ;
        vstd::arithmetic::div_mod::lemma_div_is_ordered(r, root.raw * s, r);
        vstd::arithmetic::div_mod::lemma_div_by_multiple(1, r);
        assert(magnitude(root.raw * ONE_RAW) == root.raw * s);
    }
    lemma_trunc_div_exact(-outward.z.raw);
    assert((-ONE_RAW) * outward.z.raw == (-outward.z.raw) * s) by (nonlinear_arith)
        requires
            s == ONE_RAW,
    ;
    assert(dot_spec(ray.dir, outward).raw == -outward.z.raw);
}

/// On the ray down the z axis, at a parameter short of the centre, the
/// field of the sphere estimates the distance exactly, and its normal is
/// the z axis.
proof fn lemma_sphere_field_on_the_z_axis(center: Vec3, radius: Fixed, distance: Fixed, t: Fixed)
    requires
        vec_bounded(center, 0x2000_0000_0000_0000),
        0 <= radius.raw,
        0 <= t.raw < distance.raw <= 0x8000_0000_0000,
    ensures
        SignedDistanceField::Sphere(center, radius).distance_spec(
            ray_down_the_z_axis(center, distance).at_spec(t),
        ).raw == distance.raw - t.raw - radius.raw,
        SignedDistanceField::Sphere(center, radius).normal_spec(
            ray_down_the_z_axis(center, distance).at_spec(t),
        ) == (Vec3 { x: Fixed { raw: 0 }, y: Fixed { raw: 0 }, z: Fixed { raw: ONE_RAW } }),
{
    let s = ONE_RAW as int;
    let ray = ray_down_the_z_axis(center, distance);
    let gap = distance.raw - t.raw;
    lemma_trunc_div_exact(-t.raw);
    assert((-ONE_RAW) * t.raw == (-t.raw) * s) by (nonlinear_arith)
        requires
            s == ONE_RAW,
    ;
    let point = ray.at_spec(t);
    assert(point.x.raw == center.x.raw && point.y.raw == center.y.raw);
    assert(point.z.raw == center.z.raw + gap);
    let offset = point.minus(center);
    assert(offset.x.raw == 0 && offset.y.raw == 0 && offset.z.raw == gap);
    assert(offset.norm_squared_raw() == gap * gap);
    assert(gap * gap < (gap + 1) * (gap + 1)) by (nonlinear_arith)
        requires
            gap > 0,
    ;
    lemma_int_sqrt_unique(gap * gap, gap);
    assert(offset.length_spec().raw == gap);
    lemma_trunc_div_exact(1);
    assert(gap * ONE_RAW == s * gap) by (nonlinear_arith)
        requires
            s == ONE_RAW,
    ;
    assert(magnitude(s * gap) == s * gap) by (nonlinear_arith)
        requires
            gap > 0,
            s > 0,
    ;
    vstd::arithmetic::div_mod::lemma_div_by_multiple(s, gap);
    assert(offset.unit_vector_spec().z.raw == s);
}

/// Sphere tracing a sphere along a ray that is aimed at its centre ends
/// where the distance to the centre less the radius says.
///
/// This is shown for the ray that runs down the z axis, for a centre of
/// at most 2^61 raw counts in each component, a positive radius, a
/// distance of at most 2^47 raw counts and at least two steps: the
/// parameter of the hit is the distance less the radius, or less than
/// the tolerance short of it, and the normal is the z axis.
pub proof fn lemma_raymarch_down_the_z_axis(
    center: Vec3,
    radius: Fixed,
    material: &Material,
    distance: Fixed,
    epsilon: Fixed,
    t_min: Fixed,
    t_max: Fixed,
    max_steps: nat,
)
    requires
        vec_bounded(center, 0x2000_0000_0000_0000),
        0 < radius.raw <= distance.raw <= 0x8000_0000_0000,
        0 < epsilon.raw,
        0 <= t_min.raw <= distance.raw - radius.raw <= t_max.raw,
        max_steps >= 2,
    ensures
        raymarch_spec(
            SignedDistanceField::Sphere(center, radius),
            epsilon,
            material,
            ray_down_the_z_axis(center, distance),
            t_min,
            t_max,
            max_steps,
        ) matches Some(hit) && {
            &&& distance.raw - radius.raw - epsilon.raw < hit.t.raw <= distance.raw - radius.raw
            &&& hit.front_face
            &&& hit.normal == (Vec3 {
                x: Fixed { raw: 0 },
                y: Fixed { raw: 0 },
                z: Fixed { raw: ONE_RAW },
            })
            &&& hit.material == material
        },
{
    let field = SignedDistanceField::Sphere(center, radius);
    let ray = ray_down_the_z_axis(center, distance);
    lemma_sphere_field_on_the_z_axis(center, radius, distance, t_min);
    let estimate = field.distance_spec(ray.at_spec(t_min));
    if estimate.raw >= epsilon.raw {
        let next = t_min.plus(estimate);
        assert(next.raw == distance.raw - radius.raw);
        lemma_sphere_field_on_the_z_axis(center, radius, distance, next);
        assert(raymarch_spec(field, epsilon, material, ray, next, t_max, (max_steps - 1) as nat)
            is Some);
    }
}

/// Sphere tracing the field of a sphere finds the hit that the analytic
/// intersection finds, up to the tolerance.
///
/// This is shown for the ray that runs down the z axis at the centre,
/// where both lemmas above apply: both report a hit, the traced
/// parameter does not exceed the analytic one, and falls short of it by
/// less than the tolerance plus one raw count.
pub proof fn lemma_raymarch_agrees_with_sphere_hit(
    center: Vec3,
    radius: Fixed,
    material: &Material,
    distance: Fixed,
    epsilon: Fixed,
    t_min: Fixed,
    t_max: Fixed,
    max_steps: nat,
)
    requires
        vec_bounded(center, 0x2000_0000_0000_0000),
        2 * radius.raw >= ONE_RAW,
        radius.raw <= distance.raw <= 0x8000_0000_0000,
        0 < epsilon.raw,
        0 <= t_min.raw < distance.raw - radius.raw,
        distance.raw - radius.raw + 1 < t_max.raw,
        max_steps >= 2,
    ensures
        sphere_hit_spec(
            center,
            radius,
            material,
            ray_down_the_z_axis(center, distance),
            t_min,
            t_max,
        ) matches Some(analytic) && raymarch_spec(
            SignedDistanceField::Sphere(center, radius),
            epsilon,
            material,
            ray_down_the_z_axis(center, distance),
            t_min,
            t_max,
            max_steps,
        ) matches Some(traced) && analytic.t.raw - epsilon.raw - 1 < traced.t.raw <= analytic.t.raw,
{
    lemma_sphere_hit_down_the_z_axis(center, radius, material, distance, t_min, t_max);
    lemma_raymarch_down_the_z_axis(
        center,
        radius,
        material,
        distance,
        epsilon,
        t_min,
        t_max,
        max_steps,
    );
}

} // verus!
