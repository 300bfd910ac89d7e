//! What holds of the radiance estimate whatever the samples: light is
//! never gained on the way.
use vstd::prelude::*;
use crate::math::fixed::{lemma_int_sqrt_unique, magnitude, trunc_div, Fixed, ONE_RAW};
use crate::math::hittables::raymarch_spec;
use crate::math::imaging::{
    background_spec, farthest_hit_spec, first_sample, later_samples, nearest_hit_spec,
    ray_color_spec,
};
use crate::math::materials::Material;
use crate::math::math3::{lemma_unit_vector_in_unit_cube, Vec3};
use crate::math::raytracing::{Hittable, Ray};
use crate::math::signed_distance::SignedDistanceField;
use crate::math::vector_laws::{lemma_times_unit, lemma_trunc_div_by_one};

verus! {

/// Whether the number lies in `[0, 1]`.
pub open spec fn is_share(x: Fixed) -> bool {
    0 <= x.raw <= ONE_RAW
}

/// Whether each component lies in `[0, 1]`: a colour no brighter than
/// white, or an albedo that gives back no more than it receives.
pub open spec fn is_color(c: Vec3) -> bool {
    is_share(c.x) && is_share(c.y) && is_share(c.z)
}

impl Material {
    /// Whether the material gives back no more light than it receives.
    pub open spec fn conserves(self) -> bool {
        match self {
            Material::Lambertian(albedo) => is_color(albedo),
            Material::Metal(albedo, _) => is_color(albedo),
            Material::Absorb => true,
        }
    }
}

impl Hittable {
    /// Whether every material of the shape gives back no more light than
    /// it receives.
    pub open spec fn conserves(self) -> bool
        decreases self,
    {
        match self {
            Hittable::HittableList(hittables) => forall|i: int|
                0 <= i < hittables@.len() ==> (#[trigger] hittables@[i]).conserves(),
            Hittable::Sphere(_, _, mat) => mat.conserves(),
            Hittable::Raymarcher(_, _, _, mat) => mat.conserves(),
        }
    }
}

/// The product of two shares is a share.
pub proof fn lemma_share_of_share(a: Fixed, b: Fixed)
    requires
        is_share(a),
        is_share(b),
    ensures
        is_share(a.times(b)),
        a.times(b).raw <= a.raw,
        a.times(b).raw <= b.raw,
{
    lemma_times_unit(a, b);
    lemma_times_unit(b, a);
    assert(a.raw * b.raw >= 0) by (nonlinear_arith)
        requires
            a.raw >= 0,
            b.raw >= 0,
    ;
}

/// The background is a colour.
pub proof fn lemma_background_is_color(ray: Ray)
    ensures
        is_color(background_spec(ray)),
{
    let s = ONE_RAW as int;
    lemma_unit_vector_in_unit_cube(ray.dir);
    let y = ray.dir.unit_vector_spec().y;
    let sum = y.plus(Fixed::int_spec(1));
    assert(0 <= sum.raw <= 2 * s);
    let half = Fixed::ratio_spec(1, 2);
    assert(half.raw == 0x8000_0000) by {
        assert(magnitude(1 * ONE_RAW) == 4294967296 && magnitude(2) == 2);
    }
    let t = half.times(sum);
    assert(is_share(t)) by {
        let p = half.raw * sum.raw;
        assert(p == 0x8000_0000 * sum.raw);
        assert(0 <= p <= s * s) by (nonlinear_arith)
            requires
                p == 0x8000_0000 * sum.raw,
                0 <= sum.raw <= 2 * s,
                s == 4294967296,
        ;
        lemma_trunc_div_by_one(p);
        assert(trunc_div(p, s) == p / s);
        assert(p / s <= s) by (nonlinear_arith)
            requires
                0 <= p <= s * s,
                p - s * (p / s) > -s,
                s > 0,
        ;
    }
    let rest = Fixed::int_spec(1).minus(t);
    assert(rest.raw == s - t.raw);
    lemma_times_unit(Fixed { raw: ONE_RAW }, rest);
    assert(Fixed { raw: ONE_RAW }.times(rest).raw == rest.raw) by {
        lemma_trunc_div_by_one(ONE_RAW * rest.raw);
        assert(trunc_div(s * rest.raw, s) == rest.raw) by (nonlinear_arith)
            requires
                -s < s * rest.raw - s * trunc_div(s * rest.raw, s) < s,
                s > 0,
        ;
    }
    let blue_x = Fixed::ratio_spec(1, 2);
    let blue_y = Fixed::ratio_spec(7, 10);
    let blue_z = Fixed::int_spec(1);
    assert(is_share(blue_y)) by {
        assert(magnitude(7 * ONE_RAW) == 30064771072 && magnitude(10) == 10);
        assert(30064771072int / 10 == 3006477107);
    }
    assert(is_share(blue_x) && is_share(blue_z));
    lemma_share_of_share(blue_x, t);
    lemma_share_of_share(blue_y, t);
    lemma_share_of_share(blue_z, t);
}

/// The material that a hit reports is one of the shape's materials: it
/// conserves light if they all do.
pub proof fn lemma_hit_material_conserves(world: Hittable, ray: Ray, t_min: Fixed, t_max: Fixed)
    requires
        world.conserves(),
    ensures
        world.hit_spec(ray, t_min, t_max) matches Some(hit) ==> hit.material.conserves(),
    decreases world, 0nat,
{
    match world {
        Hittable::HittableList(hittables) => {
            lemma_nearest_material_conserves(hittables@, hittables@.len(), ray, t_min, t_max);
        },
        Hittable::Sphere(center, radius, mat) => {},
        Hittable::Raymarcher(field, max_steps, epsilon, mat) => {
            lemma_raymarch_material(field, epsilon, &mat, ray, t_min, t_max, max_steps as nat);
        },
    }
}

/// Sphere tracing reports the material it was given.
proof fn lemma_raymarch_material(
    field: SignedDistanceField,
    epsilon: Fixed,
    material: &Material,
    ray: Ray,
    t: Fixed,
    t_max: Fixed,
    steps: nat,
)
    ensures
        raymarch_spec(field, epsilon, material, ray, t, t_max, steps) matches Some(hit)
            ==> hit.material == material,
    decreases steps,
{
    if steps > 0 {
        let estimate = field.distance_spec(ray.at_spec(t));
        if estimate.raw >= epsilon.raw && t.plus(estimate).raw <= t_max.raw {
            lemma_raymarch_material(
                field,
                epsilon,
                material,
                ray,
                t.plus(estimate),
                t_max,
                (steps - 1) as nat,
            );
        }
    }
}

/// The same for the nearest hit among the first `n` shapes.
proof fn lemma_nearest_material_conserves(
    hittables: Seq<Hittable>,
    n: nat,
    ray: Ray,
    t_min: Fixed,
    t_max: Fixed,
)
    requires
        n <= hittables.len(),
        forall|i: int| 0 <= i < hittables.len() ==> (#[trigger] hittables[i]).conserves(),
    ensures
        Hittable::nearest_spec(hittables, n, ray, t_min, t_max) matches Some(hit)
            ==> hit.material.conserves(),
    decreases hittables, n,
{
    if n > 0 {
        lemma_nearest_material_conserves(hittables, (n - 1) as nat, ray, t_min, t_max);
        lemma_hit_material_conserves(hittables[n - 1], ray, t_min, t_max);
    }
}

/// No light is gained: in a scene whose materials conserve light the
/// radiance along any ray is a colour, whatever the depth and the
/// samples.
pub proof fn lemma_radiance_is_color(ray: Ray, world: Hittable, depth: int, samples: Seq<Vec3>)
    requires
        world.conserves(),
    ensures
        is_color(ray_color_spec(ray, world, depth, samples)),
    decreases depth,
{
    if depth > 0 {
        lemma_hit_material_conserves(world, ray, nearest_hit_spec(), farthest_hit_spec());
        match world.hit_spec(ray, nearest_hit_spec(), farthest_hit_spec()) {
            Some(hit_record) => {
                match hit_record.material.scatter_spec(ray, hit_record, first_sample(samples)) {
                    Some((scattered, attenuation)) => {
                        let onward = ray_color_spec(
                            scattered,
                            world,
                            depth - 1,
                            later_samples(samples),
                        );
                        lemma_radiance_is_color(scattered, world, depth - 1, later_samples(samples));
                        lemma_share_of_share(attenuation.x, onward.x);
                        lemma_share_of_share(attenuation.y, onward.y);
                        lemma_share_of_share(attenuation.z, onward.z);
                    },
                    None => {},
                }
            },
            None => {
                lemma_background_is_color(ray);
            },
        }
    }
}

/// Over a scene without geometry a ray that points straight up sees
/// the sky blue end of the background, and one that points straight down
/// the white end, whatever its origin, the samples and the depth, as long
/// as there is depth.
pub proof fn lemma_sky_over_an_empty_scene(
    origin: Vec3,
    world: Hittable,
    depth: int,
    samples: Seq<Vec3>,
)
    requires
        world matches Hittable::HittableList(hittables) && hittables@.len() == 0,
        depth > 0,
    ensures
        ray_color_spec(
            Ray {
                origin,
                dir: Vec3 { x: Fixed { raw: 0 }, y: Fixed::int_spec(1), z: Fixed { raw: 0 } },
            },
            world,
            depth,
            samples,
        ) == (Vec3 {
            x: Fixed::ratio_spec(1, 2),
            y: Fixed::ratio_spec(7, 10),
            z: Fixed::int_spec(1),
        }),
        ray_color_spec(
            Ray {
                origin,
                dir: Vec3 { x: Fixed { raw: 0 }, y: Fixed::int_spec(-1), z: Fixed { raw: 0 } },
            },
            world,
            depth,
            samples,
        ) == Vec3::one_spec(),
{
    let s = ONE_RAW as int;
    let up = Vec3 { x: Fixed { raw: 0 }, y: Fixed::int_spec(1), z: Fixed { raw: 0 } };
    let down = Vec3 { x: Fixed { raw: 0 }, y: Fixed::int_spec(-1), z: Fixed { raw: 0 } };
    let nothing = world->HittableList_0@;
    let (near, far) = (nearest_hit_spec(), farthest_hit_spec());
    assert(Hittable::nearest_spec(nothing, 0, Ray { origin, dir: up }, near, far) is None);
    assert(Hittable::nearest_spec(nothing, 0, Ray { origin, dir: down }, near, far) is None);
    assert(up.norm_squared_raw() == s * s && down.norm_squared_raw() == s * s) by (nonlinear_arith)
        requires
            up.x.raw == 0 && up.z.raw == 0 && up.y.raw == s,
            down.x.raw == 0 && down.z.raw == 0 && down.y.raw == -s,
            up.norm_squared_raw() == up.x.raw * up.x.raw + up.y.raw * up.y.raw + up.z.raw
                * up.z.raw,
            down.norm_squared_raw() == down.x.raw * down.x.raw + down.y.raw * down.y.raw
                + down.z.raw * down.z.raw,
    ;
    assert(s * s < (s + 1) * (s + 1)) by (nonlinear_arith)
        requires
            s > 0,
    ;
    lemma_int_sqrt_unique(s * s, s);
    assert(up.length_spec().raw == s && down.length_spec().raw == s);
    assert(magnitude(s * s) == 18446744073709551616 && magnitude(-s * s) == 18446744073709551616
        && magnitude(s) == s && s * s == 18446744073709551616);
    assert(18446744073709551616int / 4294967296 == 4294967296);
    assert(up.unit_vector_spec() == up);
    assert(down.unit_vector_spec() == down);
    let half = Fixed::ratio_spec(1, 2);
    assert(half.raw == 0x8000_0000) by {
        assert(magnitude(1 * ONE_RAW) == 4294967296 && magnitude(2) == 2);
        assert(4294967296int / 2 == 2147483648);
    }
    let seven_tenths = Fixed::ratio_spec(7, 10);
    assert(seven_tenths.raw == 3006477107) by {
        assert(magnitude(7 * ONE_RAW) == 30064771072 && magnitude(10) == 10);
        assert(30064771072int / 10 == 3006477107);
    }
    // Straight up the share of sky blue is one.
    let t_up = half.times(up.y.plus(Fixed::int_spec(1)));
    assert(t_up.raw == s) by {
        assert(2147483648int * 8589934592 == 18446744073709551616);
        assert(half.raw * (2 * s) == 18446744073709551616);
    }
    assert(Fixed::int_spec(1).minus(t_up).raw == 0);
    assert(half.times(t_up) == half && seven_tenths.times(t_up) == seven_tenths) by {
        assert(2147483648int * 4294967296 == 9223372036854775808);
        assert(3006477107int * 4294967296 == 12912720850737692672);
        assert(half.raw * t_up.raw == 9223372036854775808);
        assert(seven_tenths.raw * t_up.raw == 12912720850737692672);
        assert(9223372036854775808int / 4294967296 == 2147483648);
        assert(12912720850737692672int / 4294967296 == 3006477107);
    }
    assert(Fixed::int_spec(1).times(t_up).raw == s && Fixed::int_spec(1).times(
        Fixed { raw: 0 },
    ).raw == 0);
    // Straight down it is zero.
    let t_down = half.times(down.y.plus(Fixed::int_spec(1)));
    assert(t_down.raw == 0);
    assert(Fixed::int_spec(1).minus(t_down).raw == s);
    assert(half.times(t_down).raw == 0 && seven_tenths.times(t_down).raw == 0);
}

} // verus!
