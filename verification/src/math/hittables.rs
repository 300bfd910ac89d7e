//! The two kinds of leaf geometry: the analytic sphere and the shape
//! that is sphere traced through its signed distance field.
use vstd::prelude::*;
use std::ops::Neg;
use crate::math::fixed::Fixed;
use crate::math::materials::Material;
use crate::math::math3::{dot, dot_spec, Vec3};
use crate::math::raytracing::{face_normal_adjustment, face_normal_spec, HitRecord, Ray};
use crate::math::signed_distance::SignedDistanceField;

verus! {

pub struct Sphere {
    pub center: Vec3,
    pub radius: Fixed,
    pub material: Material,
}

/// Whether `t` lies strictly between the two bounds.
pub open spec fn strictly_between(t: Fixed, t_min: Fixed, t_max: Fixed) -> bool {
    t.raw < t_max.raw && t.raw > t_min.raw
}

/// The discriminant of the quadratic `a t^2 + 2 half_b t + c = 0` that the
/// ray parameter of a point on the sphere solves.
pub open spec fn sphere_discriminant(center: Vec3, radius: Fixed, ray: Ray) -> Fixed {
    let oc = ray.origin.minus(center);
    let a = ray.dir.length_squared_spec();
    let half_b = dot_spec(oc, ray.dir);
    let c = oc.length_squared_spec().minus(radius.times(radius));
    half_b.times(half_b).minus(a.times(c))
}

/// The two roots of that quadratic, the nearer one first:
/// `(-half_b - root) / a` and `(-half_b + root) / a`.
pub open spec fn sphere_roots(center: Vec3, radius: Fixed, ray: Ray) -> (Fixed, Fixed) {
    let oc = ray.origin.minus(center);
    let a = ray.dir.length_squared_spec();
    let half_b = dot_spec(oc, ray.dir);
    let root = sphere_discriminant(center, radius, ray).sqrt_spec();
    (half_b.negated().minus(root).over(a), half_b.negated().plus(root).over(a))
}

/// The record of the ray meeting the sphere at parameter `t`. The
/// outward normal is the offset from the centre divided by the radius.
pub open spec fn sphere_record<'a>(
    center: Vec3,
    radius: Fixed,
    material: &'a Material,
    ray: Ray,
    t: Fixed,
) -> HitRecord<'a> {
    let point = ray.at_spec(t);
    let adjusted = face_normal_spec(ray.dir, point.minus(center).over(radius));
    HitRecord { point, normal: adjusted.0, material, t, front_face: adjusted.1 }
}

/// Where the ray meets the sphere: nowhere unless the discriminant is
/// positive, and else at the first of the two roots, nearer one first,
/// that lies strictly between `t_min` and `t_max`.
pub open spec fn sphere_hit_spec<'a>(
    center: Vec3,
    radius: Fixed,
    material: &'a Material,
    ray: Ray,
    t_min: Fixed,
    t_max: Fixed,
) -> Option<HitRecord<'a>> {
    let roots = sphere_roots(center, radius, ray);
    if sphere_discriminant(center, radius, ray).raw > 0 {
        if strictly_between(roots.0, t_min, t_max) {
            Some(sphere_record(center, radius, material, ray, roots.0))
        } else if strictly_between(roots.1, t_min, t_max) {
            Some(sphere_record(center, radius, material, ray, roots.1))
        } else {
            None
        }
    } else {
        None
    }
}

/// Where sphere tracing ends that stands at parameter `t` with `steps`
/// steps left. With no step left it has missed. Else it takes the
/// distance estimate at the point of `t`: below `epsilon` it has hit,
/// there, front face; otherwise it moves on by the estimate, and has
/// missed if that leads beyond `t_max`.
pub open spec fn raymarch_spec<'a>(
    field: SignedDistanceField,
    epsilon: Fixed,
    material: &'a Material,
    ray: Ray,
    t: Fixed,
    t_max: Fixed,
    steps: nat,
) -> Option<HitRecord<'a>>
    decreases steps,
{
    if steps == 0 {
        None
    } else {
        let point = ray.at_spec(t);
        let estimate = field.distance_spec(point);
        if estimate.raw < epsilon.raw {
            Some(
                HitRecord {
                    point,
                    normal: field.normal_spec(point),
                    material,
                    t,
                    front_face: true,
                },
            )
        } else if t.plus(estimate).raw > t_max.raw {
            None
        } else {
            raymarch_spec(
                field,
                epsilon,
                material,
                ray,
                t.plus(estimate),
                t_max,
                (steps - 1) as nat,
            )
        }
    }
}

/// What sphere tracing reports is a point where the distance estimate is
/// below `epsilon`, seen from the front. With a non-negative `epsilon`
/// the parameter never falls behind the one it started from.
pub proof fn lemma_raymarch_hit(
    field: SignedDistanceField,
    epsilon: Fixed,
    material: &Material,
    ray: Ray,
    t: Fixed,
    t_max: Fixed,
    steps: nat,
)
    ensures
        raymarch_spec(field, epsilon, material, ray, t, t_max, steps) matches Some(hit) ==> {
            &&& hit.point == ray.at_spec(hit.t)
            &&& field.distance_spec(hit.point).raw < epsilon.raw
            &&& hit.normal == field.normal_spec(hit.point)
            &&& hit.front_face
            &&& hit.material == material
            &&& epsilon.raw >= 0 ==> hit.t.raw >= t.raw
            &&& t.raw <= t_max.raw ==> hit.t.raw <= t_max.raw
        },
    decreases steps,
{
    if steps > 0 {
        let estimate = field.distance_spec(ray.at_spec(t));
        if estimate.raw >= epsilon.raw && t.plus(estimate).raw <= t_max.raw {
            lemma_raymarch_hit(
                field,
                epsilon,
                material,
                ray,
                t.plus(estimate),
                t_max,
                (steps - 1) as nat,
            );
        }
    }
}

/// Intersects the ray with the sphere around `center`.
pub fn sphere_hit<'a>(
    center: Vec3,
    radius: Fixed,
    material: &'a Material,
    ray: &Ray,
    t_min: Fixed,
    t_max: Fixed,
) -> (hit: Option<HitRecord<'a>>)
    ensures
        hit == sphere_hit_spec(center, radius, material, *ray, t_min, t_max),
        hit matches Some(record) ==> strictly_between(record.t, t_min, t_max),
{
    let oc = ray.origin - center;
    let a = ray.dir.length_squared();
    let half_b = dot(oc, ray.dir);
    let c = oc.length_squared() - radius * radius;
    let discriminant = half_b * half_b - a * c;

    if discriminant.raw > 0 {
        let root = discriminant.sqrt();
        let near = (half_b.neg() - root) / a;
        let far = (half_b.neg() + root) / a;
        let chosen = if near.raw < t_max.raw && near.raw > t_min.raw {
            Some(near)
        } else if far.raw < t_max.raw && far.raw > t_min.raw {
            Some(far)
        } else {
            None
        };
        if let Some(t) = chosen {
            let point = ray.at(t);
            let outward_normal = (point - center) / radius;
            let (normal, front_face) = face_normal_adjustment(ray.dir, outward_normal);
            return Some(HitRecord::new(point, normal, material, t, front_face));
        }
    }
    None
}

/// Sphere traces the ray through the field, from `t_min` on, for at most
/// `max_steps` steps. Not to converge is to miss.
pub fn raymarch<'a>(
    field: &SignedDistanceField,
    max_steps: usize,
    epsilon: Fixed,
    material: &'a Material,
    ray: &Ray,
    t_min: Fixed,
    t_max: Fixed,
) -> (hit: Option<HitRecord<'a>>)
    ensures
        hit == raymarch_spec(*field, epsilon, material, *ray, t_min, t_max, max_steps as nat),
{
    let mut t = t_min;
    let mut step: usize = 0;
    while step < max_steps
        invariant
            step <= max_steps,
            raymarch_spec(*field, epsilon, material, *ray, t_min, t_max, max_steps as nat)
                == raymarch_spec(
                *field,
                epsilon,
                material,
                *ray,
                t,
                t_max,
                (max_steps - step) as nat,
            ),
        decreases max_steps - step,
    {
        let point = ray.at(t);
        let estimate = field.distance_estimate(point);
        if estimate.raw < epsilon.raw {
            let normal = field.normal_estimate(point);
            return Some(HitRecord::new(point, normal, material, t, true));
        }
        t = t + estimate;
        if t.raw > t_max.raw {
            return None;
        }
        step = step + 1;
    }
    None
}

impl Sphere {
    pub fn new(center: Vec3, radius: Fixed, material: Material) -> (sphere: Sphere)
        ensures
            sphere.center == center,
            sphere.radius == radius,
            sphere.material == material,
    {
        Sphere { center, radius, material }
    }

    /// Where the ray meets this sphere.
    pub open spec fn hit_spec(
        &self,
        ray: Ray,
        t_min: Fixed,
        t_max: Fixed,
    ) -> Option<HitRecord<'_>> {
        sphere_hit_spec(self.center, self.radius, &self.material, ray, t_min, t_max)
    }

    pub fn hit(&self, ray: &Ray, t_min: Fixed, t_max: Fixed) -> (hit: Option<HitRecord<'_>>)
        ensures
            hit == self.hit_spec(*ray, t_min, t_max),
            hit matches Some(record) ==> strictly_between(record.t, t_min, t_max),
    {
        sphere_hit(self.center, self.radius, &self.material, ray, t_min, t_max)
    }
}

} // verus!
