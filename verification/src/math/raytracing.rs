//! Rays, hit records and the intersection protocol of the scene geometry.
use vstd::prelude::*;
use std::ops::Neg;
use crate::math::fixed::Fixed;
use crate::math::hittables::{
    lemma_raymarch_hit, raymarch, raymarch_spec, sphere_hit, sphere_hit_spec,
};
use crate::math::materials::Material;
use crate::math::math3::{dot, dot_spec, Vec3};
use crate::math::signed_distance::SignedDistanceField;

verus! {

/// A half line: where it starts and, normalised, where it heads.
#[derive(Clone, Copy, Debug)]
pub struct Ray {
    pub origin: Vec3,
    pub dir: Vec3,
}

impl Ray {
    /// The ray from `origin` along `direction`, which is normalised.
    pub open spec fn new_spec(origin: Vec3, direction: Vec3) -> Ray {
        Ray { origin, dir: direction.unit_vector_spec() }
    }

    /// The point at parameter `t`: `origin + t * dir`.
    pub open spec fn at_spec(self, t: Fixed) -> Vec3 {
        self.origin.plus(self.dir.scaled(t))
    }

    pub fn new(origin: Vec3, direction: Vec3) -> (ray: Ray)
        ensures
            ray == Ray::new_spec(origin, direction),
    {
        Ray { origin, dir: direction.unit_vector() }
    }

    pub fn at(&self, t: Fixed) -> (point: Vec3)
        ensures
            point == self.at_spec(t),
    {
        self.origin + (t * self.dir)
    }
}

/// What an intersection query found: where the ray met the surface, the
/// unit normal there turned against the ray, the material of the
/// surface, the ray parameter, and whether the ray came from outside.
#[derive(Clone, Copy, Debug)]
pub struct HitRecord<'a> {
    pub point: Vec3,
    pub normal: Vec3,
    pub material: &'a Material,
    pub t: Fixed,
    pub front_face: bool,
}

impl<'a> HitRecord<'a> {
    pub fn new(
        point: Vec3,
        normal: Vec3,
        material: &'a Material,
        t: Fixed,
        front_face: bool,
    ) -> (record: HitRecord<'a>)
        ensures
            record == (HitRecord { point, normal, material, t, front_face }),
    {
        HitRecord { point, normal, material, t, front_face }
    }
}

/// The normal turned against the ray, and whether the ray meets the
/// front face: it does where it runs against the outward normal.
pub open spec fn face_normal_spec(ray_direction: Vec3, outward_normal: Vec3) -> (Vec3, bool) {
    let front_face = dot_spec(ray_direction, outward_normal).raw < 0;
    (
        if front_face {
            outward_normal
        } else {
            outward_normal.negated()
        },
        front_face,
    )
}

pub fn face_normal_adjustment(ray_direction: Vec3, outward_normal: Vec3) -> (adjusted: (Vec3, bool))
    ensures
        adjusted == face_normal_spec(ray_direction, outward_normal),
{
    let front_face: bool = dot(ray_direction, outward_normal).raw < 0;
    let normal = if front_face {
        outward_normal
    } else {
        outward_normal.neg()
    };
    (normal, front_face)
}

/// The geometry of a scene: a closed set of shapes, one of which gathers
/// others.
pub enum Hittable {
    /// Several shapes; the nearest hit among them counts.
    HittableList(Vec<Hittable>),
    /// The sphere with the given centre, radius and material.
    Sphere(Vec3, Fixed, Material),
    /// The shape of a signed distance field, sphere traced for at most
    /// the given number of steps to within the given distance.
    Raymarcher(SignedDistanceField, usize, Fixed, Material),
}

/// Of two results the one to keep. A hit beats a miss. Of two hits the
/// one with the smaller parameter is kept, and the later one if the
/// parameters are equal.
pub open spec fn nearer<'a>(
    earlier: Option<HitRecord<'a>>,
    later: Option<HitRecord<'a>>,
) -> Option<HitRecord<'a>> {
    match (earlier, later) {
        (Some(first), Some(second)) => if first.t.raw < second.t.raw {
            earlier
        } else {
            later
        },
        (Some(_), None) => earlier,
        (None, _) => later,
    }
}

impl Hittable {
    /// Where the ray meets the shape between `t_min` and `t_max`, if
    /// anywhere.
    pub open spec fn hit_spec(&self, ray: Ray, t_min: Fixed, t_max: Fixed) -> Option<HitRecord<'_>>
        decreases self, 0nat,
    {
        match self {
            Hittable::HittableList(hittables) => Self::nearest_spec(
                hittables@,
                hittables@.len(),
                ray,
                t_min,
                t_max,
            ),
            Hittable::Sphere(center, radius, mat) => sphere_hit_spec(
                *center,
                *radius,
                mat,
                ray,
                t_min,
                t_max,
            ),
            Hittable::Raymarcher(field, max_steps, epsilon, mat) => raymarch_spec(
                *field,
                *epsilon,
                mat,
                ray,
                t_min,
                t_max,
                *max_steps as nat,
            ),
        }
    }

    /// The nearest hit among the first `n` of the shapes.
    pub open spec fn nearest_spec(
        hittables: Seq<Hittable>,
        n: nat,
        ray: Ray,
        t_min: Fixed,
        t_max: Fixed,
    ) -> Option<HitRecord<'static>>
        decreases hittables, n,
    {
        if n == 0 || n > hittables.len() {
            None
        } else {
            nearer(
                Self::nearest_spec(hittables, (n - 1) as nat, ray, t_min, t_max),
                hittables[n - 1].hit_spec(ray, t_min, t_max),
            )
        }
    }

    /// The one intersection query of all geometry.
    pub fn hit(&self, ray: &Ray, t_min: Fixed, t_max: Fixed) -> (hit: Option<HitRecord<'_>>)
        ensures
            hit == self.hit_spec(*ray, t_min, t_max),
        decreases self,
    {
        match self {
            Hittable::HittableList(hittables) => {
                let mut best: Option<HitRecord<'_>> = None;
                let mut i: usize = 0;
                while i < hittables.len()
                    invariant
                        i <= hittables.len(),
                        self is HittableList,
                        self->HittableList_0 == *hittables,
                        best == Self::nearest_spec(hittables@, i as nat, *ray, t_min, t_max),
                    decreases hittables.len() - i,
                {
                    proof {
                        assert(decreases_to!(*hittables => hittables[i as int]));
                        assert(decreases_to!(self => self->HittableList_0));
                    }
                    let found = hittables[i].hit(ray, t_min, t_max);
                    best = match (best, found) {
                        (Some(first), Some(second)) => if first.t.raw < second.t.raw {
                            best
                        } else {
                            found
                        },
                        (Some(_), None) => best,
                        (None, _) => found,
                    };
                    i = i + 1;
                }
                best
            },
            Hittable::Sphere(center, radius, mat) => sphere_hit(
                *center,
                *radius,
                mat,
                ray,
                t_min,
                t_max,
            ),
            Hittable::Raymarcher(field, max_steps, epsilon, mat) => raymarch(
                field,
                *max_steps,
                *epsilon,
                mat,
                ray,
                t_min,
                t_max,
            ),
        }
    }
}

/// The nearest hit among the first `n` shapes is a miss only if each of
/// them misses. Otherwise it is the hit of one of them, and no other
/// hit among them has a smaller parameter.
pub proof fn lemma_nearest_is_minimal(
    hittables: Seq<Hittable>,
    n: nat,
    ray: Ray,
    t_min: Fixed,
    t_max: Fixed,
)
    requires
        n <= hittables.len(),
    ensures
        match Hittable::nearest_spec(hittables, n, ray, t_min, t_max) {
            None => forall|i: int|
                0 <= i < n ==> (#[trigger] hittables[i].hit_spec(ray, t_min, t_max)) is None,
            Some(best) => {
                &&& exists|i: int|
                    0 <= i < n && #[trigger] hittables[i].hit_spec(ray, t_min, t_max) == Some(best)
                &&& forall|j: int|
                    0 <= j < n ==> (#[trigger] hittables[j].hit_spec(ray, t_min, t_max) matches Some(
                        other,
                    ) ==> best.t.raw <= other.t.raw)
            },
        },
    decreases n,
{
    if n > 0 {
        lemma_nearest_is_minimal(hittables, (n - 1) as nat, ray, t_min, t_max);
        let before = Hittable::nearest_spec(hittables, (n - 1) as nat, ray, t_min, t_max);
        let last = hittables[n - 1].hit_spec(ray, t_min, t_max);
        match nearer(before, last) {
            None => {},
            Some(best) => {
                if nearer(before, last) == last {
                    assert(hittables[n - 1].hit_spec(ray, t_min, t_max) == Some(best));
                } else {
                    let i = choose|i: int|
                        0 <= i < n - 1 && #[trigger] hittables[i].hit_spec(ray, t_min, t_max)
                            == Some(best);
                    assert(hittables[i].hit_spec(ray, t_min, t_max) == Some(best));
                }
            },
        }
    }
}

/// What a list reports is the nearest hit of its members: a miss only if
/// every member misses, and else the hit of a member that none of the
/// others undercuts.
pub proof fn lemma_list_hit_is_nearest(list: Hittable, ray: Ray, t_min: Fixed, t_max: Fixed)
    requires
        list is HittableList,
    ensures
        match list.hit_spec(ray, t_min, t_max) {
            None => forall|i: int|
                0 <= i < list->HittableList_0@.len() ==> (
                #[trigger] list->HittableList_0@[i].hit_spec(ray, t_min, t_max)) is None,
            Some(best) => {
                &&& exists|i: int|
                    0 <= i < list->HittableList_0@.len()
                        && #[trigger] list->HittableList_0@[i].hit_spec(ray, t_min, t_max)
                        == Some(best)
                &&& forall|j: int|
                    0 <= j < list->HittableList_0@.len() ==> (
                    #[trigger] list->HittableList_0@[j].hit_spec(ray, t_min, t_max) matches Some(
                        other,
                    ) ==> best.t.raw <= other.t.raw)
            },
        },
{
    let hittables = list->HittableList_0@;
    lemma_nearest_is_minimal(hittables, hittables.len(), ray, t_min, t_max);
}

impl Hittable {
    /// Whether no sphere-traced shape has a negative tolerance.
    pub open spec fn tolerances_non_negative(self) -> bool
        decreases self,
    {
        match self {
            Hittable::HittableList(hittables) => forall|i: int|
                0 <= i < hittables@.len() ==> (#[trigger] hittables@[i]).tolerances_non_negative(),
            Hittable::Sphere(_, _, _) => true,
            Hittable::Raymarcher(_, _, epsilon, _) => epsilon.raw >= 0,
        }
    }
}

/// Whether the record lies on the ray at its parameter, and the
/// parameter between the two bounds.
pub open spec fn on_ray_within(hit: HitRecord, ray: Ray, t_min: Fixed, t_max: Fixed) -> bool {
    hit.point == ray.at_spec(hit.t) && t_min.raw <= hit.t.raw <= t_max.raw
}

/// Whatever shape reports a hit, the hit lies on the ray, at a parameter
/// between the bounds of the query.
pub proof fn lemma_hit_lies_on_ray(world: Hittable, ray: Ray, t_min: Fixed, t_max: Fixed)
    requires
        t_min.raw <= t_max.raw,
        world.tolerances_non_negative(),
    ensures
        world.hit_spec(ray, t_min, t_max) matches Some(hit) ==> on_ray_within(
            hit,
            ray,
            t_min,
            t_max,
        ),
    decreases world, 0nat,
{
    match world {
        Hittable::HittableList(hittables) => {
            lemma_nearest_lies_on_ray(hittables@, hittables@.len(), ray, t_min, t_max);
        },
        Hittable::Sphere(center, radius, mat) => {},
        Hittable::Raymarcher(field, max_steps, epsilon, mat) => {
            lemma_raymarch_hit(field, epsilon, &mat, ray, t_min, t_max, max_steps as nat);
        },
    }
}

/// The same for the nearest hit among the first `n` shapes.
proof fn lemma_nearest_lies_on_ray(
    hittables: Seq<Hittable>,
    n: nat,
    ray: Ray,
    t_min: Fixed,
    t_max: Fixed,
)
    requires
        n <= hittables.len(),
        t_min.raw <= t_max.raw,
        forall|i: int|
            0 <= i < hittables.len() ==> (#[trigger] hittables[i]).tolerances_non_negative(),
    ensures
        Hittable::nearest_spec(hittables, n, ray, t_min, t_max) matches Some(hit) ==> on_ray_within(
            hit,
            ray,
            t_min,
            t_max,
        ),
    decreases hittables, n,
{
    if n > 0 {
        lemma_nearest_lies_on_ray(hittables, (n - 1) as nat, ray, t_min, t_max);
        lemma_hit_lies_on_ray(hittables[n - 1], ray, t_min, t_max);
    }
}

} // verus!
