use vstd::prelude::*;
use std::ops::Neg;
use crate::math::fixed::Fixed;
use crate::math::materials::Material;
use crate::math::math3::Vec3;
use crate::math::raytracing::Hittable;
use crate::scenes::{lemma_thousandths_is_color, thousandths, thousandths_spec};

verus! {

/// A diffuse ground and three spheres side by side: a diffuse one
/// between two metal ones.
pub open spec fn three_spheres_shapes() -> Seq<Hittable> {
    seq![
        Hittable::Sphere(
            thousandths_spec(0, -100500, -1000),
            Fixed::int_spec(100),
            Material::Lambertian(thousandths_spec(100, 800, 400)),
        ),
        Hittable::Sphere(
            Vec3 { x: Fixed { raw: 0 }, y: Fixed { raw: 0 }, z: Fixed::int_spec(1) }.negated(),
            Fixed::ratio_spec(5, 10),
            Material::Lambertian(thousandths_spec(500, 400, 700)),
        ),
        Hittable::Sphere(
            thousandths_spec(1000, 0, -1000),
            Fixed::ratio_spec(5, 10),
            Material::metal_spec(thousandths_spec(800, 600, 200), Fixed::ratio_spec(7, 10)),
        ),
        Hittable::Sphere(
            thousandths_spec(-1000, 0, -1000),
            Fixed::ratio_spec(5, 10),
            Material::metal_spec(thousandths_spec(800, 800, 800), Fixed::ratio_spec(2, 10)),
        ),
    ]
}

pub fn three_spheres_scene() -> (scene: Hittable)
    ensures
        scene matches Hittable::HittableList(hittables) && hittables@ == three_spheres_shapes(),
        scene.conserves(),
        scene.tolerances_non_negative(),
{
    let hittables = vec![
        Hittable::Sphere(
            thousandths(0, -100500, -1000),
            Fixed::from_int(100),
            Material::Lambertian(thousandths(100, 800, 400)),
        ),
        Hittable::Sphere(
            Vec3::z_axis().neg(),
            Fixed::from_ratio(5, 10),
            Material::Lambertian(thousandths(500, 400, 700)),
        ),
        Hittable::Sphere(
            thousandths(1000, 0, -1000),
            Fixed::from_ratio(5, 10),
            Material::metal(thousandths(800, 600, 200), Fixed::from_ratio(7, 10)),
        ),
        Hittable::Sphere(
            thousandths(-1000, 0, -1000),
            Fixed::from_ratio(5, 10),
            Material::metal(thousandths(800, 800, 800), Fixed::from_ratio(2, 10)),
        ),
    ];
    assert(hittables@ =~= three_spheres_shapes());
    proof {
        lemma_thousandths_is_color(100, 800, 400);
        lemma_thousandths_is_color(500, 400, 700);
        lemma_thousandths_is_color(800, 600, 200);
        lemma_thousandths_is_color(800, 800, 800);
        let shapes = three_spheres_shapes();
        assert(shapes[0].conserves() && shapes[0].tolerances_non_negative());
        assert(shapes[1].conserves() && shapes[1].tolerances_non_negative());
        assert(shapes[2].conserves() && shapes[2].tolerances_non_negative());
        assert(shapes[3].conserves() && shapes[3].tolerances_non_negative());
    }
    Hittable::HittableList(hittables)
}

} // verus!
