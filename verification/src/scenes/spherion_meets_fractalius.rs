use vstd::prelude::*;
use crate::math::fixed::{magnitude, Fixed, ONE_RAW};
use crate::math::materials::Material;
use crate::math::raytracing::Hittable;
use crate::math::signed_distance::SignedDistanceField;
use crate::scenes::{lemma_thousandths_is_color, thousandths, thousandths_spec};

verus! {

/// Spherion, moved back, faces the fractal and the metal sphere around
/// its centre, on a metal ground.
pub open spec fn spherion_meets_fractalius_shapes() -> Seq<Hittable> {
    seq![
        Hittable::Sphere(
            thousandths_spec(0, -100500, -1000),
            Fixed::int_spec(100),
            Material::metal_spec(thousandths_spec(100, 800, 400), Fixed::ratio_spec(2, 10)),
        ),
        Hittable::Raymarcher(
            SignedDistanceField::SierpinskiTetrasphere(thousandths_spec(0, 520, 750), 8),
            100,
            Fixed::ratio_spec(5, 1000000),
            Material::Lambertian(thousandths_spec(500, 400, 700)),
        ),
        Hittable::Sphere(
            thousandths_spec(0, 520, 750),
            Fixed::ratio_spec(4, 10),
            Material::metal_spec(thousandths_spec(900, 200, 800), Fixed::ratio_spec(1, 100)),
        ),
        Hittable::Sphere(
            thousandths_spec(0, -100, -2000),
            Fixed::ratio_spec(4, 10),
            Material::Lambertian(thousandths_spec(500, 400, 700)),
        ),
        Hittable::Sphere(
            thousandths_spec(500, 150, -2000),
            Fixed::ratio_spec(2, 10),
            Material::metal_spec(thousandths_spec(800, 800, 800), Fixed::ratio_spec(5, 100)),
        ),
        Hittable::Sphere(
            thousandths_spec(-500, 150, -2000),
            Fixed::ratio_spec(2, 10),
            Material::metal_spec(thousandths_spec(800, 800, 800), Fixed::ratio_spec(5, 100)),
        ),
        Hittable::Sphere(
            thousandths_spec(125, 50, -1750),
            Fixed::ratio_spec(15, 100),
            Material::metal_spec(thousandths_spec(500, 900, 500), Fixed::ratio_spec(1, 100)),
        ),
        Hittable::Sphere(
            thousandths_spec(-125, 50, -1750),
            Fixed::ratio_spec(15, 100),
            Material::metal_spec(thousandths_spec(500, 900, 500), Fixed::ratio_spec(1, 100)),
        ),
        Hittable::Sphere(
            thousandths_spec(0, -50, -1700),
            Fixed::ratio_spec(1, 10),
            Material::Lambertian(thousandths_spec(800, 200, 200)),
        ),
        Hittable::Sphere(
            thousandths_spec(0, 520, 435),
            Fixed::ratio_spec(175, 1000),
            Material::Lambertian(thousandths_spec(950, 950, 950)),
        ),
    ]
}

pub fn spherion_meets_fractalius_scene() -> (scene: Hittable)
    ensures
        scene matches Hittable::HittableList(hittables) && hittables@ == spherion_meets_fractalius_shapes(),
        scene.conserves(),
        scene.tolerances_non_negative(),
{
    let hittables = vec![
        Hittable::Sphere(
            thousandths(0, -100500, -1000),
            Fixed::from_int(100),
            Material::metal(thousandths(100, 800, 400), Fixed::from_ratio(2, 10)),
        ),
        Hittable::Raymarcher(
            SignedDistanceField::SierpinskiTetrasphere(thousandths(0, 520, 750), 8),
            100,
            Fixed::from_ratio(5, 1000000),
            Material::Lambertian(thousandths(500, 400, 700)),
        ),
        Hittable::Sphere(
            thousandths(0, 520, 750),
            Fixed::from_ratio(4, 10),
            Material::metal(thousandths(900, 200, 800), Fixed::from_ratio(1, 100)),
        ),
        Hittable::Sphere(
            thousandths(0, -100, -2000),
            Fixed::from_ratio(4, 10),
            Material::Lambertian(thousandths(500, 400, 700)),
        ),
        Hittable::Sphere(
            thousandths(500, 150, -2000),
            Fixed::from_ratio(2, 10),
            Material::metal(thousandths(800, 800, 800), Fixed::from_ratio(5, 100)),
        ),
        Hittable::Sphere(
            thousandths(-500, 150, -2000),
            Fixed::from_ratio(2, 10),
            Material::metal(thousandths(800, 800, 800), Fixed::from_ratio(5, 100)),
        ),
        Hittable::Sphere(
            thousandths(125, 50, -1750),
            Fixed::from_ratio(15, 100),
            Material::metal(thousandths(500, 900, 500), Fixed::from_ratio(1, 100)),
        ),
        Hittable::Sphere(
            thousandths(-125, 50, -1750),
            Fixed::from_ratio(15, 100),
            Material::metal(thousandths(500, 900, 500), Fixed::from_ratio(1, 100)),
        ),
        Hittable::Sphere(
            thousandths(0, -50, -1700),
            Fixed::from_ratio(1, 10),
            Material::Lambertian(thousandths(800, 200, 200)),
        ),
        Hittable::Sphere(
            thousandths(0, 520, 435),
            Fixed::from_ratio(175, 1000),
            Material::Lambertian(thousandths(950, 950, 950)),
        ),
    ];
    assert(hittables@ =~= spherion_meets_fractalius_shapes());
    proof {
        lemma_thousandths_is_color(100, 800, 400);
        lemma_thousandths_is_color(500, 400, 700);
        lemma_thousandths_is_color(900, 200, 800);
        lemma_thousandths_is_color(800, 800, 800);
        lemma_thousandths_is_color(500, 900, 500);
        lemma_thousandths_is_color(800, 200, 200);
        lemma_thousandths_is_color(950, 950, 950);
        assert(Fixed::ratio_spec(5, 1000000).raw >= 0) by {
            assert(magnitude(5 * ONE_RAW) / 1000000 >= 0);
        }
        let shapes = spherion_meets_fractalius_shapes();
        assert(shapes[0].conserves() && shapes[0].tolerances_non_negative());
        assert(shapes[1].conserves() && shapes[1].tolerances_non_negative());
        assert(shapes[2].conserves() && shapes[2].tolerances_non_negative());
        assert(shapes[3].conserves() && shapes[3].tolerances_non_negative());
        assert(shapes[4].conserves() && shapes[4].tolerances_non_negative());
        assert(shapes[5].conserves() && shapes[5].tolerances_non_negative());
        assert(shapes[6].conserves() && shapes[6].tolerances_non_negative());
        assert(shapes[7].conserves() && shapes[7].tolerances_non_negative());
        assert(shapes[8].conserves() && shapes[8].tolerances_non_negative());
        assert(shapes[9].conserves() && shapes[9].tolerances_non_negative());
    }
    Hittable::HittableList(hittables)
}

} // verus!
