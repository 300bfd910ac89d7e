use vstd::prelude::*;
use crate::math::fixed::{magnitude, Fixed, ONE_RAW};
use crate::math::materials::Material;
use crate::math::raytracing::Hittable;
use crate::math::signed_distance::SignedDistanceField;
use crate::scenes::{lemma_thousandths_is_color, thousandths, thousandths_spec};

verus! {

/// A metal ground, the fractal folded eight times, and a metal sphere
/// around the fractal's centre.
pub open spec fn first_fractal_shapes() -> Seq<Hittable> {
    seq![
        Hittable::Sphere(
            thousandths_spec(0, -100500, -1000),
            Fixed::int_spec(100),
            Material::metal_spec(thousandths_spec(100, 800, 400), Fixed::ratio_spec(1, 100)),
        ),
        Hittable::Raymarcher(
            SignedDistanceField::SierpinskiTetrasphere(thousandths_spec(0, 520, 0), 8),
            100,
            Fixed::ratio_spec(5, 1000000),
            Material::Lambertian(thousandths_spec(500, 400, 700)),
        ),
        Hittable::Sphere(
            thousandths_spec(0, 520, 0),
            Fixed::ratio_spec(4, 10),
            Material::metal_spec(thousandths_spec(900, 200, 800), Fixed::ratio_spec(1, 100)),
        ),
    ]
}

pub fn first_fractal_scene() -> (scene: Hittable)
    ensures
        scene matches Hittable::HittableList(hittables) && hittables@ == first_fractal_shapes(),
        scene.conserves(),
        scene.tolerances_non_negative(),
{
    let hittables = vec![
        Hittable::Sphere(
            thousandths(0, -100500, -1000),
            Fixed::from_int(100),
            Material::metal(thousandths(100, 800, 400), Fixed::from_ratio(1, 100)),
        ),
        Hittable::Raymarcher(
            SignedDistanceField::SierpinskiTetrasphere(thousandths(0, 520, 0), 8),
            100,
            Fixed::from_ratio(5, 1000000),
            Material::Lambertian(thousandths(500, 400, 700)),
        ),
        Hittable::Sphere(
            thousandths(0, 520, 0),
            Fixed::from_ratio(4, 10),
            Material::metal(thousandths(900, 200, 800), Fixed::from_ratio(1, 100)),
        ),
    ];
    assert(hittables@ =~= first_fractal_shapes());
    proof {
        lemma_thousandths_is_color(100, 800, 400);
        lemma_thousandths_is_color(500, 400, 700);
        lemma_thousandths_is_color(900, 200, 800);
        assert(Fixed::ratio_spec(5, 1000000).raw >= 0) by {
            assert(magnitude(5 * ONE_RAW) / 1000000 >= 0);
        }
        let shapes = first_fractal_shapes();
        assert(shapes[0].conserves() && shapes[0].tolerances_non_negative());
        assert(shapes[1].conserves() && shapes[1].tolerances_non_negative());
        assert(shapes[2].conserves() && shapes[2].tolerances_non_negative());
    }
    Hittable::HittableList(hittables)
}

} // verus!
