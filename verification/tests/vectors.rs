use rand::rngs::StdRng;
use rand::SeedableRng;
use raytracing::math::fixed::{Fixed, ONE_RAW};
use raytracing::math::math3::{
    cross, direction_from_draws, dot, point_from_draws, random_unit_vector,
    random_vec_in_unit_sphere, reflect, Vec3,
};
use raytracing::math::rng::pixel_seed;
use raytracing::math::utils::degrees_to_radians;

fn fx(x: f64) -> Fixed {
    Fixed::from_raw((x * 4294967296.0).round() as i64)
}

fn to_f64(x: Fixed) -> f64 {
    x.raw as f64 / 4294967296.0
}

fn vec3(x: f64, y: f64, z: f64) -> Vec3 {
    Vec3::new(fx(x), fx(y), fx(z))
}

fn raw(v: Vec3) -> (i64, i64, i64) {
    (v.x.raw, v.y.raw, v.z.raw)
}

#[test]
fn constructors_and_accessors() {
    let v = vec3(1.0, 0.5, 0.25);
    assert_eq!(v.x(), fx(1.0));
    assert_eq!(v.y(), fx(0.5));
    assert_eq!(v.z(), fx(0.25));
    assert_eq!(Vec3::zero(), vec3(0.0, 0.0, 0.0));
    assert_eq!(Vec3::one(), vec3(1.0, 1.0, 1.0));
    assert_eq!(Vec3::x_axis(), vec3(1.0, 0.0, 0.0));
    assert_eq!(Vec3::y_axis(), vec3(0.0, 1.0, 0.0));
    assert_eq!(Vec3::z_axis(), vec3(0.0, 0.0, 1.0));
}

#[test]
fn component_wise_arithmetic() {
    let x_vec = vec3(1.0, 0.5, 0.25);
    let y_vec = vec3(-1.0, 0.75, -0.75);
    assert_eq!(-x_vec, vec3(-1.0, -0.5, -0.25));
    assert_eq!(x_vec + y_vec, vec3(0.0, 1.25, -0.5));
    assert_eq!(x_vec - y_vec, vec3(2.0, -0.25, 1.0));
    assert_eq!(x_vec * y_vec, vec3(-1.0, 0.375, -0.1875));
    assert_eq!(x_vec * fx(0.5), vec3(0.5, 0.25, 0.125));
    assert_eq!(fx(0.5) * x_vec, vec3(0.5, 0.25, 0.125));
    assert_eq!(x_vec / fx(0.5), vec3(2.0, 1.0, 0.5));
}

#[test]
fn dot_and_cross_products() {
    let a = vec3(1.0, 0.5, 0.25);
    let b = vec3(-1.0, 0.75, -0.75);
    assert_eq!(dot(a, b).raw, -3489660928);
    assert_eq!(raw(cross(a, b)), (-2415919104, 2147483648, 5368709120));
    assert_eq!(cross(Vec3::x_axis(), Vec3::y_axis()), Vec3::z_axis());
    assert_eq!(a.length_squared().raw, 5637144576);
}

#[test]
fn length_is_the_rounded_down_euclidean_norm() {
    assert_eq!(vec3(3.0, 4.0, 0.0).length(), fx(5.0));
    assert_eq!(vec3(1.0, 0.5, 0.25).length().raw, 4920503185);
    assert_eq!(Vec3::zero().length().raw, 0);
    let huge = Vec3::new(Fixed::from_raw(i64::MIN), Fixed::from_raw(i64::MIN), Fixed::from_raw(i64::MIN));
    assert_eq!(huge.length().raw, i64::MAX);
}

#[test]
fn square_root_of_each_component() {
    assert_eq!(vec3(4.0, 0.25, 0.0).sqrt(), vec3(2.0, 0.5, 0.0));
    assert_eq!(raw(vec3(2.0, -1.0, 1.0).sqrt()), (6074000999, 0, ONE_RAW));
}

#[test]
fn unit_vector_exact_values() {
    assert_eq!(raw(vec3(3.0, 4.0, 0.0).unit_vector()), (2576980377, 3435973836, 0));
    assert_eq!(raw(vec3(1.0, 0.5, 0.25).unit_vector()), (3748954808, 1874477404, 937238702));
    assert_eq!(vec3(0.0, 0.0, -7.5).unit_vector(), vec3(0.0, 0.0, -1.0));
    assert_eq!(Vec3::zero().unit_vector(), Vec3::zero());
}

#[test]
fn unit_vectors_have_length_one() {
    let inputs = [
        vec3(1.0, 0.0, 0.0),
        vec3(0.6, 0.8, 0.0),
        vec3(1.0, 2.0, 3.0).unit_vector(),
        vec3(-0.3, 0.5, 0.8).unit_vector(),
        vec3(100.0, -250.0, 33.0).unit_vector(),
        vec3(0.577, 0.577, -0.578),
    ];
    for v in inputs.iter() {
        let length = v.unit_vector().length();
        assert!((to_f64(length) - 1.0).abs() < 1e-8);
        assert!(ONE_RAW - 4 <= length.raw && length.raw <= ONE_RAW + 1);
    }
    assert_eq!(vec3(1.0, 2.0, 3.0).unit_vector().length().raw, ONE_RAW - 1);
    assert_eq!(vec3(100.0, -250.0, 33.0).unit_vector().length().raw, ONE_RAW - 2);
}

#[test]
fn short_vectors_normalise_less_exactly() {
    let short = vec3(-0.001, 0.002, 0.0005);
    assert_eq!(raw(short), (-4294967, 8589935, 2147484));
    assert_eq!(raw(short.unit_vector()), (-1874477345, 3748955127, 937238890));
    assert_eq!(short.unit_vector().length().raw, ONE_RAW + 293);
    assert!(293 <= ONE_RAW / short.length().raw);
    let tiny = Vec3::new(Fixed::from_raw(1), Fixed::from_raw(1), Fixed::from_raw(0));
    assert_eq!(tiny.length().raw, 1);
    assert_eq!(tiny.unit_vector().length().raw, 6074000999);
    let inputs = [short, tiny, vec3(0.00001, 0.0, 0.00002), vec3(0.3, 0.0, 0.1), vec3(7.0, 8.0, 9.0)];
    for v in inputs.iter() {
        let length = v.unit_vector().length().raw;
        assert!(ONE_RAW - 4 <= length && length <= ONE_RAW + ONE_RAW / v.length().raw);
    }
}

#[test]
fn unit_vector_components_stay_in_the_unit_cube() {
    let inputs = [
        vec3(1.0, 2.0, 3.0),
        vec3(-0.001, 0.002, 0.0005),
        vec3(100.0, -250.0, 33.0),
        Vec3::new(Fixed::from_raw(1), Fixed::from_raw(0), Fixed::from_raw(0)),
        Vec3::new(Fixed::from_raw(i64::MIN), Fixed::from_raw(0), Fixed::from_raw(0)),
        Vec3::new(Fixed::from_raw(i64::MAX), Fixed::from_raw(i64::MIN), Fixed::from_raw(5)),
    ];
    for v in inputs.iter() {
        let unit = v.unit_vector();
        assert!(unit.x.raw.abs() <= ONE_RAW);
        assert!(unit.y.raw.abs() <= ONE_RAW);
        assert!(unit.z.raw.abs() <= ONE_RAW);
    }
}

#[test]
fn reflect_at_an_axis_is_exact() {
    assert_eq!(reflect(vec3(1.0, -1.0, 0.0), vec3(0.0, 1.0, 0.0)), vec3(1.0, 1.0, 0.0));
    assert_eq!(reflect(vec3(0.25, 0.5, -2.0), vec3(0.0, 0.0, 1.0)), vec3(0.25, 0.5, 2.0));
}

#[test]
fn reflect_negates_the_normal_component() {
    let normals = [
        vec3(0.0, 1.0, 0.0),
        vec3(1.0, 2.0, 3.0).unit_vector(),
        vec3(-0.3, 0.5, 0.8).unit_vector(),
        vec3(0.6, 0.8, 0.0),
    ];
    let vectors = [vec3(0.3, -0.7, 0.2), vec3(1.0, -1.0, 0.0), vec3(-12.5, 3.0, 40.0)];
    for n in normals.iter() {
        for v in vectors.iter() {
            let before = dot(*v, *n);
            let after = dot(reflect(*v, *n), *n);
            assert!((to_f64(after) + to_f64(before)).abs() < 1e-6);
        }
    }
    let n = vec3(1.0, 2.0, 3.0).unit_vector();
    let v = vec3(0.3, -0.7, 0.2);
    assert_eq!(dot(v, n).raw, -573939148);
    assert_eq!(dot(reflect(v, n), n).raw, 573939147);
}

#[test]
fn reflect_at_a_normalised_normal_stays_within_its_bound() {
    let normals = [
        vec3(1.0, 2.0, 3.0).unit_vector(),
        vec3(-0.3, 0.5, 0.8).unit_vector(),
        vec3(100.0, -250.0, 33.0).unit_vector(),
        vec3(0.0, -1.0, 0.0),
    ];
    let vectors = [
        vec3(0.3, -0.7, 0.2),
        vec3(-12.5, 3.0, 40.0),
        vec3(60000000.0, -1000.0, 0.5),
        vec3(0.000001, 0.0, -0.000002),
    ];
    for n in normals.iter() {
        assert!(ONE_RAW - 4 <= n.length().raw && n.length().raw <= ONE_RAW + 1);
        for v in vectors.iter() {
            let before = dot(*v, *n).raw as i128;
            let after = dot(reflect(*v, *n), *n).raw as i128;
            assert!(ONE_RAW as i128 * (after + before).abs() <= 9 * ONE_RAW as i128 + 16 * before.abs());
        }
    }
}

#[test]
fn random_components_lie_in_the_unit_interval() {
    let mut rng = StdRng::seed_from_u64(1);
    let mut distinct = false;
    let first = Vec3::random(&mut rng);
    for _ in 0..200 {
        let v = Vec3::random(&mut rng);
        for c in [v.x, v.y, v.z].iter() {
            assert!(0 <= c.raw && c.raw < ONE_RAW);
        }
        distinct = distinct || v != first;
    }
    assert!(distinct);
}

#[test]
fn random_range_draws_between_its_bounds() {
    let mut rng = StdRng::seed_from_u64(2);
    let low = fx(2.0);
    let high = fx(3.0);
    let mut seen_other_than_low = false;
    let mut seen_two_values = false;
    let first = Vec3::random_range(&mut rng, low, high);
    for _ in 0..200 {
        let v = Vec3::random_range(&mut rng, low, high);
        for c in [v.x, v.y, v.z].iter() {
            assert!(low.raw <= c.raw && c.raw < high.raw);
            seen_other_than_low = seen_other_than_low || c.raw != low.raw;
        }
        seen_two_values = seen_two_values || v != first;
    }
    assert!(seen_other_than_low);
    assert!(seen_two_values);
}

#[test]
fn random_points_lie_in_the_unit_ball() {
    let mut rng = StdRng::seed_from_u64(3);
    for _ in 0..200 {
        let v = random_vec_in_unit_sphere(&mut rng);
        assert!(v.length_squared().raw <= ONE_RAW);
        assert!(to_f64(v.length()) <= 1.0 + 1e-9);
    }
}

#[test]
fn random_directions_have_length_one() {
    let mut rng = StdRng::seed_from_u64(4);
    let mut distinct = false;
    let first = random_unit_vector(&mut rng);
    for _ in 0..200 {
        let v = random_unit_vector(&mut rng);
        assert!((to_f64(v.length()) - 1.0).abs() < 1e-8);
        assert!(ONE_RAW - 4 <= v.length().raw && v.length().raw <= ONE_RAW + 1);
        assert!(v.x.raw.abs() <= ONE_RAW && v.y.raw.abs() <= ONE_RAW && v.z.raw.abs() <= ONE_RAW);
        distinct = distinct || v != first;
    }
    assert!(distinct);
}

#[test]
fn same_seed_same_draws() {
    let mut a = StdRng::seed_from_u64(99);
    let mut b = StdRng::seed_from_u64(99);
    for _ in 0..20 {
        assert_eq!(random_unit_vector(&mut a), random_unit_vector(&mut b));
    }
}

#[test]
fn degrees_become_radians() {
    assert_eq!(degrees_to_radians(fx(0.0)).raw, 0);
    assert_eq!(degrees_to_radians(fx(360.0)).raw, 26986075409);
    assert_eq!(degrees_to_radians(fx(180.0)).raw, 13493037704);
    assert_eq!(degrees_to_radians(fx(90.0)).raw, 6746518852);
    assert_eq!(degrees_to_radians(fx(45.0)).raw, 3373259426);
    assert_eq!(degrees_to_radians(fx(1.0)).raw, 74961320);
    assert_eq!(degrees_to_radians(fx(0.5)).raw, 37480660);
    assert_eq!(degrees_to_radians(fx(1000.0)).raw, 74961320580);
}

#[test]
fn radians_are_within_a_raw_count() {
    let one_raw_count = 1.0 / 4294967296.0;
    for degrees in [0.0, 0.5, 1.0, 30.0, 45.0, 90.0, 180.0, 270.0, 360.0, 1000.0].iter() {
        let radians = to_f64(degrees_to_radians(fx(*degrees)));
        assert!((radians - degrees.to_radians()).abs() <= one_raw_count);
        let mirrored = to_f64(degrees_to_radians(fx(-*degrees)));
        assert!((mirrored + degrees.to_radians()).abs() <= one_raw_count);
    }
    assert!((to_f64(degrees_to_radians(fx(180.0))) - std::f64::consts::PI).abs() <= one_raw_count);
    assert!(
        (to_f64(degrees_to_radians(fx(90.0))) - std::f64::consts::FRAC_PI_2).abs() <= one_raw_count
    );
}

#[test]
fn turning_the_other_way_negates_the_angle() {
    for degrees in [0.0, 0.5, 1.0, 45.0, 90.0, 180.0, 1234.5].iter() {
        let there = degrees_to_radians(fx(*degrees));
        let back = degrees_to_radians(fx(-*degrees));
        assert_eq!(back, -there);
    }
    assert_eq!(degrees_to_radians(fx(-45.0)).raw, -3373259426);
    let most = Fixed::from_raw(i64::MAX);
    assert_eq!(degrees_to_radians(-most), -degrees_to_radians(most));
    assert_eq!(degrees_to_radians(most).raw, 25620477880152155);
}

#[test]
fn numbers_in_decimal() {
    assert_eq!(fx(1.5).to_string(), "1.500000000");
    assert_eq!(fx(-0.25).to_string(), "-0.250000000");
    assert_eq!(Fixed::zero().to_string(), "0.000000000");
    assert_eq!(Fixed::from_int(1203).to_string(), "1203.000000000");
    assert_eq!(Fixed::from_raw(1).to_string(), "0.000000000");
    assert_eq!(Fixed::from_raw(-1).to_string(), "-0.000000000");
    assert_eq!(Fixed::from_raw(5).to_string(), "0.000000001");
    assert_eq!(Fixed::from_ratio(1, 3).to_string(), "0.333333333");
    assert_eq!(Fixed::from_ratio(-1005, 10).to_string(), "-100.500000000");
    assert_eq!(Fixed::from_ratio(1, 1000).to_string(), "0.000999999");
    assert_eq!(Fixed::from_raw(i64::MAX).to_string(), "2147483647.999999999");
    assert_eq!(Fixed::from_raw(i64::MIN).to_string(), "-2147483648.000000000");
}

#[test]
fn vectors_in_decimal() {
    assert_eq!(vec3(1.0, 0.5, 0.25).to_string(), "1.000000000 0.500000000 0.250000000");
    assert_eq!(vec3(-1.0, 0.75, -0.75).to_string(), "-1.000000000 0.750000000 -0.750000000");
    assert_eq!(Vec3::zero().to_string(), "0.000000000 0.000000000 0.000000000");
}

#[test]
fn first_draw_inside_the_ball_is_the_point() {
    let outside = vec3(0.9, 0.9, 0.9);
    let also_outside = vec3(-0.8, 0.7, 0.1);
    let inside = vec3(0.1, 0.2, 0.3);
    let later = vec3(0.5, 0.5, 0.5);
    assert_eq!(outside.length_squared().raw, 10436770527);
    assert_eq!(also_outside.length_squared().raw, 4896262716);
    assert_eq!(point_from_draws(&vec![outside, also_outside, inside, later]), inside);
    assert_eq!(point_from_draws(&vec![later, inside]), later);
    assert_eq!(point_from_draws(&vec![vec3(1.0, 0.0, 0.0)]), vec3(1.0, 0.0, 0.0));
    assert_eq!(point_from_draws(&vec![Vec3::zero(), inside]), Vec3::zero());
}

#[test]
fn no_draw_inside_the_ball_gives_the_centre() {
    assert_eq!(point_from_draws(&vec![]), Vec3::zero());
    assert_eq!(point_from_draws(&vec![vec3(0.9, 0.9, 0.9), vec3(-0.8, 0.7, 0.1)]), Vec3::zero());
}

#[test]
fn first_draw_in_the_shell_is_normalised() {
    let outside = vec3(0.9, 0.9, 0.9);
    let too_short = vec3(0.1, 0.2, 0.3);
    let just_too_short = vec3(0.3, 0.4, 0.0);
    let serves = vec3(0.5, 0.5, 0.5);
    assert_eq!(too_short.length_squared().raw, 601295420);
    assert_eq!(just_too_short.length_squared().raw, 1073741823);
    assert_eq!(
        raw(direction_from_draws(&vec![outside, too_short, just_too_short, serves, outside])),
        (2479700525, 2479700525, 2479700525)
    );
    assert_eq!(direction_from_draws(&vec![vec3(0.5, 0.0, 0.0)]), Vec3::x_axis());
    assert_eq!(direction_from_draws(&vec![vec3(-1.0, 0.0, 0.0), serves]), vec3(-1.0, 0.0, 0.0));
}

#[test]
fn no_draw_in_the_shell_gives_the_z_axis() {
    assert_eq!(direction_from_draws(&vec![]), Vec3::z_axis());
    let none_serves = vec![vec3(0.9, 0.9, 0.9), vec3(0.1, 0.2, 0.3), Vec3::zero()];
    assert_eq!(direction_from_draws(&none_serves), Vec3::z_axis());
}

#[test]
fn random_samplers_keep_the_first_draw_that_serves() {
    for seed in 0..40u64 {
        let mut sampling = StdRng::seed_from_u64(seed);
        let mut drawing = sampling.clone();
        let mut draws = vec![];
        for _ in 0..64 {
            draws.push(Vec3::random_range(&mut drawing, fx(-1.0), fx(1.0)));
        }
        assert_eq!(random_vec_in_unit_sphere(&mut sampling), point_from_draws(&draws));
        let mut sampling = StdRng::seed_from_u64(seed + 1000);
        let mut drawing = sampling.clone();
        let mut draws = vec![];
        for _ in 0..64 {
            draws.push(Vec3::random_range(&mut drawing, fx(-1.0), fx(1.0)));
        }
        assert_eq!(random_unit_vector(&mut sampling), direction_from_draws(&draws));
    }
}

#[test]
fn pixel_seed_adds_the_index_and_wraps() {
    assert_eq!(pixel_seed(40, 2), 42);
    assert_eq!(pixel_seed(0, 0), 0);
    assert_eq!(pixel_seed(7, u32::MAX), 7 + u32::MAX as u64);
    assert_eq!(pixel_seed(u64::MAX, 43), 42);
    assert_eq!(pixel_seed(u64::MAX, 0), u64::MAX);
    assert_eq!(pixel_seed(u64::MAX - 5, 6), 0);
}
