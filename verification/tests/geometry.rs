use raytracing::math::fixed::{Fixed, ONE_RAW};
use raytracing::math::hittables::{raymarch, sphere_hit, Sphere};
use raytracing::math::materials::Material;
use raytracing::math::math3::{dot, Vec3};
use raytracing::math::raytracing::{face_normal_adjustment, HitRecord, Hittable, Ray};
use raytracing::math::signed_distance::SignedDistanceField;

fn fx(x: f64) -> Fixed {
    Fixed::from_raw((x * 4294967296.0).round() as i64)
}

fn to_f64(x: Fixed) -> f64 {
    x.raw as f64 / 4294967296.0
}

fn vec3(x: f64, y: f64, z: f64) -> Vec3 {
    Vec3::new(fx(x), fx(y), fx(z))
}

fn raw(v: Vec3) -> (i64, i64, i64) {
    (v.x.raw, v.y.raw, v.z.raw)
}

fn near() -> Fixed {
    Fixed::from_ratio(1, 1000)
}

fn far() -> Fixed {
    Fixed::from_int(100)
}

fn grey() -> Material {
    Material::Lambertian(vec3(0.5, 0.5, 0.5))
}

#[test]
fn ray_direction_is_normalised() {
    let ray = Ray::new(vec3(1.0, 2.0, 3.0), vec3(0.0, 0.0, -7.5));
    assert_eq!(ray.origin, vec3(1.0, 2.0, 3.0));
    assert_eq!(ray.dir, vec3(0.0, 0.0, -1.0));
    let slanted = Ray::new(Vec3::zero(), vec3(3.0, 4.0, 0.0));
    assert_eq!(raw(slanted.dir), (2576980377, 3435973836, 0));
}

#[test]
fn ray_at_walks_along_the_direction() {
    let ray = Ray::new(vec3(1.0, 2.0, 3.0), vec3(0.0, 0.0, -2.0));
    assert_eq!(ray.at(fx(0.0)), vec3(1.0, 2.0, 3.0));
    assert_eq!(ray.at(fx(2.5)), vec3(1.0, 2.0, 0.5));
    assert_eq!(ray.at(fx(-1.0)), vec3(1.0, 2.0, 4.0));
}

#[test]
fn hit_record_keeps_what_it_is_given() {
    let material = grey();
    let record = HitRecord::new(vec3(1.0, 2.0, 3.0), Vec3::y_axis(), &material, fx(4.5), true);
    assert_eq!(record.point, vec3(1.0, 2.0, 3.0));
    assert_eq!(record.normal, Vec3::y_axis());
    assert_eq!(*record.material, material);
    assert_eq!(record.t, fx(4.5));
    assert!(record.front_face);
}

#[test]
fn normal_is_turned_against_the_ray() {
    let (normal, front) = face_normal_adjustment(vec3(0.0, 0.0, -1.0), vec3(0.0, 0.0, 1.0));
    assert_eq!(normal, vec3(0.0, 0.0, 1.0));
    assert!(front);
    let (normal, front) = face_normal_adjustment(vec3(0.0, 0.0, -1.0), vec3(0.0, 0.0, -1.0));
    assert_eq!(normal, vec3(0.0, 0.0, 1.0));
    assert!(!front);
    let (normal, front) = face_normal_adjustment(vec3(1.0, 0.0, 0.0), vec3(0.0, 1.0, 0.0));
    assert_eq!(normal, vec3(0.0, -1.0, 0.0));
    assert!(!front);
}

#[test]
fn ray_aimed_at_a_sphere_hits_at_distance_less_radius() {
    let cases = [
        ((0.0, 0.0, 0.0), (0.0, 0.0, -1.0), 5.0, 2.0, 12884901888i64),
        ((1.0, 2.0, 3.0), (1.0, 1.0, 1.0), 10.0, 3.0, 30064771054),
        ((0.0, 0.0, 0.0), (0.3, -0.5, 0.8), 7.5, 0.5, 30064771087),
    ];
    let material = grey();
    for (origin, direction, distance, radius, expected) in cases.iter() {
        let ray = Ray::new(vec3(origin.0, origin.1, origin.2), vec3(direction.0, direction.1, direction.2));
        let center = ray.at(fx(*distance));
        let hit = sphere_hit(center, fx(*radius), &material, &ray, near(), far()).unwrap();
        assert_eq!(hit.t.raw, *expected);
        assert!((to_f64(hit.t) - (distance - radius)).abs() < 1e-8);
        assert!(hit.front_face);
        assert!((to_f64(dot(hit.normal, ray.dir)) + 1.0).abs() < 1e-8);
        assert!((to_f64(hit.normal.x) + to_f64(ray.dir.x)).abs() < 1e-8);
        assert!((to_f64(hit.normal.y) + to_f64(ray.dir.y)).abs() < 1e-8);
        assert!((to_f64(hit.normal.z) + to_f64(ray.dir.z)).abs() < 1e-8);
        assert_eq!(hit.point, ray.at(hit.t));
    }
}

#[test]
fn sphere_hit_exact_record() {
    let material = grey();
    let ray = Ray::new(Vec3::zero(), vec3(0.0, 0.0, -1.0));
    let hit = sphere_hit(vec3(0.0, 0.0, -5.0), fx(2.0), &material, &ray, near(), far()).unwrap();
    assert_eq!(hit.t, fx(3.0));
    assert_eq!(hit.point, vec3(0.0, 0.0, -3.0));
    assert_eq!(hit.normal, vec3(0.0, 0.0, 1.0));
    assert!(hit.front_face);
    assert_eq!(*hit.material, material);
}

#[test]
fn sphere_seen_from_inside_shows_its_back_face() {
    let material = grey();
    let ray = Ray::new(Vec3::zero(), vec3(0.0, 0.0, -1.0));
    let hit = sphere_hit(Vec3::zero(), fx(2.0), &material, &ray, near(), far()).unwrap();
    assert_eq!(hit.t, fx(2.0));
    assert_eq!(hit.point, vec3(0.0, 0.0, -2.0));
    assert_eq!(hit.normal, vec3(0.0, 0.0, 1.0));
    assert!(!hit.front_face);
}

#[test]
fn sphere_roots_outside_the_bounds_do_not_count() {
    let material = grey();
    let ray = Ray::new(Vec3::zero(), vec3(0.0, 0.0, -1.0));
    let center = vec3(0.0, 0.0, -5.0);
    assert!(sphere_hit(center, fx(2.0), &material, &ray, near(), fx(2.0)).is_none());
    assert!(sphere_hit(center, fx(2.0), &material, &ray, near(), fx(3.0)).is_none());
    assert!(sphere_hit(center, fx(2.0), &material, &ray, fx(7.0), far()).is_none());
    let far_root = sphere_hit(center, fx(2.0), &material, &ray, fx(3.0), far()).unwrap();
    assert_eq!(far_root.t, fx(7.0));
    assert!(!far_root.front_face);
    let behind = sphere_hit(vec3(0.0, 0.0, 5.0), fx(2.0), &material, &ray, near(), far());
    assert!(behind.is_none());
}

#[test]
fn sphere_missed_or_grazed_is_no_hit() {
    let material = grey();
    let ray = Ray::new(Vec3::zero(), vec3(0.0, 0.0, -1.0));
    assert!(sphere_hit(vec3(0.0, 5.0, -5.0), fx(2.0), &material, &ray, near(), far()).is_none());
    assert!(sphere_hit(vec3(0.0, 2.0, -5.0), fx(2.0), &material, &ray, near(), far()).is_none());
}

#[test]
fn sphere_struct_and_variant_agree() {
    let ray = Ray::new(vec3(1.0, 2.0, 3.0), vec3(1.0, 1.0, 1.0));
    let center = ray.at(fx(10.0));
    let sphere = Sphere::new(center, fx(3.0), grey());
    let variant = Hittable::Sphere(center, fx(3.0), grey());
    let a = sphere.hit(&ray, near(), far()).unwrap();
    let b = variant.hit(&ray, near(), far()).unwrap();
    assert_eq!(a.t.raw, 30064771054);
    assert_eq!(a.t, b.t);
    assert_eq!(a.point, b.point);
    assert_eq!(a.normal, b.normal);
    assert_eq!(a.front_face, b.front_face);
    assert_eq!(raw(a.normal), (-2479700527, -2479700527, -2479700527));
}

#[test]
fn sphere_field_distance_and_normal() {
    let field = SignedDistanceField::Sphere(vec3(0.0, 0.0, -5.0), fx(2.0));
    assert_eq!(field.distance_estimate(Vec3::zero()), fx(3.0));
    assert_eq!(field.distance_estimate(vec3(0.0, 0.0, -5.0)), fx(-2.0));
    assert_eq!(field.distance_estimate(vec3(0.0, 2.0, -5.0)), fx(0.0));
    assert_eq!(field.normal_estimate(vec3(0.0, 3.0, -5.0)), vec3(0.0, 1.0, 0.0));
}

#[test]
fn fractal_field_distance() {
    let point = vec3(0.3, 0.2, -1.5);
    let center = vec3(0.0, 0.52, 0.0);
    let expected = [(0usize, 2846781494i64), (1, 2514993164), (2, 2275977103), (8, 2150030384)];
    for (iterations, distance) in expected.iter() {
        let field = SignedDistanceField::SierpinskiTetrasphere(center, *iterations);
        assert_eq!(field.distance_estimate(point).raw, *distance);
    }
    let unfolded = SignedDistanceField::SierpinskiTetrasphere(Vec3::zero(), 0);
    assert_eq!(unfolded.distance_estimate(vec3(0.0, 0.0, 2.0)).raw, 2 * ONE_RAW - 3865470566);
}

#[test]
fn fractal_field_normal_is_the_z_axis() {
    let field = SignedDistanceField::SierpinskiTetrasphere(vec3(0.0, 0.52, 0.0), 8);
    assert_eq!(field.normal_estimate(vec3(0.3, 0.2, -1.5)), Vec3::z_axis());
    assert_eq!(field.normal_estimate(Vec3::zero()), Vec3::z_axis());
}

#[test]
fn raymarching_a_sphere_agrees_with_the_analytic_hit() {
    let cases = [
        ((0.0, 0.0, 0.0), (0.0, 0.0, -1.0), 5.0, 2.0, 12884901888i64),
        ((1.0, 2.0, 3.0), (1.0, 1.0, 1.0), 10.0, 3.0, 30064771063),
        ((0.0, 0.0, 0.0), (0.3, -0.5, 0.8), 7.5, 0.5, 30064771069),
    ];
    let material = grey();
    let epsilon = Fixed::from_ratio(5, 1000000);
    for (origin, direction, distance, radius, expected) in cases.iter() {
        let ray = Ray::new(vec3(origin.0, origin.1, origin.2), vec3(direction.0, direction.1, direction.2));
        let center = ray.at(fx(*distance));
        let analytic = sphere_hit(center, fx(*radius), &material, &ray, near(), far()).unwrap();
        let field = SignedDistanceField::Sphere(center, fx(*radius));
        let marched = raymarch(&field, 100, epsilon, &material, &ray, near(), far()).unwrap();
        assert_eq!(marched.t.raw, *expected);
        assert!((to_f64(marched.t) - to_f64(analytic.t)).abs() < 1e-3);
        assert!(marched.front_face);
        assert_eq!(marched.point, ray.at(marched.t));
        assert!(field.distance_estimate(marched.point).raw < epsilon.raw);
    }
}

#[test]
fn raymarching_gives_up_after_its_steps() {
    let material = grey();
    let epsilon = Fixed::from_ratio(5, 1000000);
    let ray = Ray::new(Vec3::zero(), vec3(0.0, 0.0, -1.0));
    let field = SignedDistanceField::Sphere(vec3(0.0, 0.0, -5.0), fx(2.0));
    assert!(raymarch(&field, 0, epsilon, &material, &ray, near(), far()).is_none());
    assert!(raymarch(&field, 1, epsilon, &material, &ray, near(), far()).is_none());
    let hit = raymarch(&field, 2, epsilon, &material, &ray, near(), far()).unwrap();
    assert_eq!(hit.t, fx(3.0));
    assert_eq!(hit.normal, vec3(0.0, 0.0, 1.0));
}

#[test]
fn raymarching_stops_beyond_the_far_bound() {
    let material = grey();
    let epsilon = Fixed::from_ratio(5, 1000000);
    let ray = Ray::new(Vec3::zero(), vec3(0.0, 0.0, -1.0));
    let field = SignedDistanceField::Sphere(vec3(0.0, 0.0, -5.0), fx(2.0));
    assert!(raymarch(&field, 100, epsilon, &material, &ray, near(), fx(2.0)).is_none());
    let away = Ray::new(Vec3::zero(), vec3(0.0, 0.0, 1.0));
    assert!(raymarch(&field, 100, epsilon, &material, &away, near(), far()).is_none());
}

#[test]
fn raymarching_the_fractal() {
    let material = grey();
    let field = SignedDistanceField::SierpinskiTetrasphere(Vec3::zero(), 4);
    let ray = Ray::new(vec3(0.0, 0.0, 3.0), vec3(0.1, 0.1, -1.0));
    let hit = raymarch(&field, 100, Fixed::from_ratio(5, 1000000), &material, &ray, near(), far()).unwrap();
    assert_eq!(hit.t.raw, 8716896096);
    assert_eq!(raw(hit.point), (863101324, 863101324, 4253888637));
    assert_eq!(hit.normal, Vec3::z_axis());
    assert!(hit.front_face);
    let variant = Hittable::Raymarcher(field, 100, Fixed::from_ratio(5, 1000000), grey());
    assert_eq!(variant.hit(&ray, near(), far()).unwrap().t.raw, 8716896096);
}

#[test]
fn empty_list_is_never_hit() {
    let list = Hittable::HittableList(vec![]);
    let ray = Ray::new(Vec3::zero(), vec3(0.0, 0.0, -1.0));
    assert!(list.hit(&ray, near(), far()).is_none());
}

#[test]
fn list_reports_the_nearest_hit() {
    let far_sphere = Hittable::Sphere(vec3(0.0, 0.0, -9.0), fx(1.0), Material::Absorb);
    let near_sphere = Hittable::Sphere(vec3(0.0, 0.0, -5.0), fx(2.0), grey());
    let off_axis = Hittable::Sphere(vec3(0.0, 50.0, -5.0), fx(2.0), Material::Absorb);
    let ray = Ray::new(Vec3::zero(), vec3(0.0, 0.0, -1.0));
    let orders: [[usize; 3]; 3] = [[0, 1, 2], [1, 0, 2], [2, 0, 1]];
    for order in orders.iter() {
        let all = [far_sphere_copy(&far_sphere), far_sphere_copy(&near_sphere), far_sphere_copy(&off_axis)];
        let mut members = vec![];
        for k in order.iter() {
            members.push(far_sphere_copy(&all[*k]));
        }
        let list = Hittable::HittableList(members);
        let hit = list.hit(&ray, near(), far()).unwrap();
        assert_eq!(hit.t, fx(3.0));
        assert_eq!(*hit.material, grey());
    }
}

fn far_sphere_copy(shape: &Hittable) -> Hittable {
    match shape {
        Hittable::Sphere(center, radius, material) => Hittable::Sphere(*center, *radius, *material),
        Hittable::Raymarcher(field, steps, epsilon, material) => {
            Hittable::Raymarcher(*field, *steps, *epsilon, *material)
        }
        Hittable::HittableList(members) => {
            Hittable::HittableList(members.iter().map(far_sphere_copy).collect())
        }
    }
}

#[test]
fn list_hit_beats_miss_and_lists_nest() {
    let miss = Hittable::Sphere(vec3(0.0, 50.0, -5.0), fx(2.0), Material::Absorb);
    let hit = Hittable::Sphere(vec3(0.0, 0.0, -9.0), fx(1.0), grey());
    let inner = Hittable::HittableList(vec![miss, hit]);
    let nearer = Hittable::Raymarcher(
        SignedDistanceField::Sphere(vec3(0.0, 0.0, -5.0), fx(2.0)),
        100,
        Fixed::from_ratio(5, 1000000),
        Material::Absorb,
    );
    let ray = Ray::new(Vec3::zero(), vec3(0.0, 0.0, -1.0));
    assert_eq!(inner.hit(&ray, near(), far()).unwrap().t, fx(8.0));
    let outer = Hittable::HittableList(vec![inner, nearer, Hittable::HittableList(vec![])]);
    let found = outer.hit(&ray, near(), far()).unwrap();
    assert_eq!(found.t, fx(3.0));
    assert_eq!(*found.material, Material::Absorb);
}

#[test]
fn list_of_equal_hits_keeps_the_later_one() {
    let first = Hittable::Sphere(vec3(0.0, 0.0, -5.0), fx(2.0), grey());
    let second = Hittable::Sphere(vec3(0.0, 0.0, -5.0), fx(2.0), Material::Absorb);
    let list = Hittable::HittableList(vec![first, second]);
    let ray = Ray::new(Vec3::zero(), vec3(0.0, 0.0, -1.0));
    let found = list.hit(&ray, near(), far()).unwrap();
    assert_eq!(found.t, fx(3.0));
    assert_eq!(*found.material, Material::Absorb);
}

#[test]
fn ray_without_direction_hits_no_sphere() {
    let material = grey();
    let still = Ray::new(Vec3::zero(), Vec3::zero());
    assert_eq!(still.dir, Vec3::zero());
    assert_eq!(still.at(fx(5.0)), Vec3::zero());
    assert!(sphere_hit(vec3(0.0, 0.0, -5.0), fx(2.0), &material, &still, near(), far()).is_none());
    assert!(sphere_hit(Vec3::zero(), fx(2.0), &material, &still, near(), far()).is_none());
}

fn units_of(distance: Fixed) -> i128 {
    distance.raw as i128 / ONE_RAW as i128 + 1
}

fn aimed_ray_tolerance(distance: Fixed, radius: Fixed) -> i128 {
    let k = units_of(distance);
    let discriminant = 33 * k * k + 12 * k + 3;
    let root = ((discriminant + 1) * ONE_RAW as i128) / radius.raw as i128 + 1;
    52 * k + 7 + root
}

fn field_tolerance(distance: Fixed) -> i128 {
    8 * units_of(distance) + 12
}

fn normal_tolerance(distance: Fixed, radius: Fixed) -> i128 {
    ((aimed_ray_tolerance(distance, radius) + 2) * ONE_RAW as i128) / radius.raw as i128 + 2
}

fn aimed_rays() -> Vec<(Ray, Fixed, Fixed)> {
    let directions = [
        (0.0, 0.0, -1.0),
        (1.0, 1.0, 1.0),
        (0.3, -0.5, 0.8),
        (-0.9, 0.1, 0.05),
        (0.0, 1.0, 0.0),
        (-2.0, -3.0, 7.0),
    ];
    let sizes = [(5.0, 2.0), (10.0, 3.0), (7.5, 0.5), (100.0, 1.0), (1.5, 1.0), (2000.0, 600.0)];
    let mut rays = vec![];
    for direction in directions.iter() {
        for (distance, radius) in sizes.iter() {
            let ray = Ray::new(vec3(1.0, -2.0, 3.0), vec3(direction.0, direction.1, direction.2));
            rays.push((ray, fx(*distance), fx(*radius)));
        }
    }
    rays
}

#[test]
fn aimed_ray_hits_within_its_tolerance() {
    let material = grey();
    for (ray, distance, radius) in aimed_rays().iter() {
        let center = ray.at(*distance);
        let tolerance = aimed_ray_tolerance(*distance, *radius);
        let hit = sphere_hit(center, *radius, &material, ray, near(), fx(5000.0)).unwrap();
        let expected = (distance.raw - radius.raw) as i128;
        assert!((hit.t.raw as i128 - expected).abs() <= tolerance);
        assert_eq!(hit.point, ray.at(hit.t));
    }
}

#[test]
fn aimed_ray_meets_the_front_face_with_the_normal_against_it() {
    let material = grey();
    for (ray, distance, radius) in aimed_rays().iter() {
        let center = ray.at(*distance);
        let tolerance = normal_tolerance(*distance, *radius);
        assert!(3 * tolerance <= ONE_RAW as i128 - 11);
        let hit = sphere_hit(center, *radius, &material, ray, near(), fx(5000.0)).unwrap();
        assert!(hit.front_face);
        assert!((hit.normal.x.raw as i128 + ray.dir.x.raw as i128).abs() <= tolerance);
        assert!((hit.normal.y.raw as i128 + ray.dir.y.raw as i128).abs() <= tolerance);
        assert!((hit.normal.z.raw as i128 + ray.dir.z.raw as i128).abs() <= tolerance);
    }
}

#[test]
fn tracing_an_aimed_ray_agrees_with_the_analytic_hit() {
    let material = grey();
    let epsilon = fx(0.00005);
    for (ray, distance, radius) in aimed_rays().iter() {
        let center = ray.at(*distance);
        let field_miss = field_tolerance(*distance);
        assert!(2 * field_miss < epsilon.raw as i128);
        let analytic = sphere_hit(center, *radius, &material, ray, near(), fx(5000.0)).unwrap();
        let field = SignedDistanceField::Sphere(center, *radius);
        let traced = raymarch(&field, 2, epsilon, &material, ray, near(), fx(5000.0)).unwrap();
        let expected = (distance.raw - radius.raw) as i128;
        assert!(traced.t.raw as i128 <= expected + field_miss);
        assert!(traced.t.raw as i128 > expected - field_miss - epsilon.raw as i128);
        let gap = traced.t.raw as i128 - analytic.t.raw as i128;
        assert!(gap <= field_miss + aimed_ray_tolerance(*distance, *radius));
        assert!(to_f64(traced.t) - to_f64(analytic.t) < 1e-3);
        assert!(to_f64(analytic.t) - to_f64(traced.t) < 1e-3);
        assert!(traced.front_face);
    }
}
