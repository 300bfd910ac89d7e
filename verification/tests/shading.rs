use rand::rngs::StdRng;
use rand::SeedableRng;
use raytracing::math::fixed::{Fixed, ONE_RAW};
use raytracing::math::imaging::{ray_color, ray_color_along, to_color, Camera};
use raytracing::math::materials::Material;
use raytracing::math::math3::{dot, Vec3};
use raytracing::math::raytracing::{HitRecord, Hittable, Ray};

fn fx(x: f64) -> Fixed {
    Fixed::from_raw((x * 4294967296.0).round() as i64)
}

fn vec3(x: f64, y: f64, z: f64) -> Vec3 {
    Vec3::new(fx(x), fx(y), fx(z))
}

fn raw(v: Vec3) -> (i64, i64, i64) {
    (v.x.raw, v.y.raw, v.z.raw)
}

fn sky_blue() -> Vec3 {
    Vec3::new(Fixed::from_ratio(1, 2), Fixed::from_ratio(7, 10), Fixed::from_int(1))
}

fn two_spheres() -> Hittable {
    Hittable::HittableList(vec![
        Hittable::Sphere(vec3(0.0, 0.0, -1.0), fx(0.5), Material::Lambertian(vec3(0.5, 0.5, 0.5))),
        Hittable::Sphere(vec3(0.0, -100.5, -1.0), fx(100.0), Material::Lambertian(vec3(0.8, 0.8, 0.0))),
    ])
}

fn metal_over_absorber() -> Hittable {
    Hittable::HittableList(vec![
        Hittable::Sphere(vec3(0.0, 0.0, -1.0), fx(0.5), Material::Metal(vec3(0.8, 0.6, 0.2), fx(0.25))),
        Hittable::Sphere(vec3(0.0, -100.5, -1.0), fx(100.0), Material::Absorb),
    ])
}

#[test]
fn metal_constructor_clamps_fuzz() {
    let albedo = vec3(0.8, 0.6, 0.2);
    assert_eq!(Material::metal(albedo, fx(0.3)), Material::Metal(albedo, fx(0.3)));
    assert_eq!(Material::metal(albedo, fx(1.7)), Material::Metal(albedo, fx(1.0)));
    assert_eq!(Material::metal(albedo, fx(-0.2)), Material::Metal(albedo, fx(0.0)));
    assert_eq!(Material::metal(albedo, fx(1.0)), Material::Metal(albedo, fx(1.0)));
    assert_eq!(Material::metal(albedo, fx(0.0)), Material::Metal(albedo, fx(0.0)));
}

#[test]
fn lambertian_scatters_along_normal_plus_sample() {
    let material = Material::Lambertian(vec3(0.5, 0.5, 0.5));
    let ray = Ray::new(Vec3::zero(), vec3(0.0, 0.0, -1.0));
    let hit = HitRecord::new(vec3(0.0, 0.0, -3.0), vec3(0.0, 0.0, 1.0), &material, fx(3.0), true);
    let (scattered, attenuation) = material.scatter_with(&ray, hit, vec3(0.6, 0.8, 0.0)).unwrap();
    assert_eq!(scattered.origin, vec3(0.0, 0.0, -3.0));
    assert_eq!(raw(scattered.dir), (1822200300, 2429600400, 3037000499));
    assert_eq!(attenuation, vec3(0.5, 0.5, 0.5));
}

#[test]
fn metal_without_fuzz_mirrors_the_ray() {
    let material = Material::Metal(vec3(0.8, 0.6, 0.2), fx(0.0));
    let ray = Ray::new(Vec3::zero(), vec3(1.0, 0.0, -1.0));
    let point = ray.at(fx(3.0));
    let hit = HitRecord::new(point, vec3(0.0, 0.0, 1.0), &material, fx(3.0), true);
    let (scattered, attenuation) = material.scatter_with(&ray, hit, Vec3::zero()).unwrap();
    assert_eq!(raw(scattered.origin), (9111001500, 0, -9111001500));
    assert_eq!(raw(scattered.dir), (3037000500, 0, 3037000500));
    assert_eq!(raw(attenuation), (3435973837, 2576980378, 858993459));
}

#[test]
fn metal_with_fuzz_adds_the_scaled_sample() {
    let material = Material::Metal(vec3(0.8, 0.6, 0.2), fx(0.5));
    let ray = Ray::new(Vec3::zero(), vec3(1.0, 0.0, -1.0));
    let hit = HitRecord::new(ray.at(fx(3.0)), vec3(0.0, 0.0, 1.0), &material, fx(3.0), true);
    let (scattered, _) = material.scatter_with(&ray, hit, vec3(0.2, -0.4, 0.1)).unwrap();
    assert_eq!(raw(scattered.dir), (3082540335, -763849445, 2891577974));
    assert!(dot(scattered.dir, hit.normal).raw > 0);
}

#[test]
fn metal_absorbs_what_fuzz_drives_below_the_surface() {
    let material = Material::Metal(vec3(0.8, 0.6, 0.2), fx(1.0));
    let ray = Ray::new(Vec3::zero(), vec3(1.0, 0.0, -1.0));
    let hit = HitRecord::new(ray.at(fx(3.0)), vec3(0.0, 0.0, 1.0), &material, fx(3.0), true);
    assert!(material.scatter_with(&ray, hit, vec3(0.0, 0.0, -1.0)).is_none());
    assert!(material.scatter_with(&ray, hit, vec3(0.0, 0.0, -0.9)).is_none());
    assert!(material.scatter_with(&ray, hit, vec3(0.0, 0.0, -0.5)).is_some());
}

#[test]
fn absorber_never_scatters() {
    let material = Material::Absorb;
    let ray = Ray::new(Vec3::zero(), vec3(0.0, 0.0, -1.0));
    let hit = HitRecord::new(vec3(0.0, 0.0, -3.0), vec3(0.0, 0.0, 1.0), &material, fx(3.0), true);
    assert!(material.scatter_with(&ray, hit, vec3(0.0, 1.0, 0.0)).is_none());
    let mut rng = StdRng::seed_from_u64(5);
    for _ in 0..20 {
        assert!(material.scatter(&mut rng, &ray, hit).is_none());
    }
}

#[test]
fn random_scatter_keeps_origin_and_albedo() {
    let mut rng = StdRng::seed_from_u64(6);
    let ray = Ray::new(Vec3::zero(), vec3(1.0, 0.0, -1.0));
    let diffuse = Material::Lambertian(vec3(0.5, 0.4, 0.7));
    let hit = HitRecord::new(ray.at(fx(3.0)), vec3(0.0, 0.0, 1.0), &diffuse, fx(3.0), true);
    let mut directions = vec![];
    for _ in 0..50 {
        let (scattered, attenuation) = diffuse.scatter(&mut rng, &ray, hit).unwrap();
        assert_eq!(scattered.origin, hit.point);
        assert_eq!(attenuation, vec3(0.5, 0.4, 0.7));
        directions.push(scattered.dir);
    }
    assert!(directions.iter().any(|d| *d != directions[0]));
    let metal = Material::metal(vec3(0.8, 0.8, 0.8), fx(0.9));
    let hit = HitRecord::new(ray.at(fx(3.0)), vec3(0.0, 0.0, 1.0), &metal, fx(3.0), true);
    let mut scattered_some = false;
    for _ in 0..50 {
        if let Some((scattered, attenuation)) = metal.scatter(&mut rng, &ray, hit) {
            assert_eq!(scattered.origin, hit.point);
            assert_eq!(attenuation, vec3(0.8, 0.8, 0.8));
            assert!(dot(scattered.dir, hit.normal).raw > 0);
            scattered_some = true;
        }
    }
    assert!(scattered_some);
}

#[test]
fn drawn_samples_fit_the_unit_cube() {
    let mut rng = StdRng::seed_from_u64(8);
    let materials = [
        Material::Lambertian(vec3(0.5, 0.5, 0.5)),
        Material::Metal(vec3(0.5, 0.5, 0.5), fx(0.5)),
        Material::Absorb,
    ];
    for material in materials.iter() {
        for _ in 0..50 {
            let s = material.draw_sample(&mut rng);
            assert!(s.x.raw.abs() <= ONE_RAW && s.y.raw.abs() <= ONE_RAW && s.z.raw.abs() <= ONE_RAW);
        }
    }
    assert_eq!(Material::Absorb.draw_sample(&mut rng), Vec3::zero());
    for _ in 0..50 {
        let direction = materials[0].draw_sample(&mut rng);
        assert!(ONE_RAW - 4 <= direction.length().raw && direction.length().raw <= ONE_RAW + 1);
        let point = materials[1].draw_sample(&mut rng);
        assert!(point.length_squared().raw <= ONE_RAW);
    }
}

#[test]
fn no_depth_no_light() {
    let mut rng = StdRng::seed_from_u64(9);
    let worlds = [two_spheres(), metal_over_absorber(), Hittable::HittableList(vec![])];
    let rays = [
        Ray::new(Vec3::zero(), vec3(0.0, 0.0, -1.0)),
        Ray::new(Vec3::zero(), vec3(0.0, 1.0, 0.0)),
        Ray::new(vec3(3.0, -2.0, 1.0), vec3(0.3, -0.5, 0.8)),
    ];
    for world in worlds.iter() {
        for ray in rays.iter() {
            assert_eq!(ray_color(&mut rng, *ray, world, 0), Vec3::zero());
            assert_eq!(ray_color(&mut rng, *ray, world, -3), Vec3::zero());
            assert_eq!(ray_color_along(*ray, world, 0, &vec![vec3(0.0, 1.0, 0.0)]), Vec3::zero());
            assert_eq!(ray_color_along(*ray, world, i32::MIN, &vec![]), Vec3::zero());
        }
    }
}

#[test]
fn empty_scene_shows_the_sky() {
    let mut rng = StdRng::seed_from_u64(10);
    let nothing = Hittable::HittableList(vec![]);
    let up = Ray::new(Vec3::zero(), vec3(0.0, 1.0, 0.0));
    let down = Ray::new(Vec3::zero(), vec3(0.0, -1.0, 0.0));
    assert_eq!(up.dir.y, Fixed::one());
    assert_eq!(ray_color(&mut rng, up, &nothing, 5), sky_blue());
    assert_eq!(ray_color(&mut rng, down, &nothing, 5), Vec3::one());
    assert_eq!(ray_color_along(up, &nothing, 1, &vec![]), sky_blue());
    assert_eq!(ray_color_along(down, &nothing, 1, &vec![]), Vec3::one());
    assert_eq!(raw(sky_blue()), (2147483648, 3006477107, 4294967296));
}

#[test]
fn background_blends_white_into_sky_blue() {
    let nothing = Hittable::HittableList(vec![]);
    let level = Ray::new(Vec3::zero(), vec3(1.0, 0.0, 0.0));
    assert_eq!(raw(ray_color_along(level, &nothing, 1, &vec![])), (3221225472, 3650722201, 4294967296));
    let slanted = Ray::new(Vec3::zero(), vec3(0.3, -0.5, 0.8));
    assert_eq!(raw(ray_color_along(slanted, &nothing, 1, &vec![])), (3763546990, 3976115112, 4294967296));
}

#[test]
fn radiance_along_given_samples() {
    let world = two_spheres();
    let ray = Ray::new(Vec3::zero(), vec3(0.0, 0.0, -1.0));
    assert_eq!(ray_color_along(ray, &world, 1, &vec![vec3(0.0, 1.0, 0.0)]), Vec3::zero());
    assert_eq!(
        raw(ray_color_along(ray, &world, 2, &vec![vec3(0.0, 1.0, 0.0)])),
        (1230987673, 1597586063, 2147483648)
    );
    assert_eq!(
        raw(ray_color_along(ray, &world, 2, &vec![vec3(0.0, 0.0, 1.0)])),
        (1610612736, 1825361100, 2147483648)
    );
    assert_eq!(
        raw(ray_color_along(ray, &world, 3, &vec![vec3(0.6, -0.8, 0.0), vec3(0.0, 0.6, 0.8)])),
        (905433061, 1230454604, 0)
    );
    assert_eq!(
        raw(ray_color_along(ray, &world, 5, &vec![vec3(0.0, -1.0, 0.0)])),
        (859015152, 1202603858, 0)
    );
    assert_eq!(raw(ray_color_along(ray, &world, 2, &vec![])), (1610612736, 1825361100, 2147483648));
    let down = Ray::new(Vec3::zero(), vec3(0.2, -1.0, -1.0));
    let samples = vec![vec3(1.0, 0.0, 0.0), vec3(0.0, 0.0, -1.0), vec3(0.0, 1.0, 0.0)];
    assert_eq!(raw(ray_color_along(down, &world, 4, &samples)), (1969892389, 2556324968, 0));
}

#[test]
fn radiance_off_metal_and_absorber() {
    let world = metal_over_absorber();
    let glancing = Ray::new(Vec3::zero(), vec3(0.1, 0.1, -1.0));
    assert_eq!(
        raw(ray_color_along(glancing, &world, 3, &vec![vec3(0.5, 0.5, 0.5)])),
        (2275773173, 2054890079, 858993459)
    );
    let into_ground = Ray::new(Vec3::zero(), vec3(0.0, -0.2, -1.0));
    assert_eq!(ray_color_along(into_ground, &world, 3, &vec![vec3(0.0, -0.9, 0.0)]), Vec3::zero());
    let at_ground = Ray::new(Vec3::zero(), vec3(0.0, -1.0, -0.1));
    assert_eq!(ray_color_along(at_ground, &world, 3, &vec![vec3(0.0, -0.9, 0.0)]), Vec3::zero());
    let mut rng = StdRng::seed_from_u64(11);
    for _ in 0..20 {
        assert_eq!(ray_color(&mut rng, at_ground, &world, 5), Vec3::zero());
    }
}

#[test]
fn random_radiance_is_the_background_where_nothing_is_hit() {
    let mut rng = StdRng::seed_from_u64(12);
    let world = two_spheres();
    let up = Ray::new(Vec3::zero(), vec3(0.0, 1.0, 0.0));
    assert_eq!(ray_color(&mut rng, up, &world, 4), sky_blue());
    let ray = Ray::new(Vec3::zero(), vec3(0.0, 0.0, -1.0));
    assert_eq!(ray_color(&mut rng, ray, &world, 1), Vec3::zero());
    for _ in 0..20 {
        let c = ray_color(&mut rng, ray, &world, 6);
        assert!(0 <= c.x.raw && c.x.raw <= ONE_RAW);
        assert!(0 <= c.y.raw && c.y.raw <= ONE_RAW);
        assert!(0 <= c.z.raw && c.z.raw <= ONE_RAW);
    }
}

#[test]
fn camera_straight_ahead() {
    let camera = Camera::new(Vec3::zero(), vec3(0.0, 0.0, -1.0), vec3(0.0, 1.0, 0.0), fx(1.0), fx(2.0));
    assert_eq!(camera.origin, Vec3::zero());
    assert_eq!(camera.lower_left_corner, vec3(-2.0, -1.0, -1.0));
    assert_eq!(camera.horizontal, vec3(4.0, 0.0, 0.0));
    assert_eq!(camera.vertical, vec3(0.0, 2.0, 0.0));
    let center = camera.get_ray(fx(0.5), fx(0.5));
    assert_eq!(center.origin, Vec3::zero());
    assert_eq!(center.dir, vec3(0.0, 0.0, -1.0));
    assert_eq!(raw(camera.get_ray(fx(0.0), fx(0.0)).dir), (-3506826112, -1753413056, -1753413056));
    assert_eq!(raw(camera.get_ray(fx(1.0), fx(1.0)).dir), (3506826112, 1753413056, -1753413056));
}

#[test]
fn camera_looking_down_at_the_origin() {
    let camera = Camera::new(
        vec3(-3.3, 2.0, 1.75),
        Vec3::zero(),
        vec3(0.0, 1.0, 0.0),
        fx(0.41421356237),
        fx(1.7857142857),
    );
    assert_eq!(raw(camera.origin), (-14173392077, 8589934592, 7516192768));
    assert_eq!(raw(camera.lower_left_corner), (-13058525762, 4994223758, 3329070660));
    assert_eq!(raw(camera.horizontal), (2976721316, 0, 5613245913));
    assert_eq!(raw(camera.vertical), (1483780378, 3136734201, -786853230));
    let ray = camera.get_ray(fx(0.25), fx(0.75));
    assert_eq!(raw(ray.dir), (2736221629, -1144581739, -3106407557));
}

#[test]
fn colours_are_gamma_corrected_and_quantised() {
    assert_eq!(to_color(vec3(1.0, 1.0, 1.0), 1), [255, 255, 255]);
    assert_eq!(to_color(vec3(0.25, 0.0, 4.0), 1), [128, 0, 255]);
    assert_eq!(to_color(vec3(50.0, 12.5, 200.0), 100), [181, 90, 255]);
    assert_eq!(to_color(vec3(-1.0, 0.0001, 0.998), 1), [0, 2, 255]);
    assert_eq!(to_color(Vec3::zero(), 10), [0, 0, 0]);
}

#[test]
fn colours_of_no_samples() {
    assert_eq!(to_color(vec3(1.0, 1.0, 1.0), 0), [255, 255, 255]);
    assert_eq!(to_color(vec3(1.0, 2.0, 3.0), -1), [0, 0, 0]);
}

#[test]
fn with_one_bounce_a_hit_is_black_and_a_miss_is_the_sky() {
    let mut rng = StdRng::seed_from_u64(14);
    let worlds = [two_spheres(), metal_over_absorber()];
    let at_the_sphere = Ray::new(Vec3::zero(), vec3(0.0, 0.0, -1.0));
    let at_the_ground = Ray::new(Vec3::zero(), vec3(0.3, -1.0, -0.2));
    let at_the_sky = Ray::new(Vec3::zero(), vec3(0.0, 1.0, 0.0));
    for world in worlds.iter() {
        for _ in 0..10 {
            assert_eq!(ray_color(&mut rng, at_the_sphere, world, 1), Vec3::zero());
            assert_eq!(ray_color(&mut rng, at_the_ground, world, 1), Vec3::zero());
            assert_eq!(ray_color(&mut rng, at_the_sky, world, 1), sky_blue());
        }
    }
}

#[test]
fn camera_axes_have_length_one_and_stand_at_right_angles() {
    let views = [
        (vec3(-3.3, 2.0, 1.75), Vec3::zero(), vec3(0.0, 1.0, 0.0)),
        (Vec3::zero(), vec3(0.0, 0.0, -1.0), vec3(0.0, 1.0, 0.0)),
        (vec3(13.0, 2.0, 3.0), vec3(0.5, -0.25, 0.0), vec3(0.1, 1.0, -0.2)),
        (vec3(0.0, 5.0, 0.1), Vec3::zero(), vec3(0.0, 0.0, -3.0)),
    ];
    for (lookfrom, lookat, vup) in views.iter() {
        let camera = Camera::new(*lookfrom, *lookat, *vup, fx(0.5), fx(1.0));
        let u = camera.horizontal;
        let v = camera.vertical;
        let w = camera.origin - camera.lower_left_corner - u / fx(2.0) - v / fx(2.0);
        assert!(ONE_RAW - 4 <= u.length().raw && u.length().raw <= ONE_RAW + 1);
        assert!(ONE_RAW - 21 <= v.length().raw && v.length().raw <= ONE_RAW + 18);
        assert!((w.length().raw - ONE_RAW).abs() <= 8);
        assert!(dot(u, v).raw.abs() <= 8);
        assert!(dot(u, w).raw.abs() <= 20);
        assert!(dot(v, w).raw.abs() <= 12);
    }
}
