use rand::rngs::StdRng;
use rand::Rng;
use rand::SeedableRng;
use raytracing::math::fixed::Fixed;
use raytracing::math::imaging::{to_color, Camera};
use raytracing::math::materials::Material;
use raytracing::math::math3::Vec3;
use raytracing::math::raytracing::Hittable;
use raytracing::math::imaging::ray_color_along;
use raytracing::math::rng::pixel_rng;
use raytracing::math::sampler::{
    pixel_color, pixel_color_along, pixel_position, pixel_ray, render, sample_color_along,
    PixelSample,
};
use raytracing::math::signed_distance::SignedDistanceField;
use raytracing::scenes::first_fractal::first_fractal_scene;
use raytracing::scenes::spherion::spherion_scene;
use raytracing::scenes::spherion_meets_fractalius::spherion_meets_fractalius_scene;
use raytracing::scenes::three_spheres::three_spheres_scene;

fn fx(x: f64) -> Fixed {
    Fixed::from_raw((x * 4294967296.0).round() as i64)
}

fn vec3(x: f64, y: f64, z: f64) -> Vec3 {
    Vec3::new(fx(x), fx(y), fx(z))
}

fn raw(v: Vec3) -> (i64, i64, i64) {
    (v.x.raw, v.y.raw, v.z.raw)
}

fn camera() -> Camera {
    Camera::new(Vec3::zero(), vec3(0.0, 0.0, -1.0), vec3(0.0, 1.0, 0.0), fx(1.0), fx(2.0))
}

fn sphere_on_ground() -> Hittable {
    Hittable::HittableList(vec![
        Hittable::Sphere(vec3(0.0, 0.0, -1.0), fx(0.5), Material::Lambertian(vec3(0.5, 0.5, 0.5))),
        Hittable::Sphere(vec3(0.0, -100.5, -1.0), fx(100.0), Material::Lambertian(vec3(0.8, 0.8, 0.0))),
    ])
}

fn render_bytes(
    world: &Hittable,
    width: u32,
    height: u32,
    samples: i32,
    depth: i32,
    seed: u64,
) -> Vec<u8> {
    let mut bytes = vec![];
    for color in render(seed, &camera(), world, width, height, samples, depth).iter() {
        bytes.extend_from_slice(&to_color(*color, samples));
    }
    bytes
}

#[test]
fn image_is_made_of_its_pixels() {
    let camera = camera();
    let world = sphere_on_ground();
    let pixels = render(31, &camera, &world, 5, 3, 2, 4);
    assert_eq!(pixels.len(), 15);
    for index in 0..15u32 {
        let mut rng = StdRng::seed_from_u64(31 + index as u64);
        let (x, y) = pixel_position(index, 5);
        let color = pixel_color(&mut rng, &camera, &world, x, y, 5, 3, 2, 4);
        assert_eq!(pixels[index as usize], color);
    }
    assert!(render(31, &camera, &world, 0, 3, 2, 4).is_empty());
    assert!(render(31, &camera, &world, 5, 0, 2, 4).is_empty());
}

#[test]
fn pixel_generators_are_seeded_by_seed_plus_index() {
    let mut a = pixel_rng(40, 2);
    let mut b = StdRng::seed_from_u64(42);
    let mut c = pixel_rng(u64::MAX, 43);
    for _ in 0..10 {
        let expected: u64 = b.gen();
        assert_eq!(a.gen::<u64>(), expected);
        assert_eq!(c.gen::<u64>(), expected);
    }
}

#[test]
fn pixels_are_counted_row_by_row() {
    assert_eq!(pixel_position(0, 4), (0, 0));
    assert_eq!(pixel_position(3, 4), (3, 0));
    assert_eq!(pixel_position(4, 4), (0, 1));
    assert_eq!(pixel_position(7, 4), (3, 1));
    assert_eq!(pixel_position(u32::MAX, 1), (0, u32::MAX));
    assert_eq!(pixel_position(u32::MAX, u32::MAX), (0, 1));
    for index in 0..60u32 {
        let (x, y) = pixel_position(index, 7);
        assert!(x < 7);
        assert_eq!(y * 7 + x, index);
    }
}

#[test]
fn top_row_looks_up() {
    let camera = camera();
    let top = pixel_ray(&camera, 1, 0, 4, 2, fx(0.5), fx(0.25));
    assert_eq!(raw(top.dir), (0, 3573628802, -2382419201));
    let bottom = pixel_ray(&camera, 1, 1, 4, 2, fx(0.5), fx(0.25));
    assert!(bottom.dir.y.raw < 0);
    let left = pixel_ray(&camera, 0, 1, 4, 2, fx(0.0), fx(0.5));
    let right = pixel_ray(&camera, 3, 1, 4, 2, fx(0.0), fx(0.5));
    assert!(left.dir.x.raw < 0 && right.dir.x.raw > 0);
    assert_eq!(left.dir.x.raw, -right.dir.x.raw);
}

#[test]
fn single_pixel_image() {
    let camera = camera();
    let ray = pixel_ray(&camera, 0, 0, 1, 1, Fixed::zero(), Fixed::zero());
    assert_eq!(ray.dir, camera.get_ray(Fixed::zero(), Fixed::zero()).dir);
    let saturated = pixel_ray(&camera, 0, 0, 1, 1, fx(0.5), fx(0.5));
    assert_eq!(saturated.dir, camera.get_ray(Fixed::from_raw(i64::MAX), Fixed::from_raw(i64::MAX)).dir);
}

#[test]
fn pixel_sums_its_samples() {
    let camera = camera();
    let world = sphere_on_ground();
    let draws = vec![
        PixelSample { jitter_u: fx(0.5), jitter_v: fx(0.25), bounces: vec![vec3(0.0, 1.0, 0.0)] },
        PixelSample {
            jitter_u: fx(0.1),
            jitter_v: fx(0.9),
            bounces: vec![vec3(0.0, 0.0, 1.0), vec3(1.0, 0.0, 0.0)],
        },
        PixelSample { jitter_u: fx(0.0), jitter_v: fx(0.0), bounces: vec![] },
    ];
    let expected = [
        ((0, 0), (7650632539i64, 9744340277i64, 12884901888i64), [197u8, 222, 255]),
        ((1, 1), (5690535754, 7365691363, 6442450944), [170, 193, 181]),
        ((2, 1), (6088352263, 8119777345, 4294967296), [175, 203, 147]),
        ((3, 0), (7903377453, 9895987226, 12884901888), [200, 224, 255]),
    ];
    for ((x, y), sum, rgb) in expected.iter() {
        let color = pixel_color_along(&camera, &world, *x, *y, 4, 2, 3, &draws);
        assert_eq!(raw(color), *sum);
        assert_eq!(to_color(color, 3), *rgb);
    }
    assert_eq!(pixel_color_along(&camera, &world, 0, 0, 4, 2, 3, &vec![]), Vec3::zero());
}

#[test]
fn sample_follows_its_ray() {
    let camera = camera();
    let world = sphere_on_ground();
    let sample = PixelSample {
        jitter_u: fx(0.1),
        jitter_v: fx(0.9),
        bounces: vec![vec3(0.0, 0.0, 1.0), vec3(1.0, 0.0, 0.0)],
    };
    for (x, y) in [(0u32, 0u32), (1, 1), (2, 1), (3, 0)].iter() {
        let ray = pixel_ray(&camera, *x, *y, 4, 2, sample.jitter_u, sample.jitter_v);
        let expected = ray_color_along(ray, &world, 3, &sample.bounces);
        assert_eq!(sample_color_along(&camera, &world, *x, *y, 4, 2, 3, &sample), expected);
    }
    let single = vec![PixelSample { jitter_u: fx(0.1), jitter_v: fx(0.9), bounces: vec![] }];
    let only = sample_color_along(&camera, &world, 2, 0, 4, 2, 3, &single[0]);
    assert_eq!(pixel_color_along(&camera, &world, 2, 0, 4, 2, 3, &single), only);
}

#[test]
fn pixel_sum_stays_below_the_number_of_samples() {
    let camera = camera();
    let world = sphere_on_ground();
    let mut rng = StdRng::seed_from_u64(21);
    for index in 0..8u32 {
        let (x, y) = pixel_position(index, 4);
        let sum = pixel_color(&mut rng, &camera, &world, x, y, 4, 2, 5, 6);
        for c in [sum.x, sum.y, sum.z].iter() {
            assert!(0 <= c.raw && c.raw <= 5 * (1i64 << 32));
        }
    }
}

#[test]
fn pixel_without_samples_or_depth_is_black() {
    let camera = camera();
    let world = sphere_on_ground();
    let mut rng = StdRng::seed_from_u64(13);
    assert_eq!(pixel_color(&mut rng, &camera, &world, 1, 1, 4, 2, 0, 5), Vec3::zero());
    assert_eq!(pixel_color(&mut rng, &camera, &world, 1, 1, 4, 2, -2, 5), Vec3::zero());
    assert_eq!(pixel_color(&mut rng, &camera, &world, 1, 1, 4, 2, 7, 0), Vec3::zero());
}

#[test]
fn rendering_is_reproducible() {
    let world = sphere_on_ground();
    assert_eq!(render_bytes(&world, 8, 4, 3, 4, 2024), render_bytes(&world, 8, 4, 3, 4, 2024));
    assert_ne!(render_bytes(&world, 8, 4, 3, 4, 2024), render_bytes(&world, 8, 4, 3, 4, 2025));
}

#[test]
fn lambertian_sphere_on_ground_baseline() {
    let world = sphere_on_ground();
    let bytes = render_bytes(&world, 8, 4, 1, 1, 7);
    let recorded: [u8; 96] = [
        203, 225, 255, 196, 222, 255, 194, 220, 255, 189, 218, 255, 194, 221, 255, 197, 222, 255,
        200, 224, 255, 199, 223, 255, 205, 226, 255, 206, 227, 255, 197, 222, 255, 195, 221, 255,
        202, 225, 255, 201, 224, 255, 214, 231, 255, 211, 230, 255, 0, 0, 0, 214, 232, 255, 0, 0,
        0, 0, 0, 0, 0, 0, 0, 221, 235, 255, 220, 235, 255, 0, 0, 0, 0, 0, 0, 0, 0, 0, 0, 0, 0, 0,
        0, 0, 0, 0, 0, 0, 0, 0, 0, 0, 0, 0, 0, 0,
    ];
    assert_eq!(bytes, recorded.to_vec());
}

#[test]
fn lambertian_sphere_on_ground_with_bounces_baseline() {
    let world = sphere_on_ground();
    let bytes = render_bytes(&world, 8, 4, 4, 5, 7);
    let recorded: [u8; 96] = [
        198, 223, 255, 197, 222, 255, 191, 219, 255, 188, 218, 255, 192, 220, 255, 198, 223, 255,
        199, 223, 255, 204, 226, 255, 206, 227, 255, 205, 227, 255, 202, 225, 255, 172, 193, 221,
        204, 226, 255, 205, 227, 255, 209, 229, 255, 213, 231, 255, 198, 217, 181, 209, 226, 221,
        144, 159, 128, 141, 154, 128, 143, 157, 156, 212, 227, 221, 211, 227, 221, 210, 226, 221,
        174, 197, 0, 170, 195, 0, 140, 158, 0, 152, 170, 0, 160, 182, 0, 158, 181, 0,
        159, 181, 0, 169, 195, 0,
    ];
    assert_eq!(bytes, recorded.to_vec());
}

#[test]
fn scenes_hold_their_shapes() {
    let counts = [
        (first_fractal_scene(), 3usize, 1usize),
        (spherion_scene(), 9, 0),
        (spherion_meets_fractalius_scene(), 10, 1),
        (three_spheres_scene(), 4, 0),
    ];
    for (scene, shapes, fractals) in counts.iter() {
        match scene {
            Hittable::HittableList(members) => {
                assert_eq!(members.len(), *shapes);
                let marched = members.iter().filter(|m| matches!(m, Hittable::Raymarcher(..))).count();
                assert_eq!(marched, *fractals);
                match &members[0] {
                    Hittable::Sphere(center, radius, _) => {
                        assert_eq!(raw(*center), (0, -431644213248, -4294967296));
                        assert_eq!(*radius, fx(100.0));
                    }
                    _ => panic!("the ground comes first"),
                }
            }
            _ => panic!("a scene is a list"),
        }
    }
}

#[test]
fn first_fractal_scene_members() {
    match first_fractal_scene() {
        Hittable::HittableList(members) => {
            match &members[0] {
                Hittable::Sphere(_, _, material) => assert_eq!(
                    *material,
                    Material::Metal(
                        Vec3::new(Fixed::from_ratio(1, 10), Fixed::from_ratio(8, 10), Fixed::from_ratio(4, 10)),
                        Fixed::from_ratio(1, 100)
                    )
                ),
                _ => panic!("the ground is a sphere"),
            }
            match &members[1] {
                Hittable::Raymarcher(field, steps, epsilon, material) => {
                    assert_eq!(
                        *field,
                        SignedDistanceField::SierpinskiTetrasphere(
                            Vec3::new(Fixed::zero(), Fixed::from_ratio(52, 100), Fixed::zero()),
                            8
                        )
                    );
                    assert_eq!(*steps, 100);
                    assert_eq!(epsilon.raw, 21474);
                    assert_eq!(
                        *material,
                        Material::Lambertian(Vec3::new(
                            Fixed::from_ratio(5, 10),
                            Fixed::from_ratio(4, 10),
                            Fixed::from_ratio(7, 10)
                        ))
                    );
                }
                _ => panic!("the fractal comes second"),
            }
        }
        _ => panic!("a scene is a list"),
    }
}

#[test]
fn three_spheres_scene_members() {
    match three_spheres_scene() {
        Hittable::HittableList(members) => {
            match &members[1] {
                Hittable::Sphere(center, radius, material) => {
                    assert_eq!(*center, vec3(0.0, 0.0, -1.0));
                    assert_eq!(*radius, fx(0.5));
                    assert_eq!(
                        *material,
                        Material::Lambertian(Vec3::new(
                            Fixed::from_ratio(5, 10),
                            Fixed::from_ratio(4, 10),
                            Fixed::from_ratio(7, 10)
                        ))
                    );
                }
                _ => panic!("a sphere"),
            }
            match &members[2] {
                Hittable::Sphere(center, _, Material::Metal(_, fuzz)) => {
                    assert_eq!(*center, vec3(1.0, 0.0, -1.0));
                    assert_eq!(*fuzz, Fixed::from_ratio(7, 10));
                }
                _ => panic!("a metal sphere"),
            }
        }
        _ => panic!("a scene is a list"),
    }
}

#[test]
fn scenes_render() {
    let scenes = [
        first_fractal_scene(),
        spherion_scene(),
        spherion_meets_fractalius_scene(),
        three_spheres_scene(),
    ];
    for scene in scenes.iter() {
        let a = render_bytes(scene, 6, 3, 2, 4, 1);
        let b = render_bytes(scene, 6, 3, 2, 4, 1);
        assert_eq!(a.len(), 6 * 3 * 3);
        assert_eq!(a, b);
    }
}

#[test]
fn scenes_give_back_no_more_light_than_they_receive() {
    let scenes = [
        first_fractal_scene(),
        spherion_scene(),
        spherion_meets_fractalius_scene(),
        three_spheres_scene(),
    ];
    let camera = Camera::new(
        vec3(-3.3, 2.0, 1.75),
        Vec3::zero(),
        vec3(0.0, 1.0, 0.0),
        fx(0.41421356237),
        fx(2.0),
    );
    for scene in scenes.iter() {
        for sum in render(5, &camera, scene, 6, 3, 3, 5).iter() {
            for c in [sum.x, sum.y, sum.z].iter() {
                assert!(0 <= c.raw && c.raw <= 3 * (1i64 << 32));
            }
        }
    }
}
