//! The camera, the radiance estimator and the way from radiance to a
//! pixel.
use vstd::prelude::*;
use rand::rngs::StdRng;
use crate::math::fixed::{magnitude, Fixed, ONE_RAW};
use crate::math::math3::{cross, cross_spec, Vec3};
use crate::math::radiance_laws::{is_color, lemma_background_is_color, lemma_radiance_is_color};
use crate::math::raytracing::{Hittable, Ray};

verus! {

/// A pinhole camera: the eye and the viewport that it looks through.
pub struct Camera {
    pub origin: Vec3,
    pub lower_left_corner: Vec3,
    pub horizontal: Vec3,
    pub vertical: Vec3,
}

impl Camera {
    /// The camera at `lookfrom` that looks at `lookat`, with `vup`
    /// pointing up. The viewport lies one unit ahead; it is twice
    /// `half_height` high and `aspect_ratio` times as wide.
    pub open spec fn new_spec(
        lookfrom: Vec3,
        lookat: Vec3,
        vup: Vec3,
        half_height: Fixed,
        aspect_ratio: Fixed,
    ) -> Camera {
        let viewport_height = Fixed::int_spec(2).times(half_height);
        let viewport_width = aspect_ratio.times(viewport_height);
        let w = lookfrom.minus(lookat).unit_vector_spec();
        let u = cross_spec(vup, w).unit_vector_spec();
        let v = cross_spec(w, u);
        let horizontal = u.scaled(viewport_width);
        let vertical = v.scaled(viewport_height);
        Camera {
            origin: lookfrom,
            horizontal,
            vertical,
            lower_left_corner: lookfrom.minus(w).minus(horizontal.over(Fixed::int_spec(2))).minus(
                vertical.over(Fixed::int_spec(2)),
            ),
        }
    }

    /// The ray from the eye through the point of the viewport at `u` of
    /// its width and `v` of its height.
    pub open spec fn get_ray_spec(self, u: Fixed, v: Fixed) -> Ray {
        Ray::new_spec(
            self.origin,
            self.lower_left_corner.minus(self.origin).plus(self.horizontal.scaled(u)).plus(
                self.vertical.scaled(v),
            ),
        )
    }

    /// Builds the camera. `half_height` is the tangent of half the
    /// vertical field of view.
    pub fn new(
        lookfrom: Vec3,
        lookat: Vec3,
        vup: Vec3,
        half_height: Fixed,
        aspect_ratio: Fixed,
    ) -> (camera: Camera)
        ensures
            camera == Camera::new_spec(lookfrom, lookat, vup, half_height, aspect_ratio),
    {
        let viewport_height = Fixed::from_int(2) * half_height;
        let viewport_width = aspect_ratio * viewport_height;

        let w = (lookfrom - lookat).unit_vector();
        let u = cross(vup, w).unit_vector();
        let v = cross(w, u);

        let origin = lookfrom;
        let horizontal = viewport_width * u;
        let vertical = viewport_height * v;

        Camera {
            origin,
            horizontal,
            vertical,
            lower_left_corner: origin - w - horizontal / Fixed::from_int(2) - vertical
                / Fixed::from_int(2),
        }
    }

    pub fn get_ray(&self, u: Fixed, v: Fixed) -> (ray: Ray)
        ensures
            ray == self.get_ray_spec(u, v),
    {
        Ray::new(
            self.origin,
            self.lower_left_corner - self.origin + u * self.horizontal + v * self.vertical,
        )
    }
}

/// The number moved into `[min, max]` if it lies outside.
pub open spec fn clamp_spec(x: Fixed, min: Fixed, max: Fixed) -> Fixed {
    if x.raw < min.raw {
        min
    } else if x.raw > max.raw {
        max
    } else {
        x
    }
}

/// The eight-bit level of a gamma-corrected channel: the channel is
/// clamped to `[0, 0.999]`, multiplied by 256 and rounded down.
pub open spec fn quantize_spec(channel: Fixed) -> int {
    Fixed::int_spec(256).times(
        clamp_spec(channel, Fixed { raw: 0 }, Fixed::ratio_spec(999, 1000)),
    ).floor_spec()
}

/// The colour that the summed radiance of a pixel's samples is stored
/// as: the mean, its square root for gamma correction, then quantised.
pub open spec fn to_color_spec(pixel_color: Vec3, samples_per_pixel: i32) -> Seq<u8> {
    let corrected = pixel_color.over(Fixed::int_spec(samples_per_pixel as int)).sqrt_spec();
    seq![
        quantize_spec(corrected.x) as u8,
        quantize_spec(corrected.y) as u8,
        quantize_spec(corrected.z) as u8,
    ]
}

/// A quantised level fits eight bits.
pub proof fn lemma_quantize_range(channel: Fixed)
    ensures
        0 <= quantize_spec(channel) <= 255,
{
    let clamped = clamp_spec(channel, Fixed { raw: 0 }, Fixed::ratio_spec(999, 1000));
    assert(Fixed::ratio_spec(999, 1000).raw == 4290672328) by {
        assert(999 * ONE_RAW == 4290672328704);
        assert(4290672328704int / 1000 == 4290672328);
    }
    assert(0 <= clamped.raw <= 4290672328);
    let product = Fixed::int_spec(256).raw * clamped.raw;
    assert(Fixed::int_spec(256).raw == 1099511627776);
    assert(product == 1099511627776 * clamped.raw);
    assert(magnitude(product) == product);
    assert(product / 4294967296 == 256 * clamped.raw);
    assert(Fixed::int_spec(256).times(clamped).raw == 256 * clamped.raw);
}

/// The nearest ray parameter at which a surface counts as hit: a little
/// off the origin, so that a scattered ray does not meet the surface it
/// leaves.
pub open spec fn nearest_hit_spec() -> Fixed {
    Fixed::ratio_spec(1, 1000)
}

/// The farthest ray parameter at which a surface counts as hit.
pub open spec fn farthest_hit_spec() -> Fixed {
    Fixed::int_spec(100)
}

/// The light of the sky along the ray: white at the bottom, blended
/// into sky blue, `(0.5, 0.7, 1.0)`, at the top.
pub open spec fn background_spec(ray: Ray) -> Vec3 {
    let unit_ray_dir = ray.dir.unit_vector_spec();
    let t = Fixed::ratio_spec(1, 2).times(unit_ray_dir.y.plus(Fixed::int_spec(1)));
    let sky_blue = Vec3 {
        x: Fixed::ratio_spec(1, 2),
        y: Fixed::ratio_spec(7, 10),
        z: Fixed::int_spec(1),
    };
    Vec3::one_spec().scaled(Fixed::int_spec(1).minus(t)).plus(sky_blue.scaled(t))
}

/// The sample that the next bounce scatters with, the zero vector once
/// the samples are used up.
pub open spec fn first_sample(samples: Seq<Vec3>) -> Vec3 {
    if samples.len() > 0 {
        samples[0]
    } else {
        Vec3::zero_spec()
    }
}

/// The samples that are left for the bounces after the next.
pub open spec fn later_samples(samples: Seq<Vec3>) -> Seq<Vec3> {
    if samples.len() > 0 {
        samples.subrange(1, samples.len() as int)
    } else {
        samples
    }
}

/// The radiance that arrives along the ray, where bounce number `i`
/// scatters with the `i`-th of `samples`.
///
/// With no depth left it is black. A ray that misses the scene sees the
/// background. A ray that hits asks the material: if it scatters, the
/// radiance along the scattered ray, found with one depth less, is
/// attenuated component by component; if it does not, the radiance is
/// black.
pub open spec fn ray_color_spec(
    ray: Ray,
    hittable: Hittable,
    depth: int,
    samples: Seq<Vec3>,
) -> Vec3
    decreases depth,
{
    if depth <= 0 {
        Vec3::zero_spec()
    } else {
        match hittable.hit_spec(ray, nearest_hit_spec(), farthest_hit_spec()) {
            Some(hit_record) => match hit_record.material.scatter_spec(
                ray,
                hit_record,
                first_sample(samples),
            ) {
                Some((scattered, attenuation)) => attenuation.times(
                    ray_color_spec(scattered, hittable, depth - 1, later_samples(samples)),
                ),
                None => Vec3::zero_spec(),
            },
            None => background_spec(ray),
        }
    }
}

/// Whether the samples can be those of the bounces along the ray: at
/// each hit that the depth allows, the material that is hit admits the
/// sample of that bounce, and so on along the scattered ray.
pub open spec fn samples_admitted(
    ray: Ray,
    hittable: Hittable,
    depth: int,
    samples: Seq<Vec3>,
) -> bool
    decreases depth,
{
    if depth <= 0 {
        true
    } else {
        match hittable.hit_spec(ray, nearest_hit_spec(), farthest_hit_spec()) {
            Some(hit_record) => hit_record.material.admits(first_sample(samples))
                && match hit_record.material.scatter_spec(ray, hit_record, first_sample(samples)) {
                Some((scattered, _)) => samples_admitted(
                    scattered,
                    hittable,
                    depth - 1,
                    later_samples(samples),
                ),
                None => true,
            },
            None => true,
        }
    }
}

fn background(ray: &Ray) -> (color: Vec3)
    ensures
        color == background_spec(*ray),
{
    let unit_ray_dir = ray.dir.unit_vector();
    let t = Fixed::from_ratio(1, 2) * (unit_ray_dir.y() + Fixed::from_int(1));
    (Fixed::from_int(1) - t) * Vec3::one() + t * Vec3::new(
        Fixed::from_ratio(1, 2),
        Fixed::from_ratio(7, 10),
        Fixed::from_int(1),
    )
}

/// The radiance along the ray, estimated with at most `depth` bounces.
///
/// Whatever the generator returns, the estimate is that of
/// `ray_color_spec` for some samples that the materials along the way
/// admit. With no depth it is black, a ray that misses the scene sees
/// the background, with a depth of one a ray that hits sees black, and
/// in a scene whose materials conserve light the estimate is a colour.
pub fn ray_color(
    rng_source: &mut StdRng,
    ray: Ray,
    hittable: &Hittable,
    depth: i32,
) -> (color: Vec3)
    ensures
        depth <= 0 ==> color == Vec3::zero_spec(),
        depth > 0 && hittable.hit_spec(ray, nearest_hit_spec(), farthest_hit_spec()) is None
            ==> color == background_spec(ray),
        depth == 1 && hittable.hit_spec(ray, nearest_hit_spec(), farthest_hit_spec()) is Some
            ==> color == Vec3::zero_spec(),
        hittable.conserves() ==> is_color(color),
        exists|samples: Seq<Vec3>|
            samples_admitted(ray, *hittable, depth as int, samples) && color
                == #[trigger] ray_color_spec(ray, *hittable, depth as int, samples),
    decreases depth,
{
    if depth <= 0 {
        proof {
            lemma_path_ends(ray, *hittable, depth as int);
        }
        Vec3::zero()
    } else {
        let nearest = Fixed::from_ratio(1, 1000);
        let farthest = Fixed::from_int(100);
        if let Some(hit_record) = hittable.hit(&ray, nearest, farthest) {
            let scatter_result = hit_record.material.scatter(rng_source, &ray, hit_record);
            let ghost sample = choose|sample: Vec3|
                hit_record.material.admits(sample) && scatter_result
                    == #[trigger] hit_record.material.scatter_spec(
                    ray,
                    hit_record,
                    sample,
                );
            if let Some((scattered, attenuation)) = scatter_result {
                let onward = ray_color(rng_source, scattered, hittable, depth - 1);
                proof {
                    let rest = choose|samples: Seq<Vec3>|
                        samples_admitted(scattered, *hittable, depth - 1, samples) && onward
                            == #[trigger] ray_color_spec(scattered, *hittable, depth - 1, samples);
                    lemma_path_goes_on(ray, *hittable, depth as int, sample, rest);
                    if hittable.conserves() {
                        lemma_radiance_is_color(
                            ray,
                            *hittable,
                            depth as int,
                            seq![sample] + rest,
                        );
                    }
                }
                attenuation * onward
            } else {
                proof {
                    lemma_path_is_absorbed(ray, *hittable, depth as int, sample);
                }
                Vec3::zero()
            }
        } else {
            proof {
                lemma_path_ends(ray, *hittable, depth as int);
                lemma_background_is_color(ray);
            }
            background(&ray)
        }
    }
}

/// A path that has no depth left or misses the scene draws no sample.
proof fn lemma_path_ends(ray: Ray, hittable: Hittable, depth: int)
    requires
        depth <= 0 || hittable.hit_spec(ray, nearest_hit_spec(), farthest_hit_spec()) is None,
    ensures
        samples_admitted(ray, hittable, depth, Seq::empty()),
        ray_color_spec(ray, hittable, depth, Seq::empty()) == if depth <= 0 {
            Vec3::zero_spec()
        } else {
            background_spec(ray)
        },
{
}

/// A path that scatters at its first hit goes on with the samples that
/// are left, and its radiance is that of the scattered ray, attenuated.
/// With a depth of one that is black.
proof fn lemma_path_goes_on(
    ray: Ray,
    hittable: Hittable,
    depth: int,
    sample: Vec3,
    rest: Seq<Vec3>,
)
    requires
        depth > 0,
        hittable.hit_spec(ray, nearest_hit_spec(), farthest_hit_spec()) matches Some(hit)
            && hit.material.admits(sample) && (hit.material.scatter_spec(ray, hit, sample)
            matches Some((scattered, _)) && samples_admitted(scattered, hittable, depth - 1, rest)),
    ensures
        samples_admitted(ray, hittable, depth, seq![sample] + rest),
        hittable.hit_spec(ray, nearest_hit_spec(), farthest_hit_spec()) matches Some(hit)
            && hit.material.scatter_spec(ray, hit, sample) matches Some((scattered, attenuation))
            && ray_color_spec(ray, hittable, depth, seq![sample] + rest) == attenuation.times(
            ray_color_spec(scattered, hittable, depth - 1, rest),
        ),
        depth == 1 ==> ray_color_spec(ray, hittable, depth, seq![sample] + rest)
            == Vec3::zero_spec(),
{
    let all = seq![sample] + rest;
    assert(first_sample(all) == sample);
    assert(later_samples(all) =~= rest);
    if depth == 1 {
        let hit = hittable.hit_spec(ray, nearest_hit_spec(), farthest_hit_spec())->Some_0;
        let attenuation = hit.material.scatter_spec(ray, hit, sample)->Some_0.1;
        assert(attenuation.x.raw * 0 == 0 && attenuation.y.raw * 0 == 0 && attenuation.z.raw * 0
            == 0);
        assert(attenuation.times(Vec3::zero_spec()) == Vec3::zero_spec());
    }
}

/// A path that is absorbed at its first hit is black.
proof fn lemma_path_is_absorbed(ray: Ray, hittable: Hittable, depth: int, sample: Vec3)
    requires
        depth > 0,
        hittable.hit_spec(ray, nearest_hit_spec(), farthest_hit_spec()) matches Some(hit)
            && hit.material.admits(sample) && hit.material.scatter_spec(ray, hit, sample) is None,
    ensures
        samples_admitted(ray, hittable, depth, seq![sample]),
        ray_color_spec(ray, hittable, depth, seq![sample]) == Vec3::zero_spec(),
{
    assert(first_sample(seq![sample]) == sample);
}

/// The radiance along the ray where the bounces scatter with the given
/// samples in place of random ones.
pub fn ray_color_along(
    ray: Ray,
    hittable: &Hittable,
    depth: i32,
    samples: &Vec<Vec3>,
) -> (color: Vec3)
    ensures
        color == ray_color_spec(ray, *hittable, depth as int, samples@),
{
    assert(samples@.subrange(0, samples.len() as int) =~= samples@);
    ray_color_from(ray, hittable, depth, samples, 0)
}

/// The radiance along the ray where the bounces scatter with the
/// samples from position `next` on.
fn ray_color_from(
    ray: Ray,
    hittable: &Hittable,
    depth: i32,
    samples: &Vec<Vec3>,
    next: usize,
) -> (color: Vec3)
    requires
        next <= samples.len(),
    ensures
        color == ray_color_spec(
            ray,
            *hittable,
            depth as int,
            samples@.subrange(next as int, samples.len() as int),
        ),
    decreases depth,
{
    if depth <= 0 {
        Vec3::zero()
    } else {
        let ghost left = samples@.subrange(next as int, samples.len() as int);
        let nearest = Fixed::from_ratio(1, 1000);
        let farthest = Fixed::from_int(100);
        if let Some(hit_record) = hittable.hit(&ray, nearest, farthest) {
            let sample = if next < samples.len() {
                samples[next]
            } else {
                Vec3::zero()
            };
            let after: usize = if next < samples.len() {
                next + 1
            } else {
                next
            };
            proof {
                assert(first_sample(left) == sample);
                assert(later_samples(left) =~= samples@.subrange(
                    after as int,
                    samples.len() as int,
                ));
            }
            if let Some((scattered, attenuation)) = hit_record.material.scatter_with(
                &ray,
                hit_record,
                sample,
            ) {
                attenuation * ray_color_from(scattered, hittable, depth - 1, samples, after)
            } else {
                Vec3::zero()
            }
        } else {
            background(&ray)
        }
    }
}

fn clamp(x: Fixed, min: Fixed, max: Fixed) -> (clamped: Fixed)
    ensures
        clamped == clamp_spec(x, min, max),
{
    if x.raw < min.raw {
        min
    } else if x.raw > max.raw {
        max
    } else {
        x
    }
}

fn quantize(channel: Fixed) -> (level: u8)
    ensures
        level == quantize_spec(channel),
{
    proof {
        lemma_quantize_range(channel);
    }
    let scaled = Fixed::from_int(256) * clamp(channel, Fixed::zero(), Fixed::from_ratio(999, 1000));
    scaled.floor() as u8
}

pub fn to_color(pixel_color: Vec3, samples_per_pixel: i32) -> (rgb: [u8; 3])
    ensures
        rgb@ == to_color_spec(pixel_color, samples_per_pixel),
{
    let pixel_color_scaled_gamma_corrected = (pixel_color / Fixed::from_int(
        samples_per_pixel,
    )).sqrt();

    let r: u8 = quantize(pixel_color_scaled_gamma_corrected.x());
    let g: u8 = quantize(pixel_color_scaled_gamma_corrected.y());
    let b: u8 = quantize(pixel_color_scaled_gamma_corrected.z());
    proof {
        lemma_quantize_range(pixel_color_scaled_gamma_corrected.x);
        lemma_quantize_range(pixel_color_scaled_gamma_corrected.y);
        lemma_quantize_range(pixel_color_scaled_gamma_corrected.z);
    }
    let rgb = [r, g, b];
    assert(rgb@ =~= to_color_spec(pixel_color, samples_per_pixel));
    rgb
}

} // verus!
