//! The pixel sampler: which rays a pixel casts, and what they add up to.
use vstd::prelude::*;
use rand::rngs::StdRng;
use crate::math::fixed::{Fixed, ONE_RAW};
use crate::math::imaging::{
    ray_color, ray_color_along, ray_color_spec, samples_admitted, Camera,
};
use crate::math::math3::Vec3;
use crate::math::raytracing::{Hittable, Ray};
use crate::math::rng::{pixel_rng, uniform_raw};
use crate::math::vector_laws::vec_bounded;

verus! {

/// What one sample of a pixel draws: where in the pixel the ray starts,
/// as two offsets from `[0, 1)`, and what each bounce scatters with.
pub struct PixelSample {
    pub jitter_u: Fixed,
    pub jitter_v: Fixed,
    pub bounces: Vec<Vec3>,
}

/// The draws of one sample as plain values.
pub struct Draw {
    pub jitter_u: Fixed,
    pub jitter_v: Fixed,
    pub bounces: Seq<Vec3>,
}

impl View for PixelSample {
    type V = Draw;

    open spec fn view(&self) -> Draw {
        Draw { jitter_u: self.jitter_u, jitter_v: self.jitter_v, bounces: self.bounces@ }
    }
}


/// The draws of several samples as plain values.
pub open spec fn plain_draws(draws: Seq<PixelSample>) -> Seq<Draw> {
    Seq::new(draws.len(), |i: int| draws[i]@)
}

/// The position of a pixel along one axis as a share of the viewport:
/// the pixel's number plus the offset, over the extent less one.
pub open spec fn viewport_coordinate_spec(pixel: u32, jitter: Fixed, extent: u32) -> Fixed {
    Fixed::int_spec(pixel as int).plus(jitter).over(Fixed::int_spec(extent - 1))
}

/// The ray of a sample of the pixel in column `x` and row `y`. Row 0 is
/// the top of the image and the top of the viewport is at height one, so
/// the row is counted from the bottom.
pub open spec fn pixel_ray_spec(
    camera: Camera,
    x: u32,
    y: u32,
    image_width: u32,
    image_height: u32,
    jitter_u: Fixed,
    jitter_v: Fixed,
) -> Ray {
    camera.get_ray_spec(
        viewport_coordinate_spec(x, jitter_u, image_width),
        viewport_coordinate_spec((image_height - 1 - y) as u32, jitter_v, image_height),
    )
}

/// The sum of the radiance of the first `n` samples of a pixel, added up
/// in their order.
pub open spec fn pixel_color_spec(
    camera: Camera,
    world: Hittable,
    x: u32,
    y: u32,
    image_width: u32,
    image_height: u32,
    max_depth: int,
    draws: Seq<Draw>,
    n: nat,
) -> Vec3
    decreases n,
{
    if n == 0 || n > draws.len() {
        Vec3::zero_spec()
    } else {
        pixel_color_spec(
            camera,
            world,
            x,
            y,
            image_width,
            image_height,
            max_depth,
            draws,
            (n - 1) as nat,
        ).plus(
            sample_color_spec(
                camera,
                world,
                x,
                y,
                image_width,
                image_height,
                max_depth,
                draws[n - 1],
            ),
        )
    }
}

/// Whether the draw can be that of a sample of the pixel in column `x`
/// and row `y`: the offsets lie in `[0, 1)`, and the materials along the
/// way of the sample's ray admit the samples of its bounces.
pub open spec fn draw_admitted(
    camera: Camera,
    world: Hittable,
    x: u32,
    y: u32,
    image_width: u32,
    image_height: u32,
    max_depth: int,
    draw: Draw,
) -> bool {
    &&& 0 <= draw.jitter_u.raw < ONE_RAW
    &&& 0 <= draw.jitter_v.raw < ONE_RAW
    &&& samples_admitted(
        pixel_ray_spec(camera, x, y, image_width, image_height, draw.jitter_u, draw.jitter_v),
        world,
        max_depth,
        draw.bounces,
    )
}

/// Whether `color` is what the samples of the pixel in column `x` and
/// row `y` add up to for some admitted draws, one for each sample.
pub open spec fn is_pixel_color(
    color: Vec3,
    camera: Camera,
    world: Hittable,
    x: u32,
    y: u32,
    image_width: u32,
    image_height: u32,
    samples_per_pixel: i32,
    max_depth: int,
) -> bool {
    exists|draws: Seq<Draw>|
        {
            &&& draws.len() == if samples_per_pixel > 0 {
                samples_per_pixel as int
            } else {
                0
            }
            &&& forall|k: int|
                0 <= k < draws.len() ==> draw_admitted(
                    camera,
                    world,
                    x,
                    y,
                    image_width,
                    image_height,
                    max_depth,
                    #[trigger] draws[k],
                )
            &&& color == #[trigger] pixel_color_spec(
                camera,
                world,
                x,
                y,
                image_width,
                image_height,
                max_depth,
                draws,
                draws.len(),
            )
        }
}

/// Column and row of the pixel with the given index, where the pixels
/// are counted row by row.
pub fn pixel_position(index: u32, image_width: u32) -> (position: (u32, u32))
    requires
        image_width > 0,
    ensures
        position.0 == index % image_width,
        position.1 == index / image_width,
        position.0 < image_width,
        index == position.1 * image_width + position.0,
{
    let x: u32 = index % image_width;
    let y: u32 = index / image_width;
    proof {
        vstd::arithmetic::div_mod::lemma_fundamental_div_mod(index as int, image_width as int);
        assert(image_width * (index as int / image_width as int) == (index as int
            / image_width as int) * image_width) by (nonlinear_arith);
    }
    (x, y)
}

fn viewport_coordinate(pixel: u32, jitter: Fixed, extent: u32) -> (coordinate: Fixed)
    requires
        extent > 0,
    ensures
        coordinate == viewport_coordinate_spec(pixel, jitter, extent),
{
    (Fixed::from_count(pixel) + jitter) / Fixed::from_count(extent - 1)
}

/// The ray of a sample of the pixel in column `x` and row `y` with the
/// given offsets.
pub fn pixel_ray(
    camera: &Camera,
    x: u32,
    y: u32,
    image_width: u32,
    image_height: u32,
    jitter_u: Fixed,
    jitter_v: Fixed,
) -> (ray: Ray)
    requires
        image_width > 0,
        y < image_height,
    ensures
        ray == pixel_ray_spec(*camera, x, y, image_width, image_height, jitter_u, jitter_v),
{
    let u = viewport_coordinate(x, jitter_u, image_width);
    let v = viewport_coordinate((image_height - 1) - y, jitter_v, image_height);
    camera.get_ray(u, v)
}

/// The radiance of one sample of a pixel.
pub open spec fn sample_color_spec(
    camera: Camera,
    world: Hittable,
    x: u32,
    y: u32,
    image_width: u32,
    image_height: u32,
    max_depth: int,
    draw: Draw,
) -> Vec3 {
    ray_color_spec(
        pixel_ray_spec(camera, x, y, image_width, image_height, draw.jitter_u, draw.jitter_v),
        world,
        max_depth,
        draw.bounces,
    )
}

/// The radiance of one sample of the pixel, taken with the given draws.
pub fn sample_color_along(
    camera: &Camera,
    world: &Hittable,
    x: u32,
    y: u32,
    image_width: u32,
    image_height: u32,
    max_depth: i32,
    sample: &PixelSample,
) -> (color: Vec3)
    requires
        image_width > 0,
        y < image_height,
    ensures
        color == sample_color_spec(
            *camera,
            *world,
            x,
            y,
            image_width,
            image_height,
            max_depth as int,
            sample@,
        ),
{
    let ray = pixel_ray(
        camera,
        x,
        y,
        image_width,
        image_height,
        sample.jitter_u,
        sample.jitter_v,
    );
    ray_color_along(ray, world, max_depth, &sample.bounces)
}

/// The summed radiance of the pixel's samples, each taken with the draws
/// that are given for it.
pub fn pixel_color_along(
    camera: &Camera,
    world: &Hittable,
    x: u32,
    y: u32,
    image_width: u32,
    image_height: u32,
    max_depth: i32,
    draws: &Vec<PixelSample>,
) -> (color: Vec3)
    requires
        image_width > 0,
        y < image_height,
    ensures
        color == pixel_color_spec(
            *camera,
            *world,
            x,
            y,
            image_width,
            image_height,
            max_depth as int,
            plain_draws(draws@),
            draws.len() as nat,
        ),
{
    let ghost plain = plain_draws(draws@);
    let mut color = Vec3::zero();
    let mut i: usize = 0;
    while i < draws.len()
        invariant
            i <= draws.len(),
            image_width > 0,
            y < image_height,
            plain == plain_draws(draws@),
            color == pixel_color_spec(
                *camera,
                *world,
                x,
                y,
                image_width,
                image_height,
                max_depth as int,
                plain,
                i as nat,
            ),
        decreases draws.len() - i,
    {
        let sample_color = sample_color_along(
            camera,
            world,
            x,
            y,
            image_width,
            image_height,
            max_depth,
            &draws[i],
        );
        assert(plain[i as int] == draws[i as int]@);
        color = color + sample_color;
        i = i + 1;
    }
    color
}

/// The summed radiance of `samples_per_pixel` random samples of the
/// pixel in column `x` and row `y`; `to_color` takes the mean.
///
/// Whatever the generator returns, the sum is that of `pixel_color_spec`
/// for some admitted draws, one for each sample. In a scene whose
/// materials conserve light no component of the sum exceeds the number
/// of samples.
pub fn pixel_color(
    rng_source: &mut StdRng,
    camera: &Camera,
    world: &Hittable,
    x: u32,
    y: u32,
    image_width: u32,
    image_height: u32,
    samples_per_pixel: i32,
    max_depth: i32,
) -> (color: Vec3)
    requires
        image_width > 0,
        y < image_height,
    ensures
        samples_per_pixel <= 0 ==> color == Vec3::zero_spec(),
        world.conserves() && samples_per_pixel > 0 ==> vec_bounded(
            color,
            samples_per_pixel * ONE_RAW,
        ) && color.x.raw >= 0 && color.y.raw >= 0 && color.z.raw >= 0,
        is_pixel_color(
            color,
            *camera,
            *world,
            x,
            y,
            image_width,
            image_height,
            samples_per_pixel,
            max_depth as int,
        ),
{
    let mut color = Vec3::zero();
    let ghost mut draws: Seq<Draw> = Seq::empty();
    let mut i: i32 = 0;
    while i < samples_per_pixel
        invariant
            0 <= i,
            i <= samples_per_pixel || (samples_per_pixel <= 0 && i == 0),
            image_width > 0,
            y < image_height,
            draws.len() == i,
            world.conserves() ==> vec_bounded(color, i * ONE_RAW) && color.x.raw >= 0 && color.y.raw
                >= 0 && color.z.raw >= 0,
            forall|k: int|
                0 <= k < draws.len() ==> draw_admitted(
                    *camera,
                    *world,
                    x,
                    y,
                    image_width,
                    image_height,
                    max_depth as int,
                    #[trigger] draws[k],
                ),
            color == pixel_color_spec(
                *camera,
                *world,
                x,
                y,
                image_width,
                image_height,
                max_depth as int,
                draws,
                draws.len(),
            ),
        decreases samples_per_pixel - i,
    {
        let jitter_u = Fixed::from_raw(uniform_raw(rng_source, 0, ONE_RAW));
        let jitter_v = Fixed::from_raw(uniform_raw(rng_source, 0, ONE_RAW));
        let ray = pixel_ray(camera, x, y, image_width, image_height, jitter_u, jitter_v);
        let sample_color = ray_color(rng_source, ray, world, max_depth);
        proof {
            let bounces = choose|samples: Seq<Vec3>|
                samples_admitted(ray, *world, max_depth as int, samples) && sample_color
                    == #[trigger] ray_color_spec(
                    ray,
                    *world,
                    max_depth as int,
                    samples,
                );
            let longer = draws.push(Draw { jitter_u, jitter_v, bounces });
            lemma_pixel_color_prefix(
                *camera,
                *world,
                x,
                y,
                image_width,
                image_height,
                max_depth as int,
                draws,
                longer,
                draws.len(),
            );
            draws = longer;
        }
        color = color + sample_color;
        i = i + 1;
    }
    color
}

/// The summed radiance of every pixel of the image, row by row from the
/// top, each pixel sampled with the generator of its own that
/// `pixel_rng` seeds.
pub fn render(
    seed: u64,
    camera: &Camera,
    world: &Hittable,
    image_width: u32,
    image_height: u32,
    samples_per_pixel: i32,
    max_depth: i32,
) -> (pixels: Vec<Vec3>)
    requires
        image_width * image_height <= u32::MAX,
    ensures
        pixels@.len() == image_width * image_height,
        forall|index: int|
            0 <= index < pixels@.len() ==> is_pixel_color(
                #[trigger] pixels@[index],
                *camera,
                *world,
                (index % image_width as int) as u32,
                (index / image_width as int) as u32,
                image_width,
                image_height,
                samples_per_pixel,
                max_depth as int,
            ),
{
    let count: u32 = image_width * image_height;
    let mut pixels: Vec<Vec3> = Vec::new();
    let mut index: u32 = 0;
    while index < count
        invariant
            index <= count,
            count == image_width * image_height,
            pixels@.len() == index,
            forall|i: int|
                0 <= i < pixels@.len() ==> is_pixel_color(
                    #[trigger] pixels@[i],
                    *camera,
                    *world,
                    (i % image_width as int) as u32,
                    (i / image_width as int) as u32,
                    image_width,
                    image_height,
                    samples_per_pixel,
                    max_depth as int,
                ),
        decreases count - index,
    {
        proof {
            let w = image_width as int;
            let h = image_height as int;
            let i = index as int;
            assert(w > 0) by (nonlinear_arith)
                requires
                    i < w * h,
                    0 <= i,
                    0 <= w,
                    0 <= h,
            ;
            vstd::arithmetic::div_mod::lemma_fundamental_div_mod(i, w);
            vstd::arithmetic::div_mod::lemma_mod_pos_bound(i, w);
            let q = i / w;
            assert(q < h) by (nonlinear_arith)
                requires
                    i < w * h,
                    i >= w * q,
                    w > 0,
            ;
        }
        let mut rng = pixel_rng(seed, index);
        let (x, y) = pixel_position(index, image_width);
        let color = pixel_color(
            &mut rng,
            camera,
            world,
            x,
            y,
            image_width,
            image_height,
            samples_per_pixel,
            max_depth,
        );
        pixels.push(color);
        index = index + 1;
    }
    pixels
}

/// The sum of the first `n` samples depends on the first `n` draws only.
pub proof fn lemma_pixel_color_prefix(
    camera: Camera,
    world: Hittable,
    x: u32,
    y: u32,
    image_width: u32,
    image_height: u32,
    max_depth: int,
    draws: Seq<Draw>,
    longer: Seq<Draw>,
    n: nat,
)
    requires
        n <= draws.len() <= longer.len(),
        forall|k: int| 0 <= k < n ==> draws[k] == longer[k],
    ensures
        pixel_color_spec(camera, world, x, y, image_width, image_height, max_depth, draws, n)
            == pixel_color_spec(
            camera,
            world,
            x,
            y,
            image_width,
            image_height,
            max_depth,
            longer,
            n,
        ),
    decreases n,
{
    if n > 0 {
        lemma_pixel_color_prefix(
            camera,
            world,
            x,
            y,
            image_width,
            image_height,
            max_depth,
            draws,
            longer,
            (n - 1) as nat,
        );
    }
}

} // verus!
