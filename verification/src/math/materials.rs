//! How a surface scatters the light that meets it.
use vstd::prelude::*;
use rand::rngs::StdRng;
use crate::math::fixed::{Fixed, ONE_RAW};
use crate::math::math3::{
    dot, dot_spec, random_unit_vector, random_vec_in_unit_sphere, reflect, reflect_spec, Vec3,
};
use crate::math::raytracing::{HitRecord, Ray};

verus! {

#[derive(Clone, Copy, Debug, PartialEq, Eq, Structural)]
pub enum Material {
    /// Diffuse, with the given albedo.
    Lambertian(Vec3),
    /// Specular, with the given albedo and fuzz.
    Metal(Vec3, Fixed),
    /// Takes all light and gives none back.
    Absorb,
}

/// The number moved into `[0, 1]` if it lies outside.
pub open spec fn clamp_unit(x: Fixed) -> Fixed {
    if x.raw < 0 {
        Fixed { raw: 0 }
    } else if x.raw > ONE_RAW {
        Fixed { raw: ONE_RAW }
    } else {
        x
    }
}

impl Material {
    /// The scattered ray and its attenuation, given the random vector that
    /// the material draws.
    ///
    /// A diffuse surface sends the ray along the normal plus the sample
    /// and always scatters. A metal reflects the incoming direction at
    /// the normal, adds the sample scaled by its fuzz, and scatters only
    /// if the ray still leaves the surface. An absorber never scatters.
    pub open spec fn scatter_spec(
        self,
        ray: Ray,
        hit_record: HitRecord,
        sample: Vec3,
    ) -> Option<(Ray, Vec3)> {
        match self {
            Material::Metal(albedo, fuzz) => {
                let reflected = reflect_spec(ray.dir.unit_vector_spec(), hit_record.normal);
                let scattered = Ray::new_spec(
                    hit_record.point,
                    reflected.plus(sample.scaled(fuzz)),
                );
                if dot_spec(scattered.dir, hit_record.normal).raw > 0 {
                    Some((scattered, albedo))
                } else {
                    None
                }
            },
            Material::Lambertian(albedo) => Some(
                (Ray::new_spec(hit_record.point, hit_record.normal.plus(sample)), albedo),
            ),
            Material::Absorb => None,
        }
    }

    /// Whether the material may draw `sample`: a vector of the unit cube
    /// that is, for a diffuse surface, of length one up to rounding, for a
    /// metal, of squared length at most one, and for an absorber, zero.
    pub open spec fn admits(self, sample: Vec3) -> bool {
        &&& sample.in_unit_cube()
        &&& match self {
            Material::Metal(_, _) => sample.length_squared_spec().raw <= ONE_RAW,
            Material::Lambertian(_) => ONE_RAW - 4 <= sample.length_spec().raw <= ONE_RAW + 1,
            Material::Absorb => sample == Vec3::zero_spec(),
        }
    }

    /// The metal with the given albedo and the fuzz moved into `[0, 1]`.
    pub open spec fn metal_spec(albedo: Vec3, fuzz: Fixed) -> Material {
        Material::Metal(albedo, clamp_unit(fuzz))
    }

    /// A metal whose fuzz is moved into `[0, 1]`.
    pub fn metal(albedo: Vec3, fuzz: Fixed) -> (material: Material)
        ensures
            material == Material::metal_spec(albedo, fuzz),
    {
        let clamped = if fuzz.raw < 0 {
            Fixed::zero()
        } else if fuzz.raw > ONE_RAW {
            Fixed::one()
        } else {
            fuzz
        };
        Material::Metal(albedo, clamped)
    }

    /// Scatters with a given sample in place of a random one.
    pub fn scatter_with(
        &self,
        ray: &Ray,
        hit_record: HitRecord,
        sample: Vec3,
    ) -> (scattered: Option<(Ray, Vec3)>)
        ensures
            scattered == self.scatter_spec(*ray, hit_record, sample),
    {
        match self {
            Material::Metal(albedo, fuzz) => {
                let reflected = reflect(ray.dir.unit_vector(), hit_record.normal);
                let scattered = Ray::new(hit_record.point, reflected + (*fuzz) * sample);
                if dot(scattered.dir, hit_record.normal).raw > 0 {
                    Some((scattered, (*albedo)))
                } else {
                    None
                }
            },
            Material::Lambertian(albedo) => {
                let scatter_direction: Vec3 = hit_record.normal + sample;
                Some((Ray::new(hit_record.point, scatter_direction), (*albedo)))
            },
            Material::Absorb => { None },
        }
    }

    /// The random vector that the material scatters with: a direction for
    /// a diffuse surface, a point of the unit ball for a metal. An
    /// absorber draws nothing.
    pub fn draw_sample(&self, rng_source: &mut StdRng) -> (sample: Vec3)
        ensures
            self.admits(sample),
    {
        match self {
            Material::Metal(_, _) => random_vec_in_unit_sphere(rng_source),
            Material::Lambertian(_) => random_unit_vector(rng_source),
            Material::Absorb => Vec3::zero(),
        }
    }

    /// Scatters the ray that met the surface at `hit_record`. Whatever
    /// the generator returns, the result is that of `scatter_with` for
    /// some sample that the material admits.
    pub fn scatter(
        &self,
        rng_source: &mut StdRng,
        ray: &Ray,
        hit_record: HitRecord,
    ) -> (scattered: Option<(Ray, Vec3)>)
        ensures
            exists|sample: Vec3|
                self.admits(sample) && scattered == #[trigger] self.scatter_spec(
                    *ray,
                    hit_record,
                    sample,
                ),
    {
        let sample = self.draw_sample(rng_source);
        self.scatter_with(ray, hit_record, sample)
    }
}

} // verus!
