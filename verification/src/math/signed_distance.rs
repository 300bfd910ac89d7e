//! Signed distance fields: for every point a lower bound on the distance
//! to the nearest surface, negative inside it.
use vstd::prelude::*;
use std::ops::Neg;
use crate::math::fixed::Fixed;
use crate::math::math3::Vec3;

verus! {

#[derive(Clone, Copy, Debug, PartialEq, Eq, Structural)]
pub enum SignedDistanceField {
    /// The sphere with the given centre and radius.
    Sphere(Vec3, Fixed),
    /// The Sierpinski tetrahedron around the given centre, folded the
    /// given number of times.
    SierpinskiTetrasphere(Vec3, usize),
}

/// One step of the iterated function system: mirror the point at each of
/// three planes in turn if it lies behind that plane, then double it and
/// move it by minus one along every axis.
pub open spec fn fold_step(v: Vec3) -> Vec3 {
    let a = if v.x.plus(v.y).raw < 0 {
        Vec3 { x: v.y.negated(), y: v.x.negated(), z: v.z }
    } else {
        v
    };
    let b = if a.x.plus(a.z).raw < 0 {
        Vec3 { x: a.z.negated(), y: a.y, z: a.x.negated() }
    } else {
        a
    };
    let c = if b.y.plus(b.z).raw < 0 {
        Vec3 { x: b.x, y: b.z.negated(), z: b.y.negated() }
    } else {
        b
    };
    c.scaled(Fixed::int_spec(2)).minus(Vec3::one_spec())
}

/// The point after `n` steps of the iterated function system.
pub open spec fn folded(v: Vec3, n: nat) -> Vec3
    decreases n,
{
    if n == 0 {
        v
    } else {
        fold_step(folded(v, (n - 1) as nat))
    }
}

impl SignedDistanceField {
    /// The distance estimate at `point`. For the sphere it is the distance
    /// to the centre less the radius. For the fractal it is the length of
    /// the folded point less nine tenths, scaled back by two to the
    /// number of folds.
    pub open spec fn distance_spec(self, point: Vec3) -> Fixed {
        match self {
            SignedDistanceField::Sphere(center, radius) => point.minus(center).length_spec().minus(
                radius,
            ),
            SignedDistanceField::SierpinskiTetrasphere(center, iterations) => folded(
                point.minus(center),
                iterations as nat,
            ).length_spec().minus(Fixed::ratio_spec(9, 10)).halved_spec(iterations as nat),
        }
    }

    /// The normal estimate at `point`: for the sphere the direction from
    /// the centre, for the fractal the z axis whatever the point.
    pub open spec fn normal_spec(self, point: Vec3) -> Vec3 {
        match self {
            SignedDistanceField::Sphere(center, _) => point.minus(center).unit_vector_spec(),
            SignedDistanceField::SierpinskiTetrasphere(_, _) => Vec3 {
                x: Fixed { raw: 0 },
                y: Fixed { raw: 0 },
                z: Fixed::int_spec(1),
            },
        }
    }

    pub fn distance_estimate(&self, point: Vec3) -> (distance: Fixed)
        ensures
            distance == self.distance_spec(point),
    {
        match self {
            Self::Sphere(center, radius) => {
                let dif_to_center = point - *center;
                dif_to_center.length() - *radius
            },
            Self::SierpinskiTetrasphere(center, num_fractal_iterations) => {
                let start = point - *center;
                let mut cur_vec = start;
                let offset = Vec3::one();
                let mut i: usize = 0;
                while i < *num_fractal_iterations
                    invariant
                        i <= *num_fractal_iterations,
                        cur_vec == folded(start, i as nat),
                        offset == Vec3::one_spec(),
                    decreases *num_fractal_iterations - i,
                {
                    if (cur_vec.x() + cur_vec.y()).raw < 0 {
                        cur_vec = Vec3::new(cur_vec.y().neg(), cur_vec.x().neg(), cur_vec.z());
                    }
                    if (cur_vec.x() + cur_vec.z()).raw < 0 {
                        cur_vec = Vec3::new(cur_vec.z().neg(), cur_vec.y(), cur_vec.x().neg());
                    }
                    if (cur_vec.y() + cur_vec.z()).raw < 0 {
                        cur_vec = Vec3::new(cur_vec.x(), cur_vec.z().neg(), cur_vec.y().neg());
                    }
                    cur_vec = cur_vec * Fixed::from_int(2) - offset;
                    i = i + 1;
                }
                (cur_vec.length() - Fixed::from_ratio(9, 10)).halved(*num_fractal_iterations)
            },
        }
    }

    /// The normal estimate. The fractal has none of its own: it answers
    /// with the z axis, which a specular material cannot use.
    pub fn normal_estimate(&self, point: Vec3) -> (normal: Vec3)
        ensures
            normal == self.normal_spec(point),
    {
        match self {
            Self::Sphere(center, _) => {
                let dif_to_center = point - *center;
                dif_to_center.unit_vector()
            },
            Self::SierpinskiTetrasphere(_, _) => { Vec3::z_axis() },
        }
    }
}

} // verus!
