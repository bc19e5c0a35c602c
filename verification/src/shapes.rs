//! The shapes an object can have, each in its own space: the sphere of radius
//! one around the origin, and the plane through the origin that y is normal to.
//!
//! The roots of a ray are found by arithmetic, which is the caller's. What is
//! decided here is whether the ray meets the shape at all.

use std::rc::Rc;
use vstd::arithmetic::power2::lemma2_to64_rest;
use vstd::arithmetic::power2::lemma_pow2_unfold;
use vstd::arithmetic::power2::pow2;
use vstd::prelude::*;
use crate::materials::Material;
use crate::matrices::is_identity;
use crate::object::is_random_id;
use crate::object::Object;
use crate::rays::Ray;
use crate::scalar::lemma_stands_for;
use crate::scalar::Scalar;
use crate::scalar::ONE_BITS;
use crate::tuples::vector;
use crate::tuples::Tuple;

verus! {

/// A ray whose direction has a y smaller than this, in absolute value, counts
/// as parallel to the plane: one ten-thousandth.
pub const PARALLEL_BELOW_BITS: u64 = 0x3F1A_36E2_EB1C_432D;

/// The unit sphere around the origin.
#[derive(Clone, Copy, Debug)]
pub struct Sphere {}

/// The plane of all points with y zero.
#[derive(Clone, Copy, Debug)]
pub struct Plane {}

/// The shapes.
#[derive(Clone, Copy, Debug)]
pub enum Shape {
    Sphere(Sphere),
    Plane(Plane),
}

impl Default for Sphere {
    fn default() -> (s: Sphere)
        ensures
            s == (Sphere {  }),
    {
        Sphere {  }
    }
}

impl Default for Plane {
    fn default() -> (p: Plane)
        ensures
            p == (Plane {  }),
    {
        Plane {  }
    }
}

impl Sphere {
    /// A new sphere of glass.
    pub fn glass() -> (o: Object)
        ensures
            o.shape == Shape::Sphere(Sphere {  }),
            *o.material == Material::glass_spec(),
            is_identity(o.transform),
            is_random_id(o.id),
    {
        let mut object = Object::new(Shape::Sphere(Sphere {  }));
        object.material = Rc::new(Material::glass());
        object
    }

    /// Where a ray meets the sphere, given the discriminant of the ray's
    /// quadratic and its two roots, the smaller first. Below a discriminant of
    /// zero the ray misses. Roots are handed on as they are: equal for a
    /// tangent, negative for a sphere behind the ray.
    pub fn intersects_at(&self, discriminant: Scalar, roots: [Scalar; 2]) -> (r: Option<
        [Scalar; 2],
    >)
        ensures
            discriminant.negative() ==> r is None,
            !discriminant.negative() ==> r == Some(roots),
    {
        if discriminant.is_negative() {
            None
        } else {
            Some(roots)
        }
    }
}

impl Plane {
    /// Whether a ray runs along the plane, as far as can be told.
    pub open spec fn parallel(ray: Ray) -> bool {
        ray.direction.y.absolute().less(Scalar { bits: PARALLEL_BELOW_BITS })
    }

    /// Where a ray meets the plane, given the one root `t`, which the caller
    /// finds as `-origin.y / direction.y`. A parallel ray misses; any other
    /// meets the plane once, and the root is given twice.
    pub fn intersects_at(&self, ray: &Ray, t: Scalar) -> (r: Option<[Scalar; 2]>)
        ensures
            Plane::parallel(*ray) ==> r is None,
            !Plane::parallel(*ray) ==> r == Some([t, t]),
    {
        if ray.direction.y.abs().lt(Scalar::from_bits(PARALLEL_BELOW_BITS)) {
            None
        } else {
            Some([t, t])
        }
    }

    /// The normal of the plane, which is the same at every point: the unit
    /// vector along y.
    pub fn local_normal_at(&self, local_point: &Tuple) -> (n: Tuple)
        ensures
            n == (Tuple {
                x: Scalar { bits: 0 },
                y: Scalar { bits: ONE_BITS },
                z: Scalar { bits: 0 },
                w: Scalar { bits: 0 },
            }),
    {
        vector(Scalar::new_zero(), Scalar::new_one(), Scalar::new_zero())
    }
}

/// The bound below which a ray counts as parallel to the plane stands for one
/// ten-thousandth, as well as a double can.
pub proof fn lemma_parallel_below()
    ensures
        (Scalar { bits: PARALLEL_BELOW_BITS }).is_rounded(1, 10000),
{
    lemma2_to64_rest();
    lemma_pow2_unfold(65);
    lemma_pow2_unfold(66);
    assert(pow2(66) == 0x4_0000_0000_0000_0000);
    lemma_stands_for(PARALLEL_BELOW_BITS, false, 1009, 0xA_36E2_EB1C_432D, 1, 10000, 1);
}

} // verus!
