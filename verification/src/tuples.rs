//! Points and vectors in homogeneous coordinates.

use vstd::prelude::*;
use crate::scalar::Scalar;
use crate::scalar::ONE_BITS;

verus! {

/// Four coordinates. The last tells points, where it is one, from vectors, where
/// it is zero.
#[derive(Clone, Copy, Debug)]
pub struct Tuple {
    pub x: Scalar,
    pub y: Scalar,
    pub z: Scalar,
    pub w: Scalar,
}

impl Tuple {
    /// Whether the last coordinate is one.
    pub open spec fn point_like(self) -> bool {
        self.w.bits == ONE_BITS
    }

    /// Whether the last coordinate is zero, of either sign.
    pub open spec fn vector_like(self) -> bool {
        self.w.zero()
    }

    /// The tuple with every coordinate's sign flipped.
    pub open spec fn negated(self) -> Tuple {
        Tuple {
            x: self.x.negated(),
            y: self.y.negated(),
            z: self.z.negated(),
            w: self.w.negated(),
        }
    }

    /// Whether the tuple is a point.
    pub fn is_point(&self) -> (r: bool)
        ensures
            r == self.point_like(),
    {
        self.w.to_bits() == ONE_BITS
    }

    /// Whether the tuple is a vector.
    pub fn is_vector(&self) -> (r: bool)
        ensures
            r == self.vector_like(),
    {
        self.w.is_zero()
    }

    /// The opposite tuple.
    pub fn neg(self) -> (r: Tuple)
        ensures
            r == self.negated(),
    {
        Tuple { x: self.x.neg(), y: self.y.neg(), z: self.z.neg(), w: self.w.neg() }
    }
}

/// The tuple with the given coordinates.
pub fn tuple(x: Scalar, y: Scalar, z: Scalar, w: Scalar) -> (t: Tuple)
    ensures
        t == (Tuple { x, y, z, w }),
{
    Tuple { x, y, z, w }
}

/// The point at the given coordinates.
pub fn point(x: Scalar, y: Scalar, z: Scalar) -> (t: Tuple)
    ensures
        t == (Tuple { x, y, z, w: Scalar { bits: ONE_BITS } }),
        t.point_like(),
        !t.vector_like(),
{
    Tuple { x, y, z, w: Scalar::new_one() }
}

/// The vector with the given coordinates.
pub fn vector(x: Scalar, y: Scalar, z: Scalar) -> (t: Tuple)
    ensures
        t == (Tuple { x, y, z, w: Scalar { bits: 0 } }),
        t.vector_like(),
        !t.point_like(),
{
    Tuple { x, y, z, w: Scalar::new_zero() }
}

} // verus!
