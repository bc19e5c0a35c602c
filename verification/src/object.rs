//! Objects: a shape, the transform that places it in the world, and a material.

use std::rc::Rc;
use vstd::prelude::*;
use vstd::std_specs::cmp::PartialEqSpecImpl;
use crate::intersections::Intersection;
use crate::materials::Material;
use crate::matrices::identity;
use crate::matrices::is_identity;
use crate::matrices::Matrix;
use crate::scalar::Scalar;
use crate::shapes::Shape;

verus! {

/// Whether `id` reads as a random identifier: a UUID of version 4 in the
/// standard variant.
pub open spec fn is_random_id(id: u128) -> bool {
    (id >> 76) & 0xF == 4 && (id >> 62) & 0x3 == 2
}

/// Draws a fresh identifier with `uuid::Uuid::new_v4`, as the 128-bit number
/// that `Uuid::as_u128` gives for it. Which number comes is left open; all that
/// is claimed is what the crate fixes of every such UUID, its version and
/// variant bits.
#[verifier::external_body]
fn new_id() -> (id: u128)
    ensures
        is_random_id(id),
{
    uuid::Uuid::new_v4().as_u128()
}

/// A thing in the scene. Objects are told apart by `id` alone: two objects with
/// the same shape in the same place are still two.
#[derive(Debug)]
pub struct Object {
    pub id: u128,
    pub transform: Matrix,
    pub material: Rc<Material>,
    pub shape: Shape,
}

impl Object {
    /// A new object of the given shape, with an identifier of its own, placed
    /// by the identity transform, of the default material.
    pub fn new(shape: Shape) -> (o: Object)
        ensures
            o.shape == shape,
            is_identity(o.transform),
            *o.material == Material::default_spec(),
            is_random_id(o.id),
    {
        Object {
            id: new_id(),
            transform: identity(),
            material: Rc::new(Material::default()),
            shape,
        }
    }

    /// The intersections of a ray with this object, given the roots that the
    /// object's shape found for the ray in its own space: none where the shape
    /// found none, else one for each root, in their order.
    pub fn intersect<'a>(&'a self, roots: Option<[Scalar; 2]>) -> (r: Option<
        [Intersection<'a>; 2],
    >)
        ensures
            r is Some <==> roots is Some,
            r matches Some(xs) ==> xs[0] == (Intersection { t: roots->0[0], object: self })
                && xs[1] == (Intersection { t: roots->0[1], object: self }),
    {
        match roots {
            Some(ts) => Some(
                [Intersection { t: ts[0], object: self }, Intersection { t: ts[1], object: self }],
            ),
            None => None,
        }
    }
}

impl PartialEq for Object {
    /// Objects are equal when they are the same object.
    fn eq(&self, other: &Object) -> (r: bool) {
        self.id == other.id
    }
}

impl PartialEqSpecImpl for Object {
    open spec fn obeys_eq_spec() -> bool {
        true
    }

    open spec fn eq_spec(&self, other: &Object) -> bool {
        self.id == other.id
    }
}

} // verus!
