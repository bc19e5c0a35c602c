//! The light of a scene.

use vstd::prelude::*;
use crate::colors::Color;
use crate::tuples::Tuple;

verus! {

/// A light without size: it shines from one point, equally in every direction.
#[derive(Clone, Copy, Debug)]
pub struct PointLight {
    pub position: Tuple,
    pub intensity: Color,
}

impl PointLight {
    /// The light at `position` that shines with `intensity`.
    pub fn new(position: Tuple, intensity: Color) -> (l: PointLight)
        ensures
            l == (PointLight { position, intensity }),
    {
        PointLight { position, intensity }
    }
}

} // verus!
