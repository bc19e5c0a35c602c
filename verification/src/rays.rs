//! Rays: where they start and which way they go.

use vstd::prelude::*;
use crate::tuples::Tuple;

verus! {

/// A ray: the points `origin + t * direction`, one for each scalar `t`.
#[derive(Clone, Copy, Debug)]
pub struct Ray {
    pub origin: Tuple,
    pub direction: Tuple,
}

impl Ray {
    /// The ray from `origin` along `direction`.
    pub fn new(origin: Tuple, direction: Tuple) -> (r: Ray)
        ensures
            r == (Ray { origin, direction }),
    {
        Ray { origin, direction }
    }
}

} // verus!
