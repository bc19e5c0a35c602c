//! Patterns: colour as a function of the place on a surface.
//!
//! A pattern is data here: which one it is, its two colours, and the transform
//! that places it on its object. Looking a colour up takes arithmetic, which is
//! the caller's, for all but stripes: which stripe a point lies in can be read
//! off its x coordinate as it stands.

use vstd::prelude::*;
use crate::colors::Color;
use crate::matrices::identity;
use crate::matrices::is_identity;
use crate::matrices::Matrix;
use crate::tuples::Tuple;

verus! {

/// Stripes: `a` and `b` in turn along x.
#[derive(Clone, Copy, Debug)]
pub struct StripesPatternShape {
    pub a: Color,
    pub b: Color,
}

/// A gradient from `a` to `b` along x, which starts anew at every whole number.
#[derive(Clone, Copy, Debug)]
pub struct GradientPatternShape {
    pub a: Color,
    pub b: Color,
}

/// Rings of `a` and `b` around the y axis.
#[derive(Clone, Copy, Debug)]
pub struct RingPatternShape {
    pub a: Color,
    pub b: Color,
}

/// Cubes of `a` and `b` in turn along all three axes.
#[derive(Clone, Copy, Debug)]
pub struct CheckersPatternShape {
    pub a: Color,
    pub b: Color,
}

/// The patterns there are.
#[derive(Clone, Copy, Debug)]
pub enum PatternShape {
    Stripes(StripesPatternShape),
    Gradient(GradientPatternShape),
    Ring(RingPatternShape),
    Checkers(CheckersPatternShape),
}

impl StripesPatternShape {
    /// The colour of the stripes at a point of the pattern's own space: `a`
    /// where x, rounded down, is even, and `b` where it is odd. Where x is
    /// infinite or not a number, it is `b`.
    pub fn pattern_at(&self, point: &Tuple) -> (c: Color)
        ensures
            c == if point.x.floor_even() {
                self.a
            } else {
                self.b
            },
    {
        if point.x.is_floor_even() {
            self.a
        } else {
            self.b
        }
    }
}

/// A pattern and the transform that places it on its object. A point of the
/// world is first brought into the object's space, then into the pattern's.
#[derive(Clone, Copy, Debug)]
pub struct Pattern {
    pub transform: Matrix,
    pub shape: PatternShape,
}

impl Pattern {
    /// The given pattern, placed by the identity transform.
    pub fn new(shape: PatternShape) -> (p: Pattern)
        ensures
            p.shape == shape,
            is_identity(p.transform),
    {
        Pattern { transform: identity(), shape }
    }
}

} // verus!
