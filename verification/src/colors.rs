//! Colours: three scalars, unclamped.

use vstd::prelude::*;
use crate::scalar::Scalar;

verus! {

/// A colour by its red, green and blue parts. A part is any scalar: nothing
/// clamps it before an image is written out.
#[derive(Clone, Copy, Debug)]
pub struct Color {
    pub red: Scalar,
    pub green: Scalar,
    pub blue: Scalar,
}

impl Color {
    /// The colour with the given parts.
    pub fn new(red: Scalar, green: Scalar, blue: Scalar) -> (c: Color)
        ensures
            c == (Color { red, green, blue }),
    {
        Color { red, green, blue }
    }

    /// Black: every part is positive zero.
    pub open spec fn black_spec() -> Color {
        Color { red: Scalar { bits: 0 }, green: Scalar { bits: 0 }, blue: Scalar { bits: 0 } }
    }

    /// Black, the colour of a ray that meets nothing.
    pub fn black() -> (c: Color)
        ensures
            c == Color::black_spec(),
    {
        Color { red: Scalar { bits: 0 }, green: Scalar { bits: 0 }, blue: Scalar { bits: 0 } }
    }

    /// Whether every part is zero, of either sign.
    pub open spec fn is_black(self) -> bool {
        self.red.zero() && self.green.zero() && self.blue.zero()
    }
}

/// The colour with the given parts.
pub fn color(red: Scalar, green: Scalar, blue: Scalar) -> (c: Color)
    ensures
        c == (Color { red, green, blue }),
{
    Color { red, green, blue }
}

} // verus!
