//! Materials, and which terms of the Phong sum a surface point receives.

use vstd::arithmetic::power2::lemma2_to64_rest;
use vstd::prelude::*;
use crate::colors::Color;
use crate::patterns::Pattern;
use crate::scalar::lemma_stands_for;
use crate::scalar::Scalar;
use crate::scalar::ONE_BITS;

verus! {

/// One tenth, the ambient part of the default material.
pub const DEFAULT_AMBIENT_BITS: u64 = 0x3FB9_9999_9999_999A;

/// Nine tenths, the diffuse and the specular part of the default material.
pub const DEFAULT_DIFFUSE_BITS: u64 = 0x3FEC_CCCC_CCCC_CCCD;

/// Two hundred, the shininess of the default material.
pub const DEFAULT_SHININESS_BITS: u64 = 0x4069_0000_0000_0000;

/// One and a half, the refractive index of glass.
pub const GLASS_REFRACTIVE_INDEX_BITS: u64 = 0x3FF8_0000_0000_0000;

/// How a surface answers light. No part is clamped: sane ranges are the
/// caller's to keep.
#[derive(Debug)]
pub struct Material {
    pub color: Color,
    pub ambient: Scalar,
    pub diffuse: Scalar,
    pub specular: Scalar,
    pub shininess: Scalar,
    pub reflective: Scalar,
    pub transparency: Scalar,
    pub refractive_index: Scalar,
    pub pattern: Option<Pattern>,
}

/// Where a surface point takes its own colour from.
#[derive(Clone, Copy, Debug)]
pub enum Paint {
    /// The material's one colour.
    Flat(Color),
    /// The material's pattern, to be looked up at the point.
    Patterned(Pattern),
}

/// The highlight of a surface point: how strong and how tight.
#[derive(Clone, Copy, Debug)]
pub struct Highlight {
    pub specular: Scalar,
    pub shininess: Scalar,
}

/// The terms that make up the colour of a surface point, each with the
/// material's part in it. The ambient term is always there.
#[derive(Clone, Copy, Debug)]
pub struct Illumination {
    pub paint: Paint,
    pub ambient: Scalar,
    /// The diffuse part, where the light reaches the point from the front.
    pub diffuse: Option<Scalar>,
    /// The highlight, where the light also reflects towards the eye.
    pub specular: Option<Highlight>,
}

impl Material {
    /// The material of every new object: white, mostly diffuse, shiny, opaque,
    /// not reflective, without a pattern.
    pub open spec fn default_spec() -> Material {
        Material {
            color: Color {
                red: Scalar { bits: ONE_BITS },
                green: Scalar { bits: ONE_BITS },
                blue: Scalar { bits: ONE_BITS },
            },
            ambient: Scalar { bits: DEFAULT_AMBIENT_BITS },
            diffuse: Scalar { bits: DEFAULT_DIFFUSE_BITS },
            specular: Scalar { bits: DEFAULT_DIFFUSE_BITS },
            shininess: Scalar { bits: DEFAULT_SHININESS_BITS },
            reflective: Scalar { bits: 0 },
            transparency: Scalar { bits: 0 },
            refractive_index: Scalar { bits: ONE_BITS },
            pattern: None,
        }
    }

    /// Glass: the default material made fully transparent, with a refractive
    /// index of one and a half.
    pub open spec fn glass_spec() -> Material {
        Material {
            transparency: Scalar { bits: ONE_BITS },
            refractive_index: Scalar { bits: GLASS_REFRACTIVE_INDEX_BITS },
            ..Material::default_spec()
        }
    }

    /// Whether light reaches a point from the front: the point is not in shadow
    /// and the light vector and the normal make an angle of less than a right
    /// angle, so that their dot product is above zero.
    pub open spec fn lit(in_shadow: bool, light_dot_normal: Scalar) -> bool {
        !in_shadow && light_dot_normal.positive()
    }

    /// The terms of the colour of a point on a surface of this material.
    ///
    /// `light_dot_normal` is the dot product of the vector to the light with
    /// the surface normal, `reflect_dot_eye` that of the light's reflection
    /// with the vector to the eye.
    pub open spec fn illumination(
        &self,
        in_shadow: bool,
        light_dot_normal: Scalar,
        reflect_dot_eye: Scalar,
    ) -> Illumination {
        Illumination {
            paint: match self.pattern {
                Some(pattern) => Paint::Patterned(pattern),
                None => Paint::Flat(self.color),
            },
            ambient: self.ambient,
            diffuse: if Material::lit(in_shadow, light_dot_normal) {
                Some(self.diffuse)
            } else {
                None
            },
            specular: if Material::lit(in_shadow, light_dot_normal)
                && reflect_dot_eye.positive() {
                Some(Highlight { specular: self.specular, shininess: self.shininess })
            } else {
                None
            },
        }
    }

    /// Glass.
    pub fn glass() -> (m: Material)
        ensures
            m == Material::glass_spec(),
    {
        let mut m = Material::default();
        m.transparency = Scalar::new_one();
        m.refractive_index = Scalar::from_bits(GLASS_REFRACTIVE_INDEX_BITS);
        m
    }

    /// Decides which terms light a point on a surface of this material. In
    /// shadow only the ambient term is left; so it is where the surface faces
    /// away from the light. The highlight needs, beyond the diffuse term, that
    /// the light's reflection points towards the eye.
    pub fn lightning(
        &self,
        in_shadow: bool,
        light_dot_normal: Scalar,
        reflect_dot_eye: Scalar,
    ) -> (terms: Illumination)
        ensures
            terms == self.illumination(in_shadow, light_dot_normal, reflect_dot_eye),
    {
        let paint = match self.pattern {
            Some(pattern) => Paint::Patterned(pattern),
            None => Paint::Flat(self.color),
        };
        let mut diffuse: Option<Scalar> = None;
        let mut specular: Option<Highlight> = None;
        if !in_shadow && light_dot_normal.is_positive() {
            diffuse = Some(self.diffuse);
            if reflect_dot_eye.is_positive() {
                specular = Some(Highlight { specular: self.specular, shininess: self.shininess });
            }
        }
        Illumination { paint, ambient: self.ambient, diffuse, specular }
    }
}

impl Default for Material {
    fn default() -> (m: Material)
        ensures
            m == Material::default_spec(),
    {
        Material {
            color: Color::new(Scalar::new_one(), Scalar::new_one(), Scalar::new_one()),
            ambient: Scalar::from_bits(DEFAULT_AMBIENT_BITS),
            diffuse: Scalar::from_bits(DEFAULT_DIFFUSE_BITS),
            specular: Scalar::from_bits(DEFAULT_DIFFUSE_BITS),
            shininess: Scalar::from_bits(DEFAULT_SHININESS_BITS),
            reflective: Scalar::new_zero(),
            transparency: Scalar::new_zero(),
            refractive_index: Scalar::new_one(),
            pattern: None,
        }
    }
}

/// The parts of the default material and of glass stand for the numbers they
/// are named for: one tenth and nine tenths as well as a double can, two
/// hundred and one and a half exactly.
pub proof fn lemma_material_parts()
    ensures
        (Scalar { bits: DEFAULT_AMBIENT_BITS }).is_rounded(1, 10),
        (Scalar { bits: DEFAULT_DIFFUSE_BITS }).is_rounded(9, 10),
        (Scalar { bits: DEFAULT_SHININESS_BITS }).is_exactly(200, 1),
        (Scalar { bits: GLASS_REFRACTIVE_INDEX_BITS }).is_exactly(3, 2),
        (Scalar { bits: ONE_BITS }).is_exactly(1, 1),
{
    lemma2_to64_rest();
    lemma_stands_for(DEFAULT_AMBIENT_BITS, false, 1019, 0x9_9999_9999_999A, 1, 10, 1);
    lemma_stands_for(DEFAULT_DIFFUSE_BITS, false, 1022, 0xC_CCCC_CCCC_CCCD, 9, 10, 1);
    lemma_stands_for(DEFAULT_SHININESS_BITS, false, 1030, 0x9_0000_0000_0000, 200, 1, 0);
    lemma_stands_for(GLASS_REFRACTIVE_INDEX_BITS, false, 1023, 0x8_0000_0000_0000, 3, 2, 0);
    lemma_stands_for(ONE_BITS, false, 1023, 0, 1, 1, 0);
}

} // verus!
