//! The deciding half of a ray tracer.
//!
//! A ray tracer fires a ray through every pixel of an image, finds what the ray
//! meets first, and works out the colour there from the light, the shadows and
//! the reflections. Most of that is arithmetic on double-precision numbers. This
//! library does none of it: it holds such numbers as bit patterns
//! ([`scalar::Scalar`]), which it can compare, negate and round down exactly,
//! and it takes every sum, product and root from its caller. What it owns are
//! the scene and the decisions: the order of the intersections along a ray and
//! the one among them that is seen, from which side a surface is hit and which
//! media meet there, which terms light a point, whether a point lies in shadow,
//! how far reflections are followed, the walk over the pixels, and the text of
//! the image file.

pub mod camera;
pub mod canvas;
pub mod colors;
pub mod intersections;
pub mod lights;
pub mod materials;
pub mod matrices;
pub mod object;
pub mod patterns;
pub mod ppm;
pub mod rays;
pub mod scalar;
pub mod shapes;
pub mod transformations;
pub mod tuples;
pub mod world;
