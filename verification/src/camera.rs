//! The camera: a grid of pixels, and the walk over it that makes an image.

use vstd::prelude::*;
use crate::canvas::Canvas;
use crate::colors::Color;
use crate::matrices::identity;
use crate::matrices::is_identity;
use crate::matrices::Matrix;
use crate::scalar::Scalar;
use crate::scalar::ONE_BITS;

verus! {

/// A camera: how many pixels its image has each way, how wide it sees, where it
/// stands, and what follows from those for the size of a pixel.
#[derive(Clone, Copy, Debug)]
pub struct Camera {
    pub hsize: i32,
    pub vsize: i32,
    pub half_width: Scalar,
    pub half_height: Scalar,
    pub field_of_view: Scalar,
    pub transform: Matrix,
    pub pixel_size: Scalar,
}

impl Camera {
    /// Whether an image of the given aspect, its width over its height, is at
    /// least as wide as it is high. Such an image sees the whole field of view
    /// across its width, and less across its height; any other sees it across
    /// its height.
    pub fn is_wide(aspect: Scalar) -> (r: bool)
        ensures
            r == ((Scalar { bits: ONE_BITS }).less(aspect) || (Scalar { bits: ONE_BITS }).same(
                aspect,
            )),
    {
        aspect.ge(Scalar::new_one())
    }

    /// A camera at the origin that looks along the negative z axis, with what
    /// follows from its sizes and its field of view: the half of the width and
    /// of the height that it sees at a distance of one, and the size of a
    /// pixel there.
    pub fn new(
        hsize: i32,
        vsize: i32,
        field_of_view: Scalar,
        half_width: Scalar,
        half_height: Scalar,
        pixel_size: Scalar,
    ) -> (c: Camera)
        ensures
            c.hsize == hsize,
            c.vsize == vsize,
            c.field_of_view == field_of_view,
            c.half_width == half_width,
            c.half_height == half_height,
            c.pixel_size == pixel_size,
            is_identity(c.transform),
    {
        Camera {
            hsize,
            vsize,
            half_width,
            half_height,
            field_of_view,
            transform: identity(),
            pixel_size,
        }
    }

    /// Renders an image: every pixel of the camera's grid gets the colour that
    /// `shade` gives for its column and row. Rows are taken from top to bottom,
    /// each from left to right, and `shade` is called once for each pixel.
    pub fn render<F: Fn(i32, i32) -> Color>(&self, shade: F) -> (image: Canvas)
        requires
            0 <= self.hsize,
            0 <= self.vsize,
            self.hsize * self.vsize <= i32::MAX,
            forall|x: i32, y: i32|
                0 <= x < self.hsize && 0 <= y < self.vsize ==> shade.requires((x, y)),
        ensures
            image.width == self.hsize,
            image.height == self.vsize,
            image.wf(),
            forall|x: i32, y: i32|
                0 <= x < self.hsize && 0 <= y < self.vsize ==> shade.ensures(
                    (x, y),
                    #[trigger] image@[x + y * self.hsize],
                ),
    {
        let width: i32 = self.hsize;
        let height: i32 = self.vsize;
        let mut pixels: Vec<Color> = Vec::new();
        let mut y: i32 = 0;
        while y < height
            invariant
                0 <= y <= height,
                0 <= width,
                width * height <= i32::MAX,
                pixels@.len() == y * width,
                forall|x: i32, y: i32| 0 <= x < width && 0 <= y < height ==> shade.requires((x, y)),
                forall|x: i32, v: i32|
                    0 <= x < width && 0 <= v < y ==> shade.ensures(
                        (x, v),
                        #[trigger] pixels@[x + v * width],
                    ),
            decreases height - y,
        {
            let mut x: i32 = 0;
            while x < width
                invariant
                    0 <= y < height,
                    0 <= x <= width,
                    width * height <= i32::MAX,
                    pixels@.len() == y * width + x,
                    forall|x: i32, y: i32|
                        0 <= x < width && 0 <= y < height ==> shade.requires((x, y)),
                    forall|u: i32, v: i32|
                        0 <= u < width && 0 <= v < y ==> shade.ensures(
                            (u, v),
                            #[trigger] pixels@[u + v * width],
                        ),
                    forall|u: i32|
                        0 <= u < x ==> shade.ensures((u, y), #[trigger] pixels@[u + y * width]),
                decreases width - x,
            {
                let color = shade(x, y);
                let ghost before = pixels@;
                pixels.push(color);
                proof {
                    assert forall|u: i32, v: i32| 0 <= u < width && 0 <= v < y implies shade.ensures(
                        (u, v),
                        #[trigger] pixels@[u + v * width],
                    ) by {
                        lemma_offset_below(u as int, v as int, width as int, y as int);
                        assert(pixels@[u + v * width] == before[u + v * width]);
                    }
                    assert forall|u: i32| 0 <= u < x + 1 implies shade.ensures(
                        (u, y),
                        #[trigger] pixels@[u + y * width],
                    ) by {
                        if u < x {
                            assert(pixels@[u + y * width] == before[u + y * width]);
                        }
                    }
                }
                x = x + 1;
            }
            proof {
                assert((y + 1) * width == y * width + width) by (nonlinear_arith);
                assert forall|u: i32, v: i32| 0 <= u < width && 0 <= v < y + 1 implies shade.ensures(
                    (u, v),
                    #[trigger] pixels@[u + v * width],
                ) by {
                    if v == y {
                        assert(pixels@[u + v * width] == pixels@[u + y * width]);
                    }
                }
            }
            y = y + 1;
        }
        assert(height * width == width * height) by (nonlinear_arith);
        Canvas { width, height, pixels }
    }
}

/// A pixel of an earlier row lies before the start of a later one.
proof fn lemma_offset_below(u: int, v: int, width: int, y: int)
    requires
        0 <= u < width,
        0 <= v < y,
    ensures
        0 <= u + v * width < y * width,
{
    assert(v * width + width <= y * width) by (nonlinear_arith)
        requires
            v + 1 <= y,
            0 <= width,
    ;
    assert(0 <= v * width) by (nonlinear_arith)
        requires
            0 <= v,
            0 <= width,
    ;
}

} // verus!
