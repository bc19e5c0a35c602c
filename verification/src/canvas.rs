//! The pixel buffer and its export as plain-text PPM.

use vstd::prelude::*;
use crate::colors::Color;

verus! {

/// A rectangle of pixels, stored row by row.
pub struct Canvas {
    pub width: i32,
    pub height: i32,
    pub pixels: Vec<Color>,
}

impl View for Canvas {
    type V = Seq<Color>;

    /// The pixels, row by row.
    open spec fn view(&self) -> Seq<Color> {
        self.pixels@
    }
}

/// Where the pixel in column `x` of row `y` lies in a buffer of the given width.
pub open spec fn offset(width: i32, x: usize, y: usize) -> int {
    x + y * width
}

impl Canvas {
    /// A canvas is well formed when it has a pixel for every column of every row,
    /// and no others.
    pub open spec fn wf(&self) -> bool {
        &&& 0 <= self.width
        &&& 0 <= self.height
        &&& self@.len() == self.width * self.height
    }

    /// Whether column `x` of row `y` addresses a pixel of the buffer.
    pub open spec fn holds(&self, x: usize, y: usize) -> bool {
        0 <= offset(self.width, x, y) < self@.len()
    }

    /// An all-black canvas of the given size.
    pub fn new(width: i32, height: i32) -> (c: Canvas)
        requires
            0 <= width,
            0 <= height,
            width * height <= i32::MAX,
        ensures
            c.width == width,
            c.height == height,
            c.wf(),
            forall|i: int| 0 <= i < c@.len() ==> c@[i] == Color::black_spec(),
    {
        canvas(width, height)
    }

    /// Sets the pixel in column `x` of row `y`; does nothing where no pixel lies there.
    pub fn write_pixel(&mut self, x: usize, y: usize, color: Color)
        ensures
            final(self).width == old(self).width,
            final(self).height == old(self).height,
            old(self).holds(x, y) ==> final(self)@ == old(self)@.update(
                offset(old(self).width, x, y),
                color,
            ),
            !old(self).holds(x, y) ==> final(self)@ == old(self)@,
    {
        write_pixel(self, x, y, color)
    }

    /// The pixel in column `x` of row `y`, or black where no pixel lies there.
    pub fn color_at(&self, x: usize, y: usize) -> (c: Color)
        ensures
            self.holds(x, y) ==> c == self@[offset(self.width, x, y)],
            !self.holds(x, y) ==> c == Color::black_spec(),
    {
        match pixel_at(self, x, y) {
            Some(color) => *color,
            None => Color::black(),
        }
    }

    /// The buffer position of column `x` of row `y`, if a pixel lies there.
    fn position(&self, x: usize, y: usize) -> (r: Option<usize>)
        ensures
            r is Some <==> self.holds(x, y),
            r matches Some(i) ==> i == offset(self.width, x, y),
    {
        let row: i128 = y as i128;
        let width: i128 = self.width as i128;
        assert(-0x1_0000_0000_0000_0000_0000_0000 <= row * width <= 0x1_0000_0000_0000_0000_0000_0000)
            by (nonlinear_arith)
            requires
                0 <= row <= 0xFFFF_FFFF_FFFF_FFFF,
                -0x8000_0000 <= width <= 0x7FFF_FFFF,
        ;
        let at: i128 = x as i128 + row * width;
        if 0 <= at && at < self.pixels.len() as i128 {
            Some(at as usize)
        } else {
            None
        }
    }
}

/// An all-black canvas of the given size.
pub fn canvas(width: i32, height: i32) -> (c: Canvas)
    requires
        0 <= width,
        0 <= height,
        width * height <= i32::MAX,
    ensures
        c.width == width,
        c.height == height,
        c.wf(),
        forall|i: int| 0 <= i < c@.len() ==> c@[i] == Color::black_spec(),
{
    let count: usize = (width * height) as usize;
    let mut pixels: Vec<Color> = Vec::new();
    while pixels.len() < count
        invariant
            pixels.len() <= count,
            forall|i: int| 0 <= i < pixels.len() ==> pixels[i] == Color::black_spec(),
        decreases count - pixels.len(),
    {
        pixels.push(Color::black());
    }
    Canvas { width, height, pixels }
}

/// Sets the pixel in column `x` of row `y`; does nothing where no pixel lies there.
pub fn write_pixel(canvas: &mut Canvas, x: usize, y: usize, color: Color)
    ensures
        final(canvas).width == old(canvas).width,
        final(canvas).height == old(canvas).height,
        old(canvas).holds(x, y) ==> final(canvas)@ == old(canvas)@.update(
            offset(old(canvas).width, x, y),
            color,
        ),
        !old(canvas).holds(x, y) ==> final(canvas)@ == old(canvas)@,
{
    match canvas.position(x, y) {
        Some(at) => {
            canvas.pixels.set(at, color);
        },
        None => {},
    }
}

/// The pixel in column `x` of row `y`, if one lies there.
pub fn pixel_at(canvas: &Canvas, x: usize, y: usize) -> (r: Option<&Color>)
    ensures
        r is Some <==> canvas.holds(x, y),
        r matches Some(color) ==> *color == canvas@[offset(canvas.width, x, y)],
{
    match canvas.position(x, y) {
        Some(at) => Some(&canvas.pixels[at]),
        None => None,
    }
}

/// Every pixel of a canvas has a place in the buffer, and two pixels have two
/// places: writing one pixel never touches another.
pub proof fn lemma_pixels_apart(
    width: i32,
    height: i32,
    x1: usize,
    y1: usize,
    x2: usize,
    y2: usize,
)
    requires
        0 <= x1 < width,
        0 <= x2 < width,
        0 <= y1 < height,
        0 <= y2 < height,
        x1 != x2 || y1 != y2,
    ensures
        0 <= offset(width, x1, y1) < width * height,
        offset(width, x1, y1) != offset(width, x2, y2),
{
    lemma_row_bounds(width as int, height as int, y1 as int);
    lemma_row_bounds(width as int, height as int, y2 as int);
    if y1 < y2 {
        lemma_row_bounds(width as int, y2 as int, y1 as int);
    } else if y2 < y1 {
        lemma_row_bounds(width as int, y1 as int, y2 as int);
    }
}

/// Row `y` of `height` rows begins at or after the start of the buffer and
/// ends at or before its end.
proof fn lemma_row_bounds(width: int, height: int, y: int)
    requires
        0 <= width,
        0 <= y < height,
    ensures
        0 <= y * width,
        y * width + width <= height * width,
        height * width == width * height,
{
    assert(0 <= y * width) by (nonlinear_arith)
        requires
            0 <= y,
            0 <= width,
    ;
    assert(y * width + width <= height * width) by (nonlinear_arith)
        requires
            y + 1 <= height,
            0 <= width,
    ;
    assert(height * width == width * height) by (nonlinear_arith);
}

} // verus!
