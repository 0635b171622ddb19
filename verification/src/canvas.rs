use vstd::prelude::*;
use vstd::pervasive::VecAdditionalExecFns;

verus! {

/// Dense 2D pixel grid in row-major order.  Each pixel is one packed
/// 0x00RRGGBB word, ready for the display buffer; the floating-point
/// shading pipeline converts its colors to this form before writing.
#[derive(Debug, Clone)]
pub struct Canvas {
    pub width: usize,
    pub height: usize,
    pub pixels: Vec<u32>,
}

/// Converts pixel coordinates into an index of the canvas buffer.
pub fn index_from_pos(x: usize, y: usize, width: usize) -> (r: usize)
    requires
        y * width + x <= usize::MAX,
    ensures
        r == y * width + x,
{
    (y * width) + x
}

/// Converts an index of the canvas buffer back into pixel coordinates.
pub fn pos_from_index(index: usize, canvas: &Canvas) -> (r: (usize, usize))
    requires
        canvas.width > 0,
    ensures
        r.0 == index as int % canvas.width as int,
        r.1 == index as int / canvas.width as int,
{
    let y = index / canvas.width;
    let x = index % canvas.width;
    (x, y)
}

impl Canvas {
    /// A canvas is well formed when its buffer holds exactly one pixel
    /// for every cell of the grid.
    pub open spec fn wf(self) -> bool {
        self.pixels@.len() == self.width * self.height
    }

    /// The pixel stored at column `x`, row `y`.
    pub open spec fn pixel(self, x: int, y: int) -> u32 {
        self.pixels@[y * self.width + x]
    }

    /// Builds a canvas of the given size with every pixel black (0).
    pub fn new_canvas(width: usize, height: usize) -> (c: Canvas)
        requires
            width * height <= usize::MAX,
        ensures
            c.wf(),
            c.width == width,
            c.height == height,
            forall|i: int| 0 <= i < c.pixels@.len() ==> c.pixels@[i] == 0u32,
    {
        Canvas { width, height, pixels: new_pixel_buffer(width * height, 0u32) }
    }

    /// Builds a canvas of the given size with every pixel set to `color`.
    pub fn new_canvas_with_color(width: usize, height: usize, color: u32) -> (c: Canvas)
        requires
            width * height <= usize::MAX,
        ensures
            c.wf(),
            c.width == width,
            c.height == height,
            forall|i: int| 0 <= i < c.pixels@.len() ==> c.pixels@[i] == color,
    {
        Canvas { width, height, pixels: new_pixel_buffer(width * height, color) }
    }

    /// Writes one pixel, leaving every other cell of the grid unchanged.
    pub fn set_pixel_color(&mut self, x_pos: usize, y_pos: usize, color: u32)
        requires
            old(self).wf(),
            x_pos < old(self).width,
            y_pos < old(self).height,
        ensures
            final(self).wf(),
            final(self).width == old(self).width,
            final(self).height == old(self).height,
            final(self).pixels@ == old(self).pixels@.update(
                y_pos * old(self).width + x_pos,
                color,
            ),
    {
        let _buffer_len = self.pixels.len();
        proof {
            lemma_pos_in_grid(x_pos as int, y_pos as int, self.width as int, self.height as int);
        }
        let index = index_from_pos(x_pos, y_pos, self.width);
        self.pixels.set(index, color);
    }

    /// Reads one pixel of the grid.
    pub fn pixel_at(&self, x_pos: usize, y_pos: usize) -> (color: u32)
        requires
            self.wf(),
            x_pos < self.width,
            y_pos < self.height,
        ensures
            color == self.pixel(x_pos as int, y_pos as int),
    {
        let _buffer_len = self.pixels.len();
        proof {
            lemma_pos_in_grid(x_pos as int, y_pos as int, self.width as int, self.height as int);
        }
        let index = index_from_pos(x_pos, y_pos, self.width);
        self.pixels[index]
    }
}

/// A coordinate pair inside the grid yields a row-major index inside the buffer.
pub proof fn lemma_pos_in_grid(x: int, y: int, width: int, height: int)
    requires
        0 <= x < width,
        0 <= y < height,
    ensures
        0 <= y * width + x < width * height,
{
    assert(y * width + x < width * height) by (nonlinear_arith)
        requires
            0 <= x < width,
            0 <= y < height,
    ;
    assert(0 <= y * width) by (nonlinear_arith)
        requires
            0 <= y,
            0 < width,
    ;
}

/// Allocates a pixel buffer of the given length filled with one color.
fn new_pixel_buffer(len: usize, color: u32) -> (v: Vec<u32>)
    ensures
        v@.len() == len,
        forall|i: int| 0 <= i < v@.len() ==> v@[i] == color,
{
    let mut v: Vec<u32> = Vec::new();
    let mut k: usize = 0;
    while k < len
        invariant
            k <= len,
            v@.len() == k,
            forall|i: int| 0 <= i < v@.len() ==> v@[i] == color,
        decreases len - k,
    {
        v.push(color);
        k = k + 1;
    }
    v
}

} // verus!
