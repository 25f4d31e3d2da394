//! The pixel buffer that every generation is drawn into.

use vstd::arithmetic::div_mod::{lemma_fundamental_div_mod, lemma_fundamental_div_mod_converse};
use vstd::prelude::*;

verus! {

/// A `width` by `height` raster of packed RGB pixels, stored row by row.
pub struct Framebuffer {
    pub width: usize,
    pub height: usize,
    pub buffer: Vec<u32>,
}

/// A buffer of `len` pixels that all hold `color`.
pub open spec fn filled(len: nat, color: u32) -> Seq<u32> {
    Seq::new(len, |i: int| color)
}

/// The place of the pixel `(x, y)` in a buffer whose rows are `width` long.
pub open spec fn pixel_index(width: int, x: int, y: int) -> int {
    y * width + x
}

/// The pixel `(x, y)` lies at an index from which its coordinates can be read
/// back.
pub proof fn lemma_pixel_index(width: int, height: int, x: int, y: int)
    requires
        0 <= x < width,
        0 <= y < height,
    ensures
        0 <= pixel_index(width, x, y) < width * height,
        pixel_index(width, x, y) % width == x,
        pixel_index(width, x, y) / width == y,
{
    lemma_fundamental_div_mod_converse(y * width + x, width, y, x);
    assert(y * width + x < width * height) by (nonlinear_arith)
        requires
            0 <= x < width,
            0 <= y < height,
    ;
    assert(0 <= y * width) by (nonlinear_arith)
        requires
            0 <= y,
            0 <= width,
    ;
}

/// Every index of the buffer is the place of exactly one pixel.
pub proof fn lemma_index_pixel(width: int, height: int, i: int)
    requires
        0 <= i < width * height,
        0 <= height,
        0 <= width,
    ensures
        0 <= i % width < width,
        0 <= i / width < height,
        pixel_index(width, i % width, i / width) == i,
{
    assert(width > 0) by (nonlinear_arith)
        requires
            0 <= i < width * height,
            0 <= width,
    ;
    lemma_fundamental_div_mod(i, width);
    let q = i / width;
    assert(width * q == q * width) by (nonlinear_arith);
    assert(0 <= q < height) by (nonlinear_arith)
        requires
            0 <= i < width * height,
            i == q * width + i % width,
            0 <= i % width < width,
            0 <= height,
    ;
}

impl Framebuffer {
    /// The buffer holds exactly one entry for each pixel.
    pub open spec fn wf(&self) -> bool {
        self.buffer@.len() == self.width * self.height
    }

    /// The colour of the pixel `(x, y)`.
    pub open spec fn pixel(&self, x: int, y: int) -> u32 {
        self.buffer@[pixel_index(self.width as int, x, y)]
    }

    /// A buffer of the given size with every pixel zero.
    pub fn new(width: usize, height: usize) -> (framebuffer: Framebuffer)
        requires
            width * height <= usize::MAX,
        ensures
            framebuffer.wf(),
            framebuffer.width == width,
            framebuffer.height == height,
            framebuffer.buffer@ == filled((width * height) as nat, 0),
    {
        let framebuffer = Framebuffer { width, height, buffer: vec![0; width * height] };
        assert(framebuffer.buffer@ =~= filled((width * height) as nat, 0));
        framebuffer
    }

    /// Sets every pixel to `color`.
    pub fn set_background_color(&mut self, color: u32)
        ensures
            final(self).width == old(self).width,
            final(self).height == old(self).height,
            final(self).buffer@ == filled(old(self).buffer@.len(), color),
    {
        let len = self.buffer.len();
        for i in 0..len
            invariant
                self.width == old(self).width,
                self.height == old(self).height,
                self.buffer.len() == len,
                len == old(self).buffer.len(),
                forall|j: int| 0 <= j < i ==> self.buffer[j] == color,
        {
            self.buffer[i] = color;
        }
        assert(self.buffer@ =~= filled(old(self).buffer@.len(), color));
    }

    /// Writes `color` to the pixel `(x, y)`. A point outside the raster is
    /// ignored.
    pub fn point(&mut self, x: usize, y: usize, color: u32)
        requires
            old(self).wf(),
        ensures
            final(self).width == old(self).width,
            final(self).height == old(self).height,
            x < old(self).width && y < old(self).height ==> final(self).buffer@ == old(
                self,
            ).buffer@.update(pixel_index(old(self).width as int, x as int, y as int), color),
            !(x < old(self).width && y < old(self).height) ==> final(self).buffer@ == old(
                self,
            ).buffer@,
    {
        if x < self.width && y < self.height {
            proof {
                lemma_pixel_index(self.width as int, self.height as int, x as int, y as int);
                assert(self.buffer.len() == self.width * self.height);
                assert(0 <= y * self.width) by (nonlinear_arith);
            }
            self.buffer[y * self.width + x] = color;
        }
    }

    /// Sets every pixel to zero.
    pub fn clear(&mut self)
        ensures
            final(self).width == old(self).width,
            final(self).height == old(self).height,
            final(self).buffer@ == filled(old(self).buffer@.len(), 0),
    {
        self.set_background_color(0);
    }
}

} // verus!
