use vstd::prelude::*;

verus! {

/// An immutable width x height grid of 8-bit intensities, stored row by row.
pub struct GrayscaleImage {
    pub width: u32,
    pub height: u32,
    pub pixels: Vec<u8>,
}

impl GrayscaleImage {
    /// The image is well formed: one intensity per pixel, and both sides small
    /// enough that every coordinate fits an `i32`.
    pub open spec fn wf(&self) -> bool {
        &&& self.pixels@.len() == self.width as int * self.height as int
        &&& self.width <= i32::MAX
        &&& self.height <= i32::MAX
    }

    pub open spec fn spec_width(&self) -> int {
        self.width as int
    }

    pub open spec fn spec_height(&self) -> int {
        self.height as int
    }

    /// Intensity at column `x`, row `y`.
    pub open spec fn at(&self, x: int, y: int) -> int {
        self.pixels@[y * self.width as int + x] as int
    }

    /// Builds an image from its rows laid end to end; `None` unless there is
    /// exactly one intensity per pixel and both sides fit an `i32`.
    pub fn new(width: u32, height: u32, pixels: Vec<u8>) -> (r: Option<GrayscaleImage>)
        ensures
            r.is_some() <==> (pixels@.len() == width as int * height as int && width <= i32::MAX
                && height <= i32::MAX),
            r matches Some(img) ==> img.wf() && img.spec_width() == width && img.spec_height()
                == height && img.pixels@ == pixels@,
    {
        if width > i32::MAX as u32 || height > i32::MAX as u32 {
            return None;
        }
        assert(width as int * height as int <= 0x4000_0000_0000_0000) by (nonlinear_arith)
            requires
                width <= 0x8000_0000,
                height <= 0x8000_0000,
        ;
        let expected: u64 = width as u64 * height as u64;
        if pixels.len() as u64 != expected {
            return None;
        }
        Some(GrayscaleImage { width, height, pixels })
    }

    pub fn width(&self) -> (r: u32)
        ensures
            r == self.spec_width(),
    {
        self.width
    }

    pub fn height(&self) -> (r: u32)
        ensures
            r == self.spec_height(),
    {
        self.height
    }

    /// The intensities, row by row.
    pub fn pixels(&self) -> (r: &Vec<u8>)
        ensures
            r@ == self.pixels@,
    {
        &self.pixels
    }

    /// Intensity at column `x`, row `y`.
    pub fn get_pixel(&self, x: u32, y: u32) -> (r: u8)
        requires
            self.wf(),
            x < self.spec_width(),
            y < self.spec_height(),
        ensures
            r == self.at(x as int, y as int),
    {
        let len = self.pixels.len();
        proof {
            lemma_index_in_grid(x as int, y as int, self.width as int, self.height as int);
            assert((y as int) * (self.width as int) + (x as int) < len);
        }
        let i: usize = y as usize * self.width as usize + x as usize;
        self.pixels[i]
    }
}

/// A cell of a `w` x `h` grid has a row-major index below `w * h`.
pub proof fn lemma_index_in_grid(x: int, y: int, w: int, h: int)
    requires
        0 <= x < w,
        0 <= y < h,
    ensures
        0 <= y * w,
        0 <= y * w + x < w * h,
{
    assert(y * w + x < w * h) by (nonlinear_arith)
        requires
            0 <= x < w,
            0 <= y < h,
    ;
    assert(0 <= y * w) by (nonlinear_arith)
        requires
            0 <= y,
            0 <= w,
    ;
}

} // verus!
