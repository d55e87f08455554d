//! Pixel grids: RGB face images and RGBA overlay images, stored column-major
//! (pixel `(x, y)` at flat index `x * height + y`, matching the generator's
//! x-outer scan order), with the fixed per-face flips and rotations that make
//! the six cube faces tile consistently.
use vstd::arithmetic::div_mod::{
    lemma_fundamental_div_mod, lemma_fundamental_div_mod_converse_div,
    lemma_fundamental_div_mod_converse_mod, lemma_mod_division_less_than_divisor,
};
use vstd::prelude::*;

verus! {

/// Largest accepted image side length.
pub const MAX_SIDE: u32 = 4096;

/// An opaque RGB pixel.
#[derive(Clone, Copy, PartialEq, Eq, Structural, Debug)]
pub struct Rgb8 {
    pub r: u8,
    pub g: u8,
    pub b: u8,
}

/// A translucent RGBA pixel.
#[derive(Clone, Copy, PartialEq, Eq, Structural, Debug)]
pub struct Rgba8 {
    pub r: u8,
    pub g: u8,
    pub b: u8,
    pub a: u8,
}

/// An RGB image; pixel `(x, y)` lives at flat index `x * height + y`.
#[derive(Clone, PartialEq, Eq, Debug)]
pub struct FaceImage {
    pub width: u32,
    pub height: u32,
    pub pixels: Vec<Rgb8>,
}

/// An RGBA image; pixel `(x, y)` lives at flat index `x * height + y`.
#[derive(Clone, PartialEq, Eq, Debug)]
pub struct OverlayImage {
    pub width: u32,
    pub height: u32,
    pub pixels: Vec<Rgba8>,
}

impl FaceImage {
    /// Well-formedness: positive bounded sides and a fully allocated grid.
    pub open spec fn wf(self) -> bool {
        &&& 1 <= self.width <= MAX_SIDE
        &&& 1 <= self.height <= MAX_SIDE
        &&& self.pixels.len() == self.width * self.height
    }

    /// The pixel at column `x`, row `y`.
    pub open spec fn pixel_at(self, x: int, y: int) -> Rgb8 {
        self.pixels[x * self.height + y]
    }

    /// Reads the pixel at column `x`, row `y`.
    pub fn pixel(&self, x: u32, y: u32) -> (r: Rgb8)
        requires
            self.wf(),
            x < self.width,
            y < self.height,
        ensures
            r == self.pixel_at(x as int, y as int),
    {
        proof {
            lemma_grid_index(x as int, y as int, self.width as int, self.height as int);
        }
        self.pixels[(x as usize) * (self.height as usize) + (y as usize)]
    }
}

impl OverlayImage {
    /// Well-formedness: positive bounded sides and a fully allocated grid.
    pub open spec fn wf(self) -> bool {
        &&& 1 <= self.width <= MAX_SIDE
        &&& 1 <= self.height <= MAX_SIDE
        &&& self.pixels.len() == self.width * self.height
    }

    /// The pixel at column `x`, row `y`.
    pub open spec fn pixel_at(self, x: int, y: int) -> Rgba8 {
        self.pixels[x * self.height + y]
    }

    /// Reads the pixel at column `x`, row `y`.
    pub fn pixel(&self, x: u32, y: u32) -> (r: Rgba8)
        requires
            self.wf(),
            x < self.width,
            y < self.height,
        ensures
            r == self.pixel_at(x as int, y as int),
    {
        proof {
            lemma_grid_index(x as int, y as int, self.width as int, self.height as int);
        }
        self.pixels[(x as usize) * (self.height as usize) + (y as usize)]
    }
}

/// A column-major flat index stays within the grid.
pub proof fn lemma_grid_index(x: int, y: int, w: int, h: int)
    requires
        0 <= x < w,
        0 <= y < h,
    ensures
        0 <= x * h + y < w * h,
{
    assert(0 <= x * h + y < w * h) by (nonlinear_arith)
        requires
            0 <= x < w,
            0 <= y < h,
    {}
}

/// Decodes a column-major flat index back to its coordinates.
pub proof fn lemma_grid_decode(x: int, y: int, h: int)
    requires
        0 <= x,
        0 <= y < h,
    ensures
        (x * h + y) / h == x,
        (x * h + y) % h == y,
{
    lemma_fundamental_div_mod_converse_div(x * h + y, h, x, y);
    lemma_fundamental_div_mod_converse_mod(x * h + y, h, x, y);
}

/// Mirrors `img` left-to-right: output pixel `(x, y)` is input pixel
/// `(width - 1 - x, y)`.
pub fn flip_horizontal(img: &FaceImage) -> (out: FaceImage)
    requires
        img.wf(),
    ensures
        out.wf(),
        out.width == img.width,
        out.height == img.height,
        forall|x: int, y: int|
            0 <= x < img.width && 0 <= y < img.height ==> out.pixel_at(x, y) == img.pixel_at(
                img.width - 1 - x,
                y,
            ),
{
    let w: u32 = img.width;
    let h: u32 = img.height;
    proof {
        lemma_grid_index(w as int - 1, h as int - 1, w as int, h as int);
    }
    let total: usize = (w as usize) * (h as usize);
    let mut pixels: Vec<Rgb8> = Vec::new();
    let mut k: usize = 0;
    while k < total
        invariant
            img.wf(),
            w == img.width,
            h == img.height,
            total == w * h,
            pixels.len() == k <= total,
            forall|j: int|
                0 <= j < k ==> pixels[j] == img.pixel_at(w - 1 - j / (h as int), j % (h as int)),
        decreases total - k,
    {
        let x: usize = k / (h as usize);
        let y: usize = k % (h as usize);
        proof {
            lemma_fundamental_div_mod(k as int, h as int);
            lemma_mod_division_less_than_divisor(k as int, h as int);
            assert(x < w) by (nonlinear_arith)
                requires
                    k as int == h as int * x as int + y as int,
                    0 <= y < h,
                    k < w * h,
                    0 < h,
                    0 <= x,
            {}
        }
        let p = img.pixel(w - 1 - (x as u32), y as u32);
        pixels.push(p);
        k = k + 1;
    }
    let out = FaceImage { width: w, height: h, pixels };
    proof {
        assert forall|x: int, y: int|
            0 <= x < img.width && 0 <= y < img.height implies out.pixel_at(x, y) == img.pixel_at(
            img.width - 1 - x,
            y,
        ) by {
            lemma_grid_index(x, y, w as int, h as int);
            lemma_grid_decode(x, y, h as int);
        }
    }
    out
}

/// Rotates `img` a quarter turn clockwise: output pixel `(x, y)` of the
/// `height x width` result is input pixel `(y, height - 1 - x)`.
pub fn rotate90(img: &FaceImage) -> (out: FaceImage)
    requires
        img.wf(),
    ensures
        out.wf(),
        out.width == img.height,
        out.height == img.width,
        forall|x: int, y: int|
            0 <= x < img.height && 0 <= y < img.width ==> out.pixel_at(x, y) == img.pixel_at(
                y,
                img.height - 1 - x,
            ),
{
    let w: u32 = img.height;
    let h: u32 = img.width;
    proof {
        lemma_grid_index(w as int - 1, h as int - 1, w as int, h as int);
        assert(w * h == img.width * img.height) by (nonlinear_arith)
            requires
                w == img.height,
                h == img.width,
        {}
    }
    let total: usize = (w as usize) * (h as usize);
    let mut pixels: Vec<Rgb8> = Vec::new();
    let mut k: usize = 0;
    while k < total
        invariant
            img.wf(),
            w == img.height,
            h == img.width,
            total == w * h,
            pixels.len() == k <= total,
            forall|j: int|
                0 <= j < k ==> pixels[j] == img.pixel_at(
                    j % (h as int),
                    img.height - 1 - j / (h as int),
                ),
        decreases total - k,
    {
        let x: usize = k / (h as usize);
        let y: usize = k % (h as usize);
        proof {
            lemma_fundamental_div_mod(k as int, h as int);
            lemma_mod_division_less_than_divisor(k as int, h as int);
            assert(x < w) by (nonlinear_arith)
                requires
                    k as int == h as int * x as int + y as int,
                    0 <= y < h,
                    k < w * h,
                    0 < h,
                    0 <= x,
            {}
        }
        let p = img.pixel(y as u32, img.height - 1 - (x as u32));
        pixels.push(p);
        k = k + 1;
    }
    let out = FaceImage { width: w, height: h, pixels };
    proof {
        assert forall|x: int, y: int|
            0 <= x < img.height && 0 <= y < img.width implies out.pixel_at(x, y) == img.pixel_at(
            y,
            img.height - 1 - x,
        ) by {
            lemma_grid_index(x, y, w as int, h as int);
            lemma_grid_decode(x, y, h as int);
        }
    }
    out
}

/// Rotates `img` a quarter turn counter-clockwise: output pixel `(x, y)` of
/// the `height x width` result is input pixel `(width - 1 - y, x)`.
pub fn rotate270(img: &FaceImage) -> (out: FaceImage)
    requires
        img.wf(),
    ensures
        out.wf(),
        out.width == img.height,
        out.height == img.width,
        forall|x: int, y: int|
            0 <= x < img.height && 0 <= y < img.width ==> out.pixel_at(x, y) == img.pixel_at(
                img.width - 1 - y,
                x,
            ),
{
    let w: u32 = img.height;
    let h: u32 = img.width;
    proof {
        lemma_grid_index(w as int - 1, h as int - 1, w as int, h as int);
        assert(w * h == img.width * img.height) by (nonlinear_arith)
            requires
                w == img.height,
                h == img.width,
        {}
    }
    let total: usize = (w as usize) * (h as usize);
    let mut pixels: Vec<Rgb8> = Vec::new();
    let mut k: usize = 0;
    while k < total
        invariant
            img.wf(),
            w == img.height,
            h == img.width,
            total == w * h,
            pixels.len() == k <= total,
            forall|j: int|
                0 <= j < k ==> pixels[j] == img.pixel_at(
                    img.width - 1 - j % (h as int),
                    j / (h as int),
                ),
        decreases total - k,
    {
        let x: usize = k / (h as usize);
        let y: usize = k % (h as usize);
        proof {
            lemma_fundamental_div_mod(k as int, h as int);
            lemma_mod_division_less_than_divisor(k as int, h as int);
            assert(x < w) by (nonlinear_arith)
                requires
                    k as int == h as int * x as int + y as int,
                    0 <= y < h,
                    k < w * h,
                    0 < h,
                    0 <= x,
            {}
        }
        let p = img.pixel(img.width - 1 - (y as u32), x as u32);
        pixels.push(p);
        k = k + 1;
    }
    let out = FaceImage { width: w, height: h, pixels };
    proof {
        assert forall|x: int, y: int|
            0 <= x < img.height && 0 <= y < img.width implies out.pixel_at(x, y) == img.pixel_at(
            img.width - 1 - y,
            x,
        ) by {
            lemma_grid_index(x, y, w as int, h as int);
            lemma_grid_decode(x, y, h as int);
        }
    }
    out
}

} // verus!
