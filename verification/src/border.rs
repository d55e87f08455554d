//! Border extraction: marks every pixel whose 8-connected neighborhood
//! holds a differing color, brightens the marked pixels (bloom), and
//! softens the result with a separable 5-tap Gaussian blur.
use crate::grid::{lemma_grid_decode, lemma_grid_index, FaceImage, OverlayImage, Rgb8, Rgba8};
use vstd::arithmetic::div_mod::{lemma_fundamental_div_mod, lemma_mod_division_less_than_divisor};
use vstd::prelude::*;

verus! {

/// Alpha of a boundary pixel before blurring.
pub const BORDER_ALPHA: u8 = 180;

/// A neighbor at `(nx, ny)` is inside the image and differs in color from
/// the pixel at `(x, y)`.
pub open spec fn differs(img: FaceImage, x: int, y: int, nx: int, ny: int) -> bool {
    &&& 0 <= nx < img.width
    &&& 0 <= ny < img.height
    &&& img.pixel_at(nx, ny) != img.pixel_at(x, y)
}

/// The pixel at `(x, y)` touches a province boundary: some 8-connected
/// neighbor (clamped at the image edges) carries a different color.
pub open spec fn is_border(img: FaceImage, x: int, y: int) -> bool {
    ||| differs(img, x, y, x - 1, y - 1)
    ||| differs(img, x, y, x - 1, y)
    ||| differs(img, x, y, x - 1, y + 1)
    ||| differs(img, x, y, x, y - 1)
    ||| differs(img, x, y, x, y + 1)
    ||| differs(img, x, y, x + 1, y - 1)
    ||| differs(img, x, y, x + 1, y)
    ||| differs(img, x, y, x + 1, y + 1)
}

/// A bloomed channel: the channel value brightened half again and capped.
pub open spec fn bloom_channel_spec(c: u8) -> u8 {
    if 3 * c / 2 > 255 {
        255u8
    } else {
        (3 * c / 2) as u8
    }
}

/// The border overlay before blurring: boundary pixels carry their bloomed
/// source color at `BORDER_ALPHA`; all other pixels are fully transparent.
pub open spec fn border_pixel_spec(img: FaceImage, x: int, y: int) -> Rgba8 {
    if is_border(img, x, y) {
        let p = img.pixel_at(x, y);
        Rgba8 {
            r: bloom_channel_spec(p.r),
            g: bloom_channel_spec(p.g),
            b: bloom_channel_spec(p.b),
            a: BORDER_ALPHA,
        }
    } else {
        Rgba8 { r: 0, g: 0, b: 0, a: 0 }
    }
}

/// Brightens one channel by half, capped at full intensity.
fn bloom_channel(c: u8) -> (r: u8)
    ensures
        r == bloom_channel_spec(c),
{
    let t: u32 = (c as u32) * 3 / 2;
    if t > 255 {
        255
    } else {
        t as u8
    }
}

/// Whether two colors differ in any channel.
fn rgb_ne(a: Rgb8, b: Rgb8) -> (r: bool)
    ensures
        r == (a != b),
{
    a.r != b.r || a.g != b.g || a.b != b.b
}

/// Whether any 8-connected neighbor of `(x, y)` differs in color.
fn has_differing_neighbor(img: &FaceImage, x: u32, y: u32) -> (r: bool)
    requires
        img.wf(),
        x < img.width,
        y < img.height,
    ensures
        r == is_border(*img, x as int, y as int),
{
    let center = img.pixel(x, y);
    if x > 0 {
        if y > 0 && rgb_ne(img.pixel(x - 1, y - 1), center) {
            return true;
        }
        if rgb_ne(img.pixel(x - 1, y), center) {
            return true;
        }
        if y + 1 < img.height && rgb_ne(img.pixel(x - 1, y + 1), center) {
            return true;
        }
    }
    if y > 0 && rgb_ne(img.pixel(x, y - 1), center) {
        return true;
    }
    if y + 1 < img.height && rgb_ne(img.pixel(x, y + 1), center) {
        return true;
    }
    if x + 1 < img.width {
        if y > 0 && rgb_ne(img.pixel(x + 1, y - 1), center) {
            return true;
        }
        if rgb_ne(img.pixel(x + 1, y), center) {
            return true;
        }
        if y + 1 < img.height && rgb_ne(img.pixel(x + 1, y + 1), center) {
            return true;
        }
    }
    false
}

/// Extracts the pre-blur border overlay of one face image: a pixel is
/// non-transparent exactly when its 8-connected neighborhood holds a
/// differing color, and then carries the bloomed source color.
pub fn detect_borders(img: &FaceImage) -> (out: OverlayImage)
    requires
        img.wf(),
    ensures
        out.wf(),
        out.width == img.width,
        out.height == img.height,
        forall|x: int, y: int|
            0 <= x < img.width && 0 <= y < img.height ==> out.pixel_at(x, y) == border_pixel_spec(
                *img,
                x,
                y,
            ),
        forall|x: int, y: int|
            0 <= x < img.width && 0 <= y < img.height ==> (out.pixel_at(x, y).a != 0 <==> is_border(
                *img,
                x,
                y,
            )),
{
    let w: u32 = img.width;
    let h: u32 = img.height;
    proof {
        lemma_grid_index(w as int - 1, h as int - 1, w as int, h as int);
    }
    let total: usize = (w as usize) * (h as usize);
    let mut pixels: Vec<Rgba8> = Vec::new();
    let mut k: usize = 0;
    while k < total
        invariant
            img.wf(),
            w == img.width,
            h == img.height,
            total == w * h,
            pixels.len() == k <= total,
            forall|j: int|
                0 <= j < k ==> pixels[j] == border_pixel_spec(
                    *img,
                    j / (h as int),
                    j % (h as int),
                ),
        decreases total - k,
    {
        let x: usize = k / (h as usize);
        let y: usize = k % (h as usize);
        proof {
            lemma_fundamental_div_mod(k as int, h as int);
            lemma_mod_division_less_than_divisor(k as int, h as int);
            assert(x < w) by (nonlinear_arith)
                requires
                    k as int == h as int * x as int + y as int,
                    0 <= y < h,
                    k < w * h,
                    0 < h,
                    0 <= x,
            {}
        }
        let p: Rgba8 = if has_differing_neighbor(img, x as u32, y as u32) {
            let c = img.pixel(x as u32, y as u32);
            Rgba8 {
                r: bloom_channel(c.r),
                g: bloom_channel(c.g),
                b: bloom_channel(c.b),
                a: BORDER_ALPHA,
            }
        } else {
            Rgba8 { r: 0, g: 0, b: 0, a: 0 }
        };
        pixels.push(p);
        k = k + 1;
    }
    let out = OverlayImage { width: w, height: h, pixels };
    proof {
        assert forall|x: int, y: int|
            0 <= x < img.width && 0 <= y < img.height implies out.pixel_at(x, y)
            == border_pixel_spec(*img, x, y) by {
            lemma_grid_index(x, y, w as int, h as int);
            lemma_grid_decode(x, y, h as int);
        }
    }
    out
}

/// Clamps an index to `[0, hi]`.
pub open spec fn clamp_idx(v: int, hi: int) -> int {
    if v < 0 {
        0
    } else if v > hi {
        hi
    } else {
        v
    }
}

/// The 5-tap blur kernel applied to one channel: weights 2, 56, 169, 56, 2
/// (a Gaussian of sigma roughly two thirds of a pixel), normalized by their
/// sum.
pub open spec fn blur5_spec(a: u8, b: u8, c: u8, d: u8, e: u8) -> u8 {
    ((2 * a + 56 * b + 169 * c + 56 * d + 2 * e) / 285) as u8
}

/// Applies the 5-tap kernel to one channel.
fn blur5(a: u8, b: u8, c: u8, d: u8, e: u8) -> (r: u8)
    ensures
        r == blur5_spec(a, b, c, d, e),
{
    let sum: u32 = 2 * (a as u32) + 56 * (b as u32) + 169 * (c as u32) + 56 * (d as u32) + 2 * (
    e as u32);
    (sum / 285) as u8
}

/// One horizontally blurred pixel of an overlay.
pub open spec fn hblur_pixel(img: OverlayImage, x: int, y: int) -> Rgba8 {
    let p0 = img.pixel_at(clamp_idx(x - 2, img.width - 1), y);
    let p1 = img.pixel_at(clamp_idx(x - 1, img.width - 1), y);
    let p2 = img.pixel_at(x, y);
    let p3 = img.pixel_at(clamp_idx(x + 1, img.width - 1), y);
    let p4 = img.pixel_at(clamp_idx(x + 2, img.width - 1), y);
    Rgba8 {
        r: blur5_spec(p0.r, p1.r, p2.r, p3.r, p4.r),
        g: blur5_spec(p0.g, p1.g, p2.g, p3.g, p4.g),
        b: blur5_spec(p0.b, p1.b, p2.b, p3.b, p4.b),
        a: blur5_spec(p0.a, p1.a, p2.a, p3.a, p4.a),
    }
}

/// One vertically blurred pixel of an overlay.
pub open spec fn vblur_pixel(img: OverlayImage, x: int, y: int) -> Rgba8 {
    let p0 = img.pixel_at(x, clamp_idx(y - 2, img.height - 1));
    let p1 = img.pixel_at(x, clamp_idx(y - 1, img.height - 1));
    let p2 = img.pixel_at(x, y);
    let p3 = img.pixel_at(x, clamp_idx(y + 1, img.height - 1));
    let p4 = img.pixel_at(x, clamp_idx(y + 2, img.height - 1));
    Rgba8 {
        r: blur5_spec(p0.r, p1.r, p2.r, p3.r, p4.r),
        g: blur5_spec(p0.g, p1.g, p2.g, p3.g, p4.g),
        b: blur5_spec(p0.b, p1.b, p2.b, p3.b, p4.b),
        a: blur5_spec(p0.a, p1.a, p2.a, p3.a, p4.a),
    }
}

/// Clamps `v + delta` to `[0, hi]`, with `delta` in `[-2, 2]`.
fn clamp_offset(v: u32, delta: i32, hi: u32) -> (r: u32)
    requires
        v <= hi,
        hi < 0x8000_0000,
        -2 <= delta <= 2,
    ensures
        r == clamp_idx(v + delta, hi as int),
{
    let shifted: i64 = (v as i64) + (delta as i64);
    if shifted < 0 {
        0
    } else if shifted > (hi as i64) {
        hi
    } else {
        shifted as u32
    }
}

/// Blurs an overlay along the horizontal axis with the 5-tap kernel.
fn blur_horizontal(img: &OverlayImage) -> (out: OverlayImage)
    requires
        img.wf(),
    ensures
        out.wf(),
        out.width == img.width,
        out.height == img.height,
        forall|x: int, y: int|
            0 <= x < img.width && 0 <= y < img.height ==> out.pixel_at(x, y) == hblur_pixel(
                *img,
                x,
                y,
            ),
{
    let w: u32 = img.width;
    let h: u32 = img.height;
    proof {
        lemma_grid_index(w as int - 1, h as int - 1, w as int, h as int);
    }
    let total: usize = (w as usize) * (h as usize);
    let mut pixels: Vec<Rgba8> = Vec::new();
    let mut k: usize = 0;
    while k < total
        invariant
            img.wf(),
            w == img.width,
            h == img.height,
            total == w * h,
            pixels.len() == k <= total,
            forall|j: int|
                0 <= j < k ==> pixels[j] == hblur_pixel(*img, j / (h as int), j % (h as int)),
        decreases total - k,
    {
        let x: usize = k / (h as usize);
        let y: usize = k % (h as usize);
        proof {
            lemma_fundamental_div_mod(k as int, h as int);
            lemma_mod_division_less_than_divisor(k as int, h as int);
            assert(x < w) by (nonlinear_arith)
                requires
                    k as int == h as int * x as int + y as int,
                    0 <= y < h,
                    k < w * h,
                    0 < h,
                    0 <= x,
            {}
        }
        let p0 = img.pixel(clamp_offset(x as u32, -2, w - 1), y as u32);
        let p1 = img.pixel(clamp_offset(x as u32, -1, w - 1), y as u32);
        let p2 = img.pixel(x as u32, y as u32);
        let p3 = img.pixel(clamp_offset(x as u32, 1, w - 1), y as u32);
        let p4 = img.pixel(clamp_offset(x as u32, 2, w - 1), y as u32);
        let p = Rgba8 {
            r: blur5(p0.r, p1.r, p2.r, p3.r, p4.r),
            g: blur5(p0.g, p1.g, p2.g, p3.g, p4.g),
            b: blur5(p0.b, p1.b, p2.b, p3.b, p4.b),
            a: blur5(p0.a, p1.a, p2.a, p3.a, p4.a),
        };
        pixels.push(p);
        k = k + 1;
    }
    let out = OverlayImage { width: w, height: h, pixels };
    proof {
        assert forall|x: int, y: int|
            0 <= x < img.width && 0 <= y < img.height implies out.pixel_at(x, y) == hblur_pixel(
            *img,
            x,
            y,
        ) by {
            lemma_grid_index(x, y, w as int, h as int);
            lemma_grid_decode(x, y, h as int);
        }
    }
    out
}

/// Blurs an overlay along the vertical axis with the 5-tap kernel.
fn blur_vertical(img: &OverlayImage) -> (out: OverlayImage)
    requires
        img.wf(),
    ensures
        out.wf(),
        out.width == img.width,
        out.height == img.height,
        forall|x: int, y: int|
            0 <= x < img.width && 0 <= y < img.height ==> out.pixel_at(x, y) == vblur_pixel(
                *img,
                x,
                y,
            ),
{
    let w: u32 = img.width;
    let h: u32 = img.height;
    proof {
        lemma_grid_index(w as int - 1, h as int - 1, w as int, h as int);
    }
    let total: usize = (w as usize) * (h as usize);
    let mut pixels: Vec<Rgba8> = Vec::new();
    let mut k: usize = 0;
    while k < total
        invariant
            img.wf(),
            w == img.width,
            h == img.height,
            total == w * h,
            pixels.len() == k <= total,
            forall|j: int|
                0 <= j < k ==> pixels[j] == vblur_pixel(*img, j / (h as int), j % (h as int)),
        decreases total - k,
    {
        let x: usize = k / (h as usize);
        let y: usize = k % (h as usize);
        proof {
            lemma_fundamental_div_mod(k as int, h as int);
            lemma_mod_division_less_than_divisor(k as int, h as int);
            assert(x < w) by (nonlinear_arith)
                requires
                    k as int == h as int * x as int + y as int,
                    0 <= y < h,
                    k < w * h,
                    0 < h,
                    0 <= x,
            {}
        }
        let p0 = img.pixel(x as u32, clamp_offset(y as u32, -2, h - 1));
        let p1 = img.pixel(x as u32, clamp_offset(y as u32, -1, h - 1));
        let p2 = img.pixel(x as u32, y as u32);
        let p3 = img.pixel(x as u32, clamp_offset(y as u32, 1, h - 1));
        let p4 = img.pixel(x as u32, clamp_offset(y as u32, 2, h - 1));
        let p = Rgba8 {
            r: blur5(p0.r, p1.r, p2.r, p3.r, p4.r),
            g: blur5(p0.g, p1.g, p2.g, p3.g, p4.g),
            b: blur5(p0.b, p1.b, p2.b, p3.b, p4.b),
            a: blur5(p0.a, p1.a, p2.a, p3.a, p4.a),
        };
        pixels.push(p);
        k = k + 1;
    }
    let out = OverlayImage { width: w, height: h, pixels };
    proof {
        assert forall|x: int, y: int|
            0 <= x < img.width && 0 <= y < img.height implies out.pixel_at(x, y) == vblur_pixel(
            *img,
            x,
            y,
        ) by {
            lemma_grid_index(x, y, w as int, h as int);
            lemma_grid_decode(x, y, h as int);
        }
    }
    out
}

/// The horizontally blurred value over the pre-blur border overlay of a
/// face image.
pub open spec fn hborder_pixel(img: FaceImage, x: int, y: int) -> Rgba8 {
    let p0 = border_pixel_spec(img, clamp_idx(x - 2, img.width - 1), y);
    let p1 = border_pixel_spec(img, clamp_idx(x - 1, img.width - 1), y);
    let p2 = border_pixel_spec(img, x, y);
    let p3 = border_pixel_spec(img, clamp_idx(x + 1, img.width - 1), y);
    let p4 = border_pixel_spec(img, clamp_idx(x + 2, img.width - 1), y);
    Rgba8 {
        r: blur5_spec(p0.r, p1.r, p2.r, p3.r, p4.r),
        g: blur5_spec(p0.g, p1.g, p2.g, p3.g, p4.g),
        b: blur5_spec(p0.b, p1.b, p2.b, p3.b, p4.b),
        a: blur5_spec(p0.a, p1.a, p2.a, p3.a, p4.a),
    }
}

/// One pixel of the finished border overlay of a face image: the border
/// overlay blurred horizontally, then vertically.
pub open spec fn border_overlay_pixel(img: FaceImage, x: int, y: int) -> Rgba8 {
    let p0 = hborder_pixel(img, x, clamp_idx(y - 2, img.height - 1));
    let p1 = hborder_pixel(img, x, clamp_idx(y - 1, img.height - 1));
    let p2 = hborder_pixel(img, x, y);
    let p3 = hborder_pixel(img, x, clamp_idx(y + 1, img.height - 1));
    let p4 = hborder_pixel(img, x, clamp_idx(y + 2, img.height - 1));
    Rgba8 {
        r: blur5_spec(p0.r, p1.r, p2.r, p3.r, p4.r),
        g: blur5_spec(p0.g, p1.g, p2.g, p3.g, p4.g),
        b: blur5_spec(p0.b, p1.b, p2.b, p3.b, p4.b),
        a: blur5_spec(p0.a, p1.a, p2.a, p3.a, p4.a),
    }
}

/// Produces one translucent, blurred border overlay per face image, each
/// with its source image's dimensions.
pub fn get_border_images(images: &Vec<FaceImage>) -> (r: Vec<OverlayImage>)
    requires
        forall|f: int| 0 <= f < images.len() ==> (#[trigger] images[f]).wf(),
    ensures
        r.len() == images.len(),
        forall|f: int|
            0 <= f < images.len() ==> (#[trigger] r[f]).wf() && r[f].width == images[f].width
                && r[f].height == images[f].height,
        forall|f: int, x: int, y: int|
            0 <= f < images.len() && 0 <= x < images[f].width && 0 <= y < images[f].height
                ==> #[trigger] r[f].pixel_at(x, y) == border_overlay_pixel(images[f], x, y),
{
    let mut out: Vec<OverlayImage> = Vec::new();
    let mut f: usize = 0;
    while f < images.len()
        invariant
            f <= images.len(),
            out.len() == f,
            forall|i: int| 0 <= i < images.len() ==> (#[trigger] images[i]).wf(),
            forall|i: int|
                0 <= i < f ==> (#[trigger] out[i]).wf() && out[i].width == images[i].width
                    && out[i].height == images[i].height,
            forall|i: int, x: int, y: int|
                0 <= i < f && 0 <= x < images[i].width && 0 <= y < images[i].height
                    ==> #[trigger] out[i].pixel_at(x, y) == border_overlay_pixel(images[i], x, y),
        decreases images.len() - f,
    {
        let bordered = detect_borders(&images[f]);
        let hpass = blur_horizontal(&bordered);
        let vpass = blur_vertical(&hpass);
        proof {
            let img = images@[f as int];
            assert forall|x: int, y: int|
                0 <= x < img.width && 0 <= y < img.height implies #[trigger] vpass.pixel_at(x, y)
                == border_overlay_pixel(img, x, y) by {
                assert forall|xx: int, yy: int|
                    0 <= xx < img.width && 0 <= yy < img.height implies #[trigger] hpass.pixel_at(
                    xx,
                    yy,
                ) == hborder_pixel(img, xx, yy) by {
                    assert(hpass.pixel_at(xx, yy) == hblur_pixel(bordered, xx, yy));
                }
                assert(vpass.pixel_at(x, y) == vblur_pixel(hpass, x, y));
            }
        }
        out.push(vpass);
        f = f + 1;
    }
    out
}

} // verus!
