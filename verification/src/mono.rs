//! Image-mode rendering: proportional scaling of a grayscale source to
//! the canvas height, reduction to a strict two-level (black/white)
//! image by deterministic error-diffusion dithering, and compositing
//! onto a fresh white canvas at the origin.

use vstd::prelude::*;
use vstd::arithmetic::div_mod::lemma_fundamental_div_mod;
use crate::canvas::{Canvas, lemma_grid_index};

verus! {

/// `num / den` rounded to the nearest integer, halves away from zero
/// (for non-negative operands).
pub open spec fn round_ratio(num: int, den: int) -> int {
    (2 * num + den) / (2 * den)
}

/// The proportionally scaled content width of a source image: scaling
/// a `orig_w x orig_h` image to height `target_h` keeps the aspect
/// ratio, so the new width is `orig_w * target_h / orig_h`, rounded to
/// the nearest integer.
pub fn scaled_width(orig_w: u32, orig_h: u32, target_h: u32) -> (r: u64)
    requires
        orig_h >= 1,
    ensures
        r as int == round_ratio(orig_w as int * target_h as int, orig_h as int),
{
    proof {
        assert(2 * (orig_w as int) * (target_h as int) + orig_h as int <= u128::MAX)
            by (nonlinear_arith)
            requires
                0 <= orig_w as int <= 0xffff_ffff,
                0 <= target_h as int <= 0xffff_ffff,
                0 <= orig_h as int <= 0xffff_ffff,
        ;
    }
    let num: u128 = 2u128 * (orig_w as u128) * (target_h as u128) + (orig_h as u128);
    let den: u128 = 2u128 * (orig_h as u128);
    let q: u128 = num / den;
    proof {
        let wt = orig_w as int * target_h as int;
        let h = orig_h as int;
        assert(2 * (orig_w as int) * (target_h as int) == 2 * wt) by (nonlinear_arith)
            requires
                wt == orig_w as int * target_h as int,
        ;
        assert(num as int == 2 * wt + h);
        assert(q as int == (2 * wt + h) / (2 * h));
        lemma_fundamental_div_mod(2 * wt + h, 2 * h);
        let e = (2 * wt + h) / (2 * h);
        let rr = (2 * wt + h) % (2 * h);
        vstd::arithmetic::div_mod::lemma_mod_pos_bound(2 * wt + h, 2 * h);
        assert(e <= wt + 1) by (nonlinear_arith)
            requires
                2 * wt + h == 2 * h * e + rr,
                0 <= rr,
                h >= 1,
                wt >= 0,
        ;
        assert(e >= 0) by (nonlinear_arith)
            requires
                2 * wt + h == 2 * h * e + rr,
                rr < 2 * h,
                h >= 1,
                wt >= 0,
        ;
        assert(wt <= 0xffff_fffe_0000_0001) by (nonlinear_arith)
            requires
                wt == orig_w as int * target_h as int,
                0 <= orig_w as int <= 0xffff_ffff,
                0 <= target_h as int <= 0xffff_ffff,
        ;
    }
    q as u64
}

/// What the image crate's Lanczos3 resampler returns for a grayscale
/// `w x h` pixel grid scaled to `nw x nh`.
pub uninterp spec fn lanczos_resample(pixels: Seq<u8>, w: nat, h: nat, nw: nat, nh: nat) -> Seq<u8>;

/// What the image crate's Floyd–Steinberg dithering with the `BiLevel`
/// color map returns for a grayscale `w x h` pixel grid.
pub uninterp spec fn bilevel_dither(pixels: Seq<u8>, w: nat, h: nat) -> Seq<u8>;

/// Relies on image's `imageops::resize` with `FilterType::Lanczos3` on a
/// grayscale buffer: a deterministic function of the source pixels and
/// the dimensions alone, returning a buffer of exactly `nw * nh`
/// samples. `pixels` must hold exactly `w * h` samples so that
/// `ImageBuffer::from_raw` accepts it.
#[verifier::external_body]
fn resize_lanczos(pixels: &Vec<u8>, w: u32, h: u32, nw: u32, nh: u32) -> (r: Vec<u8>)
    requires
        pixels@.len() == w as int * h as int,
        w >= 1,
        h >= 1,
        nw >= 1,
        nh >= 1,
        nw as int * nh as int <= usize::MAX,
    ensures
        r@ == lanczos_resample(pixels@, w as nat, h as nat, nw as nat, nh as nat),
        r@.len() == nw as int * nh as int,
{
    let img: image::ImageBuffer<image::Luma<u8>, Vec<u8>> =
        image::ImageBuffer::from_raw(w, h, pixels.clone()).unwrap();
    let out = image::imageops::resize(&img, nw, nh, image::imageops::FilterType::Lanczos3);
    out.into_raw()
}

/// Relies on image's `imageops::dither` with the `BiLevel` color map
/// (deterministic Floyd–Steinberg error diffusion): dimension-preserving,
/// and every output sample is mapped through `BiLevel` to exactly 0 or
/// 255. `dither` indexes column `x + 1` of every row unconditionally,
/// so widths below 2 are kept out.
#[verifier::external_body]
fn dither_bilevel(pixels: &Vec<u8>, w: u32, h: u32) -> (r: Vec<u8>)
    requires
        pixels@.len() == w as int * h as int,
        w >= 2,
        h >= 1,
    ensures
        r@ == bilevel_dither(pixels@, w as nat, h as nat),
        r@.len() == pixels@.len(),
        forall|i: int| 0 <= i < r@.len() ==> r@[i] == 0 || r@[i] == 255,
{
    let mut img: image::ImageBuffer<image::Luma<u8>, Vec<u8>> =
        image::ImageBuffer::from_raw(w, h, pixels.clone()).unwrap();
    image::imageops::dither(&mut img, &image::imageops::BiLevel);
    img.into_raw()
}

/// Scales a grayscale source to `nw x nh` with the Lanczos filter and
/// reduces it to a strict two-level image of the same dimensions: every
/// output sample is exactly 0 (black) or 255 (white).
pub fn reduce_to_mono(pixels: &Vec<u8>, w: u32, h: u32, nw: u32, nh: u32) -> (r: Vec<u8>)
    requires
        pixels@.len() == w as int * h as int,
        w >= 1,
        h >= 1,
        nw >= 2,
        nh >= 1,
        nw as int * nh as int <= usize::MAX,
    ensures
        r@ == bilevel_dither(
            lanczos_resample(pixels@, w as nat, h as nat, nw as nat, nh as nat),
            nw as nat,
            nh as nat,
        ),
        r@.len() == nw as int * nh as int,
        forall|i: int| 0 <= i < r@.len() ==> r@[i] == 0 || r@[i] == 255,
{
    let resized = resize_lanczos(pixels, w, h, nw, nh);
    dither_bilevel(&resized, nw, nh)
}

/// Composites a `new_w x height` monochrome image onto a fresh white
/// `width x height` canvas at the origin: columns below `new_w` carry
/// the image, columns at or beyond it stay background.
pub fn compose_onto_canvas(mono: &Vec<u8>, new_w: u32, width: u32, height: u32) -> (r: Canvas)
    requires
        mono@.len() == new_w as int * height as int,
        1 <= new_w <= width,
        height >= 1,
        width as int * height as int <= usize::MAX,
    ensures
        r.wf(),
        r.width == width,
        r.height == height,
        forall|x: int, y: int| 0 <= x < width && 0 <= y < height
            ==> r.sample(x, y) == if x < new_w {
                mono@[y * new_w as int + x]
            } else {
                255u8
            },
{
    let ghost w = width as int;
    let ghost h = height as int;
    let ghost nw = new_w as int;
    let mut canvas = Canvas::new(width, height);
    proof {
        assert forall|xx: int, yy: int| 0 <= xx < w && 0 <= yy < h
            implies canvas.sample(xx, yy) == 255u8 by {
            lemma_grid_index(xx, yy, w, h);
        }
    }
    let mut y: u32 = 0;
    while y < height
        invariant
            canvas.wf(),
            canvas.width == width,
            canvas.height == height,
            w == width as int,
            h == height as int,
            nw == new_w as int,
            1 <= new_w <= width,
            mono@.len() == nw * h,
            y <= height,
            forall|xx: int, yy: int| 0 <= xx < w && 0 <= yy < h
                ==> canvas.sample(xx, yy) == if yy < y && xx < nw {
                    mono@[yy * nw + xx]
                } else {
                    255u8
                },
        decreases height - y,
    {
        let mut x: u32 = 0;
        while x < new_w
            invariant
                canvas.wf(),
                canvas.width == width,
                canvas.height == height,
                w == width as int,
                h == height as int,
                nw == new_w as int,
                1 <= new_w <= width,
                mono@.len() == nw * h,
                y < height,
                x <= new_w,
                forall|xx: int, yy: int| 0 <= xx < w && 0 <= yy < h
                    ==> canvas.sample(xx, yy) == if (yy < y && xx < nw) || (yy == y && xx < x) {
                        mono@[yy * nw + xx]
                    } else {
                        255u8
                    },
            decreases new_w - x,
        {
            proof {
                lemma_grid_index(x as int, y as int, nw, h);
                lemma_grid_index(x as int, y as int, w, h);
            }
            let _len_m: usize = mono.len();
            let _len_c: usize = canvas.data.len();
            let src: usize = (y as usize) * (new_w as usize) + (x as usize);
            let dst: usize = (y as usize) * (width as usize) + (x as usize);
            let v: u8 = mono[src];
            let ghost cpre = canvas;
            canvas.data[dst] = v;
            proof {
                assert(canvas.data@ == cpre.data@.update(dst as int, v));
                assert forall|xx: int, yy: int| 0 <= xx < w && 0 <= yy < h
                    implies canvas.sample(xx, yy) == if (yy < y && xx < nw) || (yy == y && xx < x
                    + 1) {
                    mono@[yy * nw + xx]
                } else {
                    255u8
                } by {
                    lemma_grid_index(xx, yy, w, h);
                    if yy * w + xx == dst as int {
                        lemma_grid_unique(x as int, y as int, xx, yy, w);
                        assert(canvas.sample(xx, yy) == v);
                    } else {
                        assert(canvas.sample(xx, yy) == cpre.sample(xx, yy));
                    }
                }
            }
            x = x + 1;
        }
        y = y + 1;
    }
    canvas
}

/// Distinct grid coordinates have distinct row-major indices.
proof fn lemma_grid_unique(x1: int, y1: int, x2: int, y2: int, w: int)
    requires
        0 <= x1 < w,
        0 <= x2 < w,
        0 <= y1,
        0 <= y2,
        y1 * w + x1 == y2 * w + x2,
    ensures
        x1 == x2,
        y1 == y2,
{
    let idx = y1 * w + x1;
    vstd::arithmetic::div_mod::lemma_fundamental_div_mod_converse(idx, w, y1, x1);
    vstd::arithmetic::div_mod::lemma_fundamental_div_mod_converse(idx, w, y2, x2);
}

/// Image-mode render: the source grayscale grid is scaled to the canvas
/// height with its aspect ratio kept (`new_w` columns), reduced to two
/// levels by dithering, and composited at the origin onto a fresh white
/// `width x height` canvas; pixels beyond `new_w` remain background.
/// The used print width is `new_w`, which always lies in `[1, width]`.
pub fn render_image(src: &Vec<u8>, orig_w: u32, orig_h: u32, width: u32, height: u32) -> (r: (
    Canvas,
    u32,
))
    requires
        src@.len() == orig_w as int * orig_h as int,
        orig_w >= 1,
        orig_h >= 1,
        width >= 1,
        height >= 1,
        width as int * height as int <= usize::MAX,
        2 <= round_ratio(orig_w as int * height as int, orig_h as int) <= width,
    ensures
        r.0.wf(),
        r.0.width == width,
        r.0.height == height,
        r.1 as int == round_ratio(orig_w as int * height as int, orig_h as int),
        1 <= r.1 <= width,
        forall|x: int, y: int| 0 <= x < width && 0 <= y < height
            ==> r.0.sample(x, y) == if x < r.1 {
                bilevel_dither(
                    lanczos_resample(src@, orig_w as nat, orig_h as nat, r.1 as nat, height as nat),
                    r.1 as nat,
                    height as nat,
                )[y * r.1 as int + x]
            } else {
                255u8
            },
{
    let new_w64 = scaled_width(orig_w, orig_h, height);
    let new_w: u32 = new_w64 as u32;
    proof {
        assert(new_w as int * height as int <= width as int * height as int) by (nonlinear_arith)
            requires
                new_w as int <= width as int,
                height as int >= 1,
        ;
    }
    let mono = reduce_to_mono(src, orig_w, orig_h, new_w, height);
    let canvas = compose_onto_canvas(&mono, new_w, width, height);
    (canvas, new_w)
}

} // verus!
