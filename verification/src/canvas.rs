//! The render canvas: a fixed-size grid of 8-bit intensity samples
//! (0 = black ink, 255 = white background), together with the
//! coverage-threshold glyph rasterizer and the RGBA preview conversion.

use vstd::prelude::*;

verus! {

/// A fixed-dimension grid of single-channel intensity samples, stored
/// row-major: the sample at column `x`, row `y` is `data[y * width + x]`.
///
/// Invariant (`wf`): `data` holds exactly `width * height` samples and
/// both dimensions are at least 1.
pub struct Canvas {
    pub width: u32,
    pub height: u32,
    pub data: Vec<u8>,
}

/// One anti-aliased coverage sample of a glyph outline, relative to the
/// glyph's placement origin. `coverage` is the coverage fraction scaled
/// to [0, 255]; a sample paints ink only when coverage exceeds one half,
/// that is when `coverage >= 128`.
#[derive(Clone, Copy)]
pub struct CoverageSample {
    pub dx: u32,
    pub dy: u32,
    pub coverage: u8,
}

/// A laid-out glyph: its placement origin on the canvas (may be negative
/// or otherwise out of bounds; such samples are clipped silently) and its
/// coverage samples.
pub struct Glyph {
    pub origin_x: i32,
    pub origin_y: i32,
    pub samples: Vec<CoverageSample>,
}

/// The fully white (background) sample grid of a `w x h` canvas.
pub open spec fn blank(w: int, h: int) -> Seq<u8> {
    Seq::new((w * h) as nat, |i: int| 255u8)
}

/// Whether the sample `s` of a glyph placed at `(ox, oy)` paints ink on a
/// `w x h` canvas: it must land inside the canvas and its coverage must
/// exceed one half.
pub open spec fn sample_paints(w: int, h: int, ox: int, oy: int, s: CoverageSample) -> bool {
    &&& 0 <= ox + s.dx <= w - 1
    &&& 0 <= oy + s.dy <= h - 1
    &&& s.coverage >= 128
}

/// The grid after one coverage sample: the touched pixel becomes black
/// ink (0) when the sample paints; otherwise the grid is untouched.
pub open spec fn apply_sample(d: Seq<u8>, w: int, h: int, ox: int, oy: int, s: CoverageSample) -> Seq<u8> {
    if sample_paints(w, h, ox, oy, s) {
        d.update((oy + s.dy) * w + (ox + s.dx), 0u8)
    } else {
        d
    }
}

/// The grid after all samples of one glyph, applied in order.
pub open spec fn apply_samples(d: Seq<u8>, w: int, h: int, ox: int, oy: int, ss: Seq<CoverageSample>) -> Seq<u8>
    decreases ss.len(),
{
    if ss.len() == 0 {
        d
    } else {
        apply_sample(apply_samples(d, w, h, ox, oy, ss.drop_last()), w, h, ox, oy, ss.last())
    }
}

/// The rightmost-ink-column tracker after one coverage sample: it rises
/// to the sample's column when the sample paints further right.
pub open spec fn used_after_sample(u: int, w: int, h: int, ox: int, oy: int, s: CoverageSample) -> int {
    if sample_paints(w, h, ox, oy, s) && ox + s.dx > u {
        ox + s.dx
    } else {
        u
    }
}

/// The rightmost-ink-column tracker after all samples of one glyph.
pub open spec fn used_after_samples(u: int, w: int, h: int, ox: int, oy: int, ss: Seq<CoverageSample>) -> int
    decreases ss.len(),
{
    if ss.len() == 0 {
        u
    } else {
        used_after_sample(used_after_samples(u, w, h, ox, oy, ss.drop_last()), w, h, ox, oy, ss.last())
    }
}

/// The grid after a sequence of glyphs, each applied in order.
pub open spec fn apply_glyphs(d: Seq<u8>, w: int, h: int, gs: Seq<Glyph>) -> Seq<u8>
    decreases gs.len(),
{
    if gs.len() == 0 {
        d
    } else {
        apply_samples(
            apply_glyphs(d, w, h, gs.drop_last()),
            w,
            h,
            gs.last().origin_x as int,
            gs.last().origin_y as int,
            gs.last().samples@,
        )
    }
}

/// The rightmost-ink-column tracker after a sequence of glyphs.
pub open spec fn used_after_glyphs(u: int, w: int, h: int, gs: Seq<Glyph>) -> int
    decreases gs.len(),
{
    if gs.len() == 0 {
        u
    } else {
        used_after_glyph(used_after_glyphs(u, w, h, gs.drop_last()), w, h, gs.last())
    }
}

/// The rightmost-ink-column tracker after the samples of one glyph.
pub open spec fn used_after_glyph(u: int, w: int, h: int, g: Glyph) -> int {
    used_after_samples(u, w, h, g.origin_x as int, g.origin_y as int, g.samples@)
}

impl Canvas {
    pub open spec fn wf(&self) -> bool {
        &&& self.width >= 1
        &&& self.height >= 1
        &&& self.data@.len() == self.width as int * self.height as int
    }

    /// The sample at column `x`, row `y`.
    pub open spec fn sample(&self, x: int, y: int) -> u8 {
        self.data@[y * self.width as int + x]
    }

    /// A fresh canvas, fully initialized to the white background.
    pub fn new(width: u32, height: u32) -> (r: Canvas)
        requires
            width >= 1,
            height >= 1,
            width as int * height as int <= usize::MAX,
        ensures
            r.wf(),
            r.width == width,
            r.height == height,
            r.data@ == blank(width as int, height as int),
    {
        let n: usize = (width as usize) * (height as usize);
        let data: Vec<u8> = vec![255u8; n];
        let r = Canvas { width, height, data };
        proof {
            assert(r.data@ =~= blank(width as int, height as int));
        }
        r
    }

    /// The sample at column `x`, row `y`.
    pub fn get_pixel(&self, x: u32, y: u32) -> (r: u8)
        requires
            self.wf(),
            x < self.width,
            y < self.height,
        ensures
            r == self.sample(x as int, y as int),
    {
        let _n: usize = self.data.len();
        proof {
            lemma_grid_index(x as int, y as int, self.width as int, self.height as int);
        }
        self.data[(y as usize) * (self.width as usize) + (x as usize)]
    }

    /// Draws one laid-out glyph onto the canvas: every coverage sample
    /// whose coverage exceeds one half and whose pixel lies inside the
    /// canvas paints black ink; all other samples (including those out
    /// of bounds) leave the canvas untouched. `used` tracks the
    /// rightmost column painted so far.
    pub fn draw_glyph(&mut self, glyph: &Glyph, used: &mut u32)
        requires
            old(self).wf(),
            *old(used) < old(self).width,
        ensures
            final(self).wf(),
            final(self).width == old(self).width,
            final(self).height == old(self).height,
            final(self).data@ == apply_samples(
                old(self).data@,
                old(self).width as int,
                old(self).height as int,
                glyph.origin_x as int,
                glyph.origin_y as int,
                glyph.samples@,
            ),
            *final(used) as int == used_after_samples(
                *old(used) as int,
                old(self).width as int,
                old(self).height as int,
                glyph.origin_x as int,
                glyph.origin_y as int,
                glyph.samples@,
            ),
            *final(used) < old(self).width,
    {
        let ghost w = self.width as int;
        let ghost h = self.height as int;
        let ghost ox = glyph.origin_x as int;
        let ghost oy = glyph.origin_y as int;
        let ghost d0 = self.data@;
        let ghost u0 = *used as int;
        let n = glyph.samples.len();
        let mut i: usize = 0;
        while i < n
            invariant
                i <= n,
                n == glyph.samples@.len(),
                self.wf(),
                self.width as int == w,
                self.height as int == h,
                ox == glyph.origin_x as int,
                oy == glyph.origin_y as int,
                self.data@ == apply_samples(d0, w, h, ox, oy, glyph.samples@.take(i as int)),
                *used as int == used_after_samples(u0, w, h, ox, oy, glyph.samples@.take(i as int)),
                *used < self.width,
            decreases n - i,
        {
            let ghost pre = self.data@;
            let ghost upre = *used as int;
            let s = glyph.samples[i];
            let px: i64 = glyph.origin_x as i64 + s.dx as i64;
            let py: i64 = glyph.origin_y as i64 + s.dy as i64;
            if 0 <= px && px < self.width as i64 && 0 <= py && py < self.height as i64
                && s.coverage >= 128 {
                let _len: usize = self.data.len();
                proof {
                    lemma_grid_index(px as int, py as int, w, h);
                }
                let idx: usize = (py as usize) * (self.width as usize) + (px as usize);
                self.data[idx] = 0u8;
                if (px as u32) > *used {
                    *used = px as u32;
                }
                proof {
                    assert(sample_paints(w, h, ox, oy, s));
                    assert(self.data@ == apply_sample(pre, w, h, ox, oy, s));
                    assert(*used as int == used_after_sample(upre, w, h, ox, oy, s));
                }
            } else {
                proof {
                    assert(!sample_paints(w, h, ox, oy, s));
                }
            }
            proof {
                assert(glyph.samples@.take(i + 1).drop_last() =~= glyph.samples@.take(i as int));
                assert(glyph.samples@.take(i + 1).last() == glyph.samples@[i as int]);
            }
            i = i + 1;
        }
        proof {
            assert(glyph.samples@.take(n as int) =~= glyph.samples@);
        }
    }

    /// The canvas as a packed RGBA buffer for on-screen preview: each
    /// sample is replicated into the R, G and B channels, alpha is 255.
    pub fn to_rgba(&self) -> (r: Vec<u8>)
        requires
            self.wf(),
            self.data@.len() * 4 <= usize::MAX,
        ensures
            r@.len() == self.data@.len() * 4,
            forall|i: int| 0 <= i < self.data@.len() ==> {
                &&& r@[4 * i] == self.data@[i]
                &&& r@[4 * i + 1] == self.data@[i]
                &&& r@[4 * i + 2] == self.data@[i]
                &&& r@[4 * i + 3] == 255u8
            },
    {
        let n: usize = self.data.len();
        let mut r: Vec<u8> = Vec::new();
        let mut i: usize = 0;
        while i < n
            invariant
                i <= n,
                n == self.data@.len(),
                n * 4 <= usize::MAX,
                r@.len() == 4 * i,
                forall|j: int| 0 <= j < i ==> {
                    &&& r@[4 * j] == self.data@[j]
                    &&& r@[4 * j + 1] == self.data@[j]
                    &&& r@[4 * j + 2] == self.data@[j]
                    &&& r@[4 * j + 3] == 255u8
                },
            decreases n - i,
        {
            let v = self.data[i];
            r.push(v);
            r.push(v);
            r.push(v);
            r.push(255u8);
            i = i + 1;
        }
        r
    }
}

/// Rasterizes a line of text: paints every laid-out glyph, in order, onto
/// a fresh white `width x height` canvas, and reports the used print
/// width: one past the rightmost column that received ink, or 1 when no
/// ink was painted. The used width always lies in `[1, width]`.
pub fn render_text(width: u32, height: u32, glyphs: &Vec<Glyph>) -> (r: (Canvas, u32))
    requires
        width >= 1,
        height >= 1,
        width as int * height as int <= usize::MAX,
    ensures
        r.0.wf(),
        r.0.width == width,
        r.0.height == height,
        r.0.data@ == apply_glyphs(blank(width as int, height as int), width as int, height as int, glyphs@),
        r.1 as int == 1 + used_after_glyphs(0, width as int, height as int, glyphs@),
        1 <= r.1 <= width,
{
    let ghost w = width as int;
    let ghost h = height as int;
    let mut canvas = Canvas::new(width, height);
    let mut used: u32 = 0;
    let n = glyphs.len();
    let mut i: usize = 0;
    while i < n
        invariant
            i <= n,
            n == glyphs@.len(),
            canvas.wf(),
            canvas.width == width,
            canvas.height == height,
            w == width as int,
            h == height as int,
            canvas.data@ == apply_glyphs(blank(w, h), w, h, glyphs@.take(i as int)),
            used as int == used_after_glyphs(0, w, h, glyphs@.take(i as int)),
            used < width,
        decreases n - i,
    {
        canvas.draw_glyph(&glyphs[i], &mut used);
        proof {
            assert(glyphs@.take(i + 1).drop_last() =~= glyphs@.take(i as int));
            assert(glyphs@.take(i + 1).last() == glyphs@[i as int]);
        }
        i = i + 1;
    }
    proof {
        assert(glyphs@.take(n as int) =~= glyphs@);
    }
    (canvas, used + 1)
}

/// A row-major index into a `width x height` grid stays within the grid.
pub proof fn lemma_grid_index(x: int, y: int, width: int, height: int)
    by (nonlinear_arith)
    requires
        0 <= x < width,
        0 <= y < height,
    ensures
        0 <= y * width + x < width * height,
{
}

} // verus!
