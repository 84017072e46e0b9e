//! Box blur: every pixel becomes the mean of the square window around it.

use vstd::prelude::*;
use crate::color::{Rgba, rgba};
use crate::frame::{Frame, FrameModel, lemma_index_in_range, same_shape};

verus! {

/// A square-window mean filter.
pub struct BoxBlurEffect {
    pub radius: u32,
}

/// Settings of the blur effect as written in a configuration.
pub struct BlurParams {
    pub radius: u32,
}

/// The radius used when a configuration names the effect without one.
pub fn default_radius() -> (r: u32)
    ensures
        r == 2,
{
    2
}

impl Default for BlurParams {
    fn default() -> (p: Self)
        ensures
            p.radius == 2,
    {
        BlurParams { radius: default_radius() }
    }
}

/// Channel `k` (0 red, 1 green, 2 blue) of a color.
pub open spec fn chan(c: Rgba, k: int) -> nat {
    if k == 0 {
        c.r as nat
    } else if k == 1 {
        c.g as nat
    } else {
        c.b as nat
    }
}

/// Sum of channel `k` over columns `lo..hi` of row `row`.
pub open spec fn row_sum(p: Seq<Rgba>, w: int, row: int, lo: int, hi: int, k: int) -> nat
    decreases hi - lo,
{
    if hi <= lo {
        0
    } else {
        row_sum(p, w, row, lo, hi - 1, k) + chan(p[row * w + hi - 1], k)
    }
}

/// Sum of channel `k` over rows `ylo..yhi` and columns `xlo..xhi`.
pub open spec fn rect_sum(p: Seq<Rgba>, w: int, ylo: int, yhi: int, xlo: int, xhi: int, k: int) -> nat
    decreases yhi - ylo,
{
    if yhi <= ylo {
        0
    } else {
        rect_sum(p, w, ylo, yhi - 1, xlo, xhi, k) + row_sum(p, w, yhi - 1, xlo, xhi, k)
    }
}

pub open spec fn max0(a: int) -> int {
    if a < 0 {
        0
    } else {
        a
    }
}

pub open spec fn min_int(a: int, b: int) -> int {
    if a < b {
        a
    } else {
        b
    }
}

/// Rows (or columns) `lo..hi` of the window of radius `r` around `c`, clipped to `0..n`.
pub open spec fn win_lo(c: int, r: int) -> int {
    max0(c - r)
}

pub open spec fn win_hi(c: int, r: int, n: int) -> int {
    min_int(n, c + r + 1)
}

/// Number of pixels in the clipped window around `(x, y)`.
pub open spec fn window_count(f: FrameModel, r: int, x: int, y: int) -> int {
    (win_hi(x, r, f.width as int) - win_lo(x, r)) * (win_hi(y, r, f.height as int) - win_lo(y, r))
}

/// Sum of channel `k` over the clipped window around `(x, y)`.
pub open spec fn window_sum(f: FrameModel, r: int, x: int, y: int, k: int) -> nat {
    rect_sum(
        f.pixels,
        f.width as int,
        win_lo(y, r),
        win_hi(y, r, f.height as int),
        win_lo(x, r),
        win_hi(x, r, f.width as int),
        k,
    )
}

/// The blurred color at `(x, y)`: each color channel is the truncated mean
/// over the window; the result is opaque.
pub open spec fn blurred_pixel(f: FrameModel, r: int, x: int, y: int) -> Rgba {
    let n = window_count(f, r, x, y);
    rgba(
        (window_sum(f, r, x, y, 0) / (n as nat)) as u8,
        (window_sum(f, r, x, y, 1) / (n as nat)) as u8,
        (window_sum(f, r, x, y, 2) / (n as nat)) as u8,
        255,
    )
}

/// The largest window the radius allows on this frame.
pub open spec fn max_window(f: FrameModel, r: int) -> int {
    min_int(f.width as int, 2 * r + 1) * min_int(f.height as int, 2 * r + 1)
}

proof fn lemma_row_sum_bound(p: Seq<Rgba>, w: int, row: int, lo: int, hi: int, k: int)
    requires
        lo <= hi,
    ensures
        row_sum(p, w, row, lo, hi, k) <= 255 * (hi - lo),
    decreases hi - lo,
{
    if hi > lo {
        lemma_row_sum_bound(p, w, row, lo, hi - 1, k);
    }
}

proof fn lemma_rect_sum_bound(p: Seq<Rgba>, w: int, ylo: int, yhi: int, xlo: int, xhi: int, k: int)
    requires
        ylo <= yhi,
        xlo <= xhi,
    ensures
        rect_sum(p, w, ylo, yhi, xlo, xhi, k) <= 255 * (xhi - xlo) * (yhi - ylo),
    decreases yhi - ylo,
{
    if yhi > ylo {
        lemma_rect_sum_bound(p, w, ylo, yhi - 1, xlo, xhi, k);
        lemma_row_sum_bound(p, w, yhi - 1, xlo, xhi, k);
        assert(255 * (xhi - xlo) * (yhi - 1 - ylo) + 255 * (xhi - xlo) == 255 * (xhi - xlo) * (yhi
            - ylo)) by (nonlinear_arith);
    }
}

/// The window around any position is never larger than `max_window`.
proof fn lemma_window_bound(f: FrameModel, r: int, x: int, y: int)
    requires
        r >= 0,
        0 <= x < f.width,
        0 <= y < f.height,
    ensures
        1 <= window_count(f, r, x, y) <= max_window(f, r),
{
    let a = win_hi(x, r, f.width as int) - win_lo(x, r);
    let b = win_hi(y, r, f.height as int) - win_lo(y, r);
    let ma = min_int(f.width as int, 2 * r + 1);
    let mb = min_int(f.height as int, 2 * r + 1);
    assert(1 <= a <= ma);
    assert(1 <= b <= mb);
    assert(1 <= a * b <= ma * mb) by (nonlinear_arith)
        requires
            1 <= a <= ma,
            1 <= b <= mb,
    ;
}

impl BoxBlurEffect {
    /// A blur whose radius is clamped to `1..=64`.
    pub fn new(radius: u32) -> (e: Self)
        ensures
            e.radius == if radius < 1 { 1 } else if radius > 64 { 64 } else { radius },
    {
        let radius = if radius < 1 {
            1
        } else if radius > 64 {
            64
        } else {
            radius
        };
        BoxBlurEffect { radius }
    }

    pub fn name(&self) -> (n: &'static str)
        ensures
            n@ == "blur"@,
    {
        "blur"
    }

    /// Replaces every pixel with the opaque mean of its clipped window of radius
    /// `self.radius`, computed from the frame as it was before the call.
    pub fn apply(&self, frame: &mut Frame)
        requires
            old(frame).wf(),
            old(frame).width * old(frame).height <= 0x8000_0000,
            old(frame).width + self.radius <= 0x8000_0000,
            old(frame).height + self.radius <= 0x8000_0000,
            255 * max_window(old(frame)@, self.radius as int) <= u32::MAX,
        ensures
            final(frame).wf(),
            same_shape(final(frame)@, old(frame)@),
            forall|x: int, y: int|
                0 <= x < final(frame).width && 0 <= y < final(frame).height
                    ==> final(frame).at(x, y) == #[trigger] blurred_pixel(old(frame)@, self.radius as int, x, y),
    {
        let ghost m = frame@;
        let r = self.radius as usize;
        let w = frame.width as usize;
        let h = frame.height as usize;
        let mut out: Vec<Rgba> = Vec::new();
        let mut y: usize = 0;
        while y < h
            invariant
                m == frame@,
                model_inv(m, r, w, h),
                y <= h,
                out@.len() == y * w,
                forall|xx: int, yy: int|
                    0 <= xx < w && 0 <= yy < y ==> out@[yy * w + xx] == #[trigger] blurred_pixel(m, r as int, xx, yy),
            decreases h - y,
        {
            let mut x: usize = 0;
            while x < w
                invariant
                    m == frame@,
                    model_inv(m, r, w, h),
                    y < h,
                    x <= w,
                    out@.len() == y * w + x,
                    forall|xx: int, yy: int|
                        0 <= xx < w && 0 <= yy < y ==> out@[yy * w + xx] == #[trigger] blurred_pixel(m, r as int, xx, yy),
                    forall|xx: int| 0 <= xx < x ==> out@[y * w + xx] == #[trigger] blurred_pixel(m, r as int, xx, y as int),
                decreases w - x,
            {
                let p = blur_at(frame, r, x, y);
                proof {
                    lemma_index_in_range(w as u32, h as u32, x as u32, y as u32);
                }
                out.push(p);
                proof {
                    assert forall|xx: int, yy: int|
                        0 <= xx < w && 0 <= yy < y implies out@[yy * w + xx] == #[trigger] blurred_pixel(m, r as int, xx, yy) by {
                        lemma_row_major_lt(w as int, xx, yy, y as int);
                    }
                }
                x = x + 1;
            }
            proof {
                assert forall|xx: int, yy: int|
                    0 <= xx < w && 0 <= yy < y + 1 implies out@[yy * w + xx] == #[trigger] blurred_pixel(m, r as int, xx, yy) by {
                    if yy == y {
                    }
                }
                assert((y + 1) * w == y * w + w) by (nonlinear_arith);
            }
            y = y + 1;
        }
        proof {
            assert(h * w == w * h) by (nonlinear_arith);
        }
        frame.pixels = out;
    }
}

/// Facts about the frame that hold throughout the blur.
pub open spec fn model_inv(m: FrameModel, r: usize, w: usize, h: usize) -> bool {
    &&& m.width == w
    &&& m.height == h
    &&& m.pixels.len() == w * h
    &&& w * h <= 0x8000_0000
    &&& w + r <= 0x8000_0000
    &&& h + r <= 0x8000_0000
    &&& 255 * max_window(m, r as int) <= u32::MAX
}

proof fn lemma_row_major_lt(w: int, xx: int, yy: int, y: int)
    requires
        0 <= xx < w,
        0 <= yy < y,
    ensures
        yy * w + xx < y * w,
{
    assert(yy * w + xx < y * w) by (nonlinear_arith)
        requires
            0 <= xx < w,
            0 <= yy < y,
    ;
}

/// Sums of the three color channels over columns `xlo..xhi` of row `ky`,
/// added to `base`.
fn add_row_sums(frame: &Frame, ky: usize, xlo: usize, xhi: usize, base: (u32, u32, u32)) -> (s: (u32, u32, u32))
    requires
        frame.wf(),
        ky < frame.height,
        xlo <= xhi <= frame.width,
        base.0 + row_sum(frame@.pixels, frame.width as int, ky as int, xlo as int, xhi as int, 0) <= u32::MAX,
        base.1 + row_sum(frame@.pixels, frame.width as int, ky as int, xlo as int, xhi as int, 1) <= u32::MAX,
        base.2 + row_sum(frame@.pixels, frame.width as int, ky as int, xlo as int, xhi as int, 2) <= u32::MAX,
    ensures
        s.0 == base.0 + row_sum(frame@.pixels, frame.width as int, ky as int, xlo as int, xhi as int, 0),
        s.1 == base.1 + row_sum(frame@.pixels, frame.width as int, ky as int, xlo as int, xhi as int, 1),
        s.2 == base.2 + row_sum(frame@.pixels, frame.width as int, ky as int, xlo as int, xhi as int, 2),
{
    let ghost p = frame@.pixels;
    let w = frame.width as usize;
    let (mut sr, mut sg, mut sb) = base;
    let mut kx = xlo;
    while kx < xhi
        invariant
            frame.wf(),
            p == frame@.pixels,
            w == frame.width,
            ky < frame.height,
            xlo <= kx <= xhi <= w,
            sr == base.0 + row_sum(p, w as int, ky as int, xlo as int, kx as int, 0),
            sg == base.1 + row_sum(p, w as int, ky as int, xlo as int, kx as int, 1),
            sb == base.2 + row_sum(p, w as int, ky as int, xlo as int, kx as int, 2),
            base.0 + row_sum(p, w as int, ky as int, xlo as int, xhi as int, 0) <= u32::MAX,
            base.1 + row_sum(p, w as int, ky as int, xlo as int, xhi as int, 1) <= u32::MAX,
            base.2 + row_sum(p, w as int, ky as int, xlo as int, xhi as int, 2) <= u32::MAX,
        decreases xhi - kx,
    {
        proof {
            lemma_index_in_range(frame.width, frame.height, kx as u32, ky as u32);
            lemma_row_sum_monotone(p, w as int, ky as int, xlo as int, kx as int + 1, xhi as int, 0);
            lemma_row_sum_monotone(p, w as int, ky as int, xlo as int, kx as int + 1, xhi as int, 1);
            lemma_row_sum_monotone(p, w as int, ky as int, xlo as int, kx as int + 1, xhi as int, 2);
        }
        let c = frame.pixels[ky * w + kx];
        sr = sr + c.r as u32;
        sg = sg + c.g as u32;
        sb = sb + c.b as u32;
        kx = kx + 1;
    }
    (sr, sg, sb)
}

/// Sums of the three color channels over rows `ylo..yhi` and columns `xlo..xhi`.
fn rect_sums(frame: &Frame, ylo: usize, yhi: usize, xlo: usize, xhi: usize) -> (s: (u32, u32, u32))
    requires
        frame.wf(),
        ylo <= yhi <= frame.height,
        xlo <= xhi <= frame.width,
        255 * ((xhi - xlo) * (yhi - ylo)) <= u32::MAX,
    ensures
        s.0 == rect_sum(frame@.pixels, frame.width as int, ylo as int, yhi as int, xlo as int, xhi as int, 0),
        s.1 == rect_sum(frame@.pixels, frame.width as int, ylo as int, yhi as int, xlo as int, xhi as int, 1),
        s.2 == rect_sum(frame@.pixels, frame.width as int, ylo as int, yhi as int, xlo as int, xhi as int, 2),
{
    let ghost p = frame@.pixels;
    let ghost w = frame.width as int;
    proof {
        assert(255 * (xhi - xlo) * (yhi - ylo) == 255 * ((xhi - xlo) * (yhi - ylo))) by (nonlinear_arith);
        lemma_rect_sum_bound(p, w, ylo as int, yhi as int, xlo as int, xhi as int, 0);
        lemma_rect_sum_bound(p, w, ylo as int, yhi as int, xlo as int, xhi as int, 1);
        lemma_rect_sum_bound(p, w, ylo as int, yhi as int, xlo as int, xhi as int, 2);
    }
    let mut sums: (u32, u32, u32) = (0, 0, 0);
    let mut ky = ylo;
    while ky < yhi
        invariant
            frame.wf(),
            p == frame@.pixels,
            w == frame.width,
            ylo <= ky <= yhi <= frame.height,
            xlo <= xhi <= frame.width,
            sums.0 == rect_sum(p, w, ylo as int, ky as int, xlo as int, xhi as int, 0),
            sums.1 == rect_sum(p, w, ylo as int, ky as int, xlo as int, xhi as int, 1),
            sums.2 == rect_sum(p, w, ylo as int, ky as int, xlo as int, xhi as int, 2),
            rect_sum(p, w, ylo as int, yhi as int, xlo as int, xhi as int, 0) <= u32::MAX,
            rect_sum(p, w, ylo as int, yhi as int, xlo as int, xhi as int, 1) <= u32::MAX,
            rect_sum(p, w, ylo as int, yhi as int, xlo as int, xhi as int, 2) <= u32::MAX,
        decreases yhi - ky,
    {
        proof {
            lemma_rect_monotone(p, w, ylo as int, ky as int + 1, yhi as int, xlo as int, xhi as int);
            assert(rect_sum(p, w, ylo as int, ky as int + 1, xlo as int, xhi as int, 0) <= rect_sum(p, w, ylo as int, yhi as int, xlo as int, xhi as int, 0));
            assert(rect_sum(p, w, ylo as int, ky as int + 1, xlo as int, xhi as int, 1) <= rect_sum(p, w, ylo as int, yhi as int, xlo as int, xhi as int, 1));
            assert(rect_sum(p, w, ylo as int, ky as int + 1, xlo as int, xhi as int, 2) <= rect_sum(p, w, ylo as int, yhi as int, xlo as int, xhi as int, 2));
        }
        sums = add_row_sums(frame, ky, xlo, xhi, sums);
        ky = ky + 1;
    }
    sums
}

/// The blurred color at `(x, y)`.
fn blur_at(frame: &Frame, r: usize, x: usize, y: usize) -> (p: Rgba)
    requires
        model_inv(frame@, r, frame.width as usize, frame.height as usize),
        x < frame.width,
        y < frame.height,
    ensures
        p == blurred_pixel(frame@, r as int, x as int, y as int),
{
    let ghost m = frame@;
    let w = frame.width as usize;
    let h = frame.height as usize;
    let xlo = if x >= r { x - r } else { 0 };
    let xhi = if x + r + 1 < w { x + r + 1 } else { w };
    let ylo = if y >= r { y - r } else { 0 };
    let yhi = if y + r + 1 < h { y + r + 1 } else { h };
    proof {
        lemma_window_bound(m, r as int, x as int, y as int);
    }
    let (sum_r, sum_g, sum_b) = rect_sums(frame, ylo, yhi, xlo, xhi);
    let count = ((xhi - xlo) * (yhi - ylo)) as u32;
    proof {
        lemma_rect_sum_bound(m.pixels, w as int, ylo as int, yhi as int, xlo as int, xhi as int, 0);
        lemma_rect_sum_bound(m.pixels, w as int, ylo as int, yhi as int, xlo as int, xhi as int, 1);
        lemma_rect_sum_bound(m.pixels, w as int, ylo as int, yhi as int, xlo as int, xhi as int, 2);
        assert(255 * (xhi - xlo) * (yhi - ylo) == 255 * ((xhi - xlo) * (yhi - ylo))) by (nonlinear_arith);
        assert(sum_r / count <= 255) by (nonlinear_arith)
            requires
                sum_r <= 255 * count,
                count >= 1,
        ;
        assert(sum_g / count <= 255) by (nonlinear_arith)
            requires
                sum_g <= 255 * count,
                count >= 1,
        ;
        assert(sum_b / count <= 255) by (nonlinear_arith)
            requires
                sum_b <= 255 * count,
                count >= 1,
        ;
    }
    Rgba::new((sum_r / count) as u8, (sum_g / count) as u8, (sum_b / count) as u8, 255)
}

proof fn lemma_row_sum_monotone(p: Seq<Rgba>, w: int, row: int, lo: int, mid: int, hi: int, k: int)
    requires
        lo <= mid <= hi,
    ensures
        row_sum(p, w, row, lo, mid, k) <= row_sum(p, w, row, lo, hi, k),
    decreases hi - mid,
{
    if mid < hi {
        lemma_row_sum_monotone(p, w, row, lo, mid, hi - 1, k);
    }
}

proof fn lemma_rect_monotone(p: Seq<Rgba>, w: int, ylo: int, ymid: int, yhi: int, xlo: int, xhi: int)
    requires
        ylo <= ymid <= yhi,
    ensures
        forall|k: int| #[trigger] rect_sum(p, w, ylo, ymid, xlo, xhi, k) <= rect_sum(p, w, ylo, yhi, xlo, xhi, k),
    decreases yhi - ymid,
{
    if ymid < yhi {
        lemma_rect_monotone(p, w, ylo, ymid, yhi - 1, xlo, xhi);
        assert forall|k: int| #[trigger] rect_sum(p, w, ylo, yhi - 1, xlo, xhi, k) <= rect_sum(p, w, ylo, yhi, xlo, xhi, k) by {
        }
    }
}

proof fn lemma_row_sum_uniform(p: Seq<Rgba>, w: int, row: int, lo: int, hi: int, k: int, c: Rgba)
    requires
        0 <= lo <= hi <= w,
        0 <= row,
        (row + 1) * w <= p.len(),
        forall|i: int| 0 <= i < p.len() ==> #[trigger] p[i] == c,
    ensures
        row_sum(p, w, row, lo, hi, k) == chan(c, k) * (hi - lo),
    decreases hi - lo,
{
    if hi > lo {
        lemma_row_sum_uniform(p, w, row, lo, hi - 1, k, c);
        assert(0 <= row * w + hi - 1 < p.len()) by (nonlinear_arith)
            requires
                0 <= lo < hi <= w,
                0 <= row,
                (row + 1) * w <= p.len(),
        ;
        assert(p[row * w + hi - 1] == c);
        assert(chan(c, k) * (hi - 1 - lo) + chan(c, k) == chan(c, k) * (hi - lo)) by (nonlinear_arith);
    } else {
        assert(chan(c, k) * (hi - lo) == 0) by (nonlinear_arith)
            requires
                hi == lo,
        ;
    }
}

proof fn lemma_rect_sum_uniform(p: Seq<Rgba>, w: int, ylo: int, yhi: int, xlo: int, xhi: int, k: int, c: Rgba)
    requires
        0 <= xlo <= xhi <= w,
        0 <= ylo <= yhi,
        yhi * w <= p.len(),
        forall|i: int| 0 <= i < p.len() ==> #[trigger] p[i] == c,
    ensures
        rect_sum(p, w, ylo, yhi, xlo, xhi, k) == chan(c, k) * ((xhi - xlo) * (yhi - ylo)),
    decreases yhi - ylo,
{
    if yhi > ylo {
        assert((yhi - 1) * w <= yhi * w) by (nonlinear_arith)
            requires
                0 <= w,
        ;
        lemma_rect_sum_uniform(p, w, ylo, yhi - 1, xlo, xhi, k, c);
        lemma_row_sum_uniform(p, w, yhi - 1, xlo, xhi, k, c);
        assert(chan(c, k) * ((xhi - xlo) * (yhi - 1 - ylo)) + chan(c, k) * (xhi - xlo) == chan(c, k) * (
        (xhi - xlo) * (yhi - ylo))) by (nonlinear_arith);
    } else {
        assert(chan(c, k) * ((xhi - xlo) * (yhi - ylo)) == 0) by (nonlinear_arith)
            requires
                yhi == ylo,
        ;
    }
}

/// Blurring a frame of one opaque color leaves every pixel unchanged.
pub proof fn lemma_blur_keeps_uniform_frame(f: FrameModel, r: int, x: int, y: int, c: Rgba)
    requires
        f.pixels.len() == f.width * f.height,
        r >= 0,
        0 <= x < f.width,
        0 <= y < f.height,
        c.a == 255,
        forall|i: int| 0 <= i < f.pixels.len() ==> #[trigger] f.pixels[i] == c,
    ensures
        blurred_pixel(f, r, x, y) == c,
{
    lemma_window_bound(f, r, x, y);
    let n = window_count(f, r, x, y);
    let yhi = win_hi(y, r, f.height as int);
    assert(yhi * f.width <= f.pixels.len()) by (nonlinear_arith)
        requires
            yhi <= f.height,
            0 <= f.width,
            f.pixels.len() == f.width * f.height,
    ;
    assert forall|k: int| 0 <= k < 3 implies #[trigger] window_sum(f, r, x, y, k) / (n as nat) == chan(c, k) by {
        lemma_rect_sum_uniform(f.pixels, f.width as int, win_lo(y, r), yhi, win_lo(x, r),
            win_hi(x, r, f.width as int), k, c);
        assert((chan(c, k) * n) / n == chan(c, k)) by (nonlinear_arith)
            requires
                n >= 1,
        ;
    }
    assert(window_sum(f, r, x, y, 0) / (n as nat) == chan(c, 0));
    assert(window_sum(f, r, x, y, 1) / (n as nat) == chan(c, 1));
    assert(window_sum(f, r, x, y, 2) / (n as nat) == chan(c, 2));
}

} // verus!
