//! Pixelation: every block of `block_size` by `block_size` pixels takes the
//! color of its top-left pixel.

use vstd::prelude::*;
use crate::color::Rgba;
use crate::frame::{Frame, FrameModel, lemma_index_in_range, same_shape};

verus! {

pub struct PixelationEffect {
    pub block_size: u32,
}

/// Settings of the pixelation effect as written in a configuration.
pub struct PixelationParams {
    pub block_size: u32,
}

/// The block size used when a configuration names the effect without one.
pub fn default_block_size() -> (b: u32)
    ensures
        b == 8,
{
    8
}

impl Default for PixelationParams {
    fn default() -> (p: Self)
        ensures
            p.block_size == 8,
    {
        PixelationParams { block_size: default_block_size() }
    }
}

/// The color that pixel `(x, y)` takes: that of the top-left corner of its block.
pub open spec fn pixelated_at(f: FrameModel, b: int, x: int, y: int) -> Rgba {
    f.pixels[(y - y % b) * f.width + (x - x % b)]
}

/// Block size actually used: at least one.
pub open spec fn effective_block(b: u32) -> int {
    if b < 1 {
        1
    } else {
        b as int
    }
}

impl PixelationEffect {
    /// An effect whose block size is at least one.
    pub fn new(block_size: u32) -> (e: Self)
        ensures
            e.block_size == if block_size < 1 { 1 } else { block_size },
    {
        let block_size = if block_size < 1 { 1 } else { block_size };
        PixelationEffect { block_size }
    }

    pub fn name(&self) -> (n: &'static str)
        ensures
            n@ == "pixelation"@,
    {
        "pixelation"
    }

    /// Gives every pixel the color of the top-left pixel of its block, reading
    /// from the frame as it was before the call.
    pub fn apply(&self, frame: &mut Frame)
        requires
            old(frame).wf(),
        ensures
            final(frame).wf(),
            same_shape(final(frame)@, old(frame)@),
            forall|x: int, y: int|
                0 <= x < final(frame).width && 0 <= y < final(frame).height
                    ==> final(frame).at(x, y) == #[trigger] pixelated_at(old(frame)@, effective_block(self.block_size), x, y),
    {
        let ghost m = frame@;
        let b = if self.block_size < 1 { 1 } else { self.block_size };
        let w = frame.width;
        let h = frame.height;
        let mut out: Vec<Rgba> = Vec::new();
        let mut y: u32 = 0;
        while y < h
            invariant
                m == frame@,
                frame.wf(),
                w == frame.width,
                h == frame.height,
                b == effective_block(self.block_size),
                y <= h,
                out@.len() == y * w,
                forall|xx: int, yy: int|
                    0 <= xx < w && 0 <= yy < y ==> out@[yy * w + xx] == #[trigger] pixelated_at(m, b as int, xx, yy),
            decreases h - y,
        {
            assert(y % b <= y) by (nonlinear_arith)
                requires
                    b >= 1,
            ;
            let sy = y - y % b;
            let mut x: u32 = 0;
            while x < w
                invariant
                    m == frame@,
                    frame.wf(),
                    w == frame.width,
                    h == frame.height,
                    b == effective_block(self.block_size),
                    y < h,
                    sy == y - y % b,
                    x <= w,
                    out@.len() == y * w + x,
                    forall|xx: int, yy: int|
                        0 <= xx < w && 0 <= yy < y ==> out@[yy * w + xx] == #[trigger] pixelated_at(m, b as int, xx, yy),
                    forall|xx: int| 0 <= xx < x ==> out@[y * w + xx] == #[trigger] pixelated_at(m, b as int, xx, y as int),
                decreases w - x,
            {
                assert(x % b <= x) by (nonlinear_arith)
                    requires
                        b >= 1,
                ;
                let sx = x - x % b;
                proof {
                    lemma_index_in_range(w, h, sx, sy);
                    lemma_index_in_range(w, h, x, y);
                }
                let c = frame.pixels[(sy * w + sx) as usize];
                out.push(c);
                proof {
                    assert forall|xx: int, yy: int|
                        0 <= xx < w && 0 <= yy < y implies out@[yy * w + xx] == #[trigger] pixelated_at(m, b as int, xx, yy) by {
                        assert(yy * w + xx < y * w) by (nonlinear_arith)
                            requires
                                0 <= xx < w,
                                0 <= yy < y,
                        ;
                    }
                }
                x = x + 1;
            }
            proof {
                assert forall|xx: int, yy: int|
                    0 <= xx < w && 0 <= yy < y + 1 implies out@[yy * w + xx] == #[trigger] pixelated_at(m, b as int, xx, yy) by {
                    if yy == y {
                    }
                }
                assert((y + 1) * w == y * w + w) by (nonlinear_arith);
            }
            y = y + 1;
        }
        proof {
            assert(h * w == w * h) by (nonlinear_arith);
        }
        frame.pixels = out;
    }
}

/// With blocks of one pixel, every pixel keeps its own color.
pub proof fn lemma_block_one_is_identity(f: FrameModel, x: int, y: int)
    requires
        0 <= x,
        0 <= y,
    ensures
        pixelated_at(f, 1, x, y) == f.pixels[y * f.width + x],
{
}

/// Pixels of one block all take the same color.
pub proof fn lemma_block_is_uniform(f: FrameModel, b: int, x1: int, y1: int, x2: int, y2: int)
    requires
        b >= 1,
        0 <= x1,
        0 <= y1,
        0 <= x2,
        0 <= y2,
        x1 / b == x2 / b,
        y1 / b == y2 / b,
    ensures
        pixelated_at(f, b, x1, y1) == pixelated_at(f, b, x2, y2),
{
    assert(x1 - x1 % b == b * (x1 / b)) by (nonlinear_arith)
        requires
            b >= 1,
    ;
    assert(x2 - x2 % b == b * (x2 / b)) by (nonlinear_arith)
        requires
            b >= 1,
    ;
    assert(y1 - y1 % b == b * (y1 / b)) by (nonlinear_arith)
        requires
            b >= 1,
    ;
    assert(y2 - y2 % b == b * (y2 / b)) by (nonlinear_arith)
        requires
            b >= 1,
    ;
}

} // verus!
