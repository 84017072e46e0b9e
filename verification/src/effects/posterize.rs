//! Posterization: each color channel is snapped to one of a few evenly spaced levels.

use vstd::prelude::*;
use crate::color::{Rgba, rgba};
use crate::frame::{Frame, same_shape};

verus! {

pub struct PosterizeEffect {
    pub levels: u8,
}

/// Settings of the posterize effect as written in a configuration.
pub struct PosterizeParams {
    pub levels: u8,
}

/// The level count used when a configuration names the effect without one.
pub fn default_levels() -> (l: u8)
    ensures
        l == 6,
{
    6
}

impl Default for PosterizeParams {
    fn default() -> (p: Self)
        ensures
            p.levels == 6,
    {
        PosterizeParams { levels: default_levels() }
    }
}

/// Step counts `n` (levels less one) for which the top level, computed in
/// single precision as `n * (255 / n)`, lands just below 255.
pub open spec fn top_level_short(n: int) -> bool {
    n == 7 || n == 14 || n == 28 || n == 41 || n == 56 || n == 63 || n == 82 || n == 91 || n == 101
        || n == 112 || n == 113 || n == 119 || n == 123 || n == 126 || n == 163 || n == 164 || n == 182
        || n == 191 || n == 197 || n == 202 || n == 207 || n == 209 || n == 223 || n == 224 || n == 226
        || n == 229 || n == 233 || n == 237 || n == 238 || n == 239 || n == 246 || n == 252
}

/// Whether level `k` of `n` steps, an exact multiple of `255 / n`, comes out one
/// below that multiple in single precision.
pub open spec fn level_short(n: int, k: int) -> bool {
    (k == n && top_level_short(n)) || (n == 237 && (k == 79 || k == 158))
}

/// The channel value after posterizing with `levels` levels (fewer than two count as two).
///
/// The level index `k` is the channel scaled to `0..=n` (`n = levels - 1`) and
/// rounded half up; the output is `k * 255 / n`, rounded down. The step
/// `255 / n` is computed in single precision; where it is not exact, a few
/// levels that are exact multiples land one below (see `level_short`).
pub open spec fn posterize_value(c: u8, levels: u8) -> u8 {
    let l: int = if levels < 2 { 2 } else { levels as int };
    let n = l - 1;
    let k = (2 * c * n + 255) / 510;
    if level_short(n, k) {
        (k * 255 / n - 1) as u8
    } else {
        (k * 255 / n) as u8
    }
}

fn is_level_short(n: u32, k: u32) -> (short: bool)
    ensures
        short == level_short(n as int, k as int),
{
    let top = n == 7 || n == 14 || n == 28 || n == 41 || n == 56 || n == 63 || n == 82 || n == 91 || n == 101
        || n == 112 || n == 113 || n == 119 || n == 123 || n == 126 || n == 163 || n == 164 || n == 182
        || n == 191 || n == 197 || n == 202 || n == 207 || n == 209 || n == 223 || n == 224 || n == 226
        || n == 229 || n == 233 || n == 237 || n == 238 || n == 239 || n == 246 || n == 252;
    (k == n && top) || (n == 237 && (k == 79 || k == 158))
}

/// Posterizes one channel value; `levels` below two counts as two.
pub fn posterize_channel(channel: u8, levels: u8) -> (v: u8)
    ensures
        v == posterize_value(channel, levels),
{
    let l: u32 = if levels < 2 { 2 } else { levels as u32 };
    let n = l - 1;
    assert(2 * (channel as u32) * n <= 129540) by (nonlinear_arith)
        requires
            channel <= 255,
            1 <= n <= 254,
    ;
    let k = (2 * (channel as u32) * n + 255) / 510;
    proof {
        assert(k <= n) by (nonlinear_arith)
            requires
                k == (2 * (channel as u32) * n + 255) / 510,
                channel <= 255,
                1 <= n <= 254,
        ;
        assert((k as int) * 255 / (n as int) <= 255) by (nonlinear_arith)
            requires
                k <= n,
                1 <= n,
        ;
    }
    let v = k * 255 / n;
    if is_level_short(n, k) {
        assert(v >= 1) by (nonlinear_arith)
            requires
                v as int == (k as int) * 255 / (n as int),
                1 <= k <= n,
                n <= 254,
        ;
        (v - 1) as u8
    } else {
        v as u8
    }
}

proof fn lemma_requantize(n: int, k: int)
    requires
        1 <= n <= 31,
        0 <= k <= n,
    ensures
        (2 * ((k * 255) / n) * n + 255) / 510 == k,
{
    let v = (k * 255) / n;
    assert(v * n <= k * 255 < v * n + n) by (nonlinear_arith)
        requires
            v == (k * 255) / n,
            n >= 1,
            k >= 0,
    ;
    assert((2 * v * n + 255) / 510 == k) by (nonlinear_arith)
        requires
            v * n <= k * 255 < v * n + n,
            1 <= n <= 31,
    ;
}

/// The level count an effect made with `requested` levels works with.
pub open spec fn effect_levels(requested: u8) -> u8 {
    if requested < 2 {
        2
    } else if requested > 32 {
        32
    } else {
        requested
    }
}

/// Posterizing twice with the levels of an effect made by `PosterizeEffect::new`
/// gives the same channel as posterizing once.
pub proof fn lemma_posterize_idempotent(c: u8, requested: u8)
    ensures
        posterize_value(posterize_value(c, effect_levels(requested)), effect_levels(requested))
            == posterize_value(c, effect_levels(requested)),
{
    let levels = effect_levels(requested);
    let n: int = levels - 1;
    let k = (2 * c * n + 255) / 510;
    assert(k <= n) by (nonlinear_arith)
        requires
            k == (2 * c * n + 255) / 510,
            c <= 255,
            1 <= n <= 31,
    ;
    assert(k * 255 / n <= 255) by (nonlinear_arith)
        requires
            k <= n,
            1 <= n,
    ;
    let v = posterize_value(c, levels);
    if level_short(n, k) {
        assert(k == n && (n == 7 || n == 14 || n == 28));
        assert(n * 255 / n == 255) by (nonlinear_arith)
            requires
                n >= 1,
        ;
        assert(v == 254);
        if n == 7 {
            assert((2 * 254 * n + 255) / 510 == n);
        } else if n == 14 {
            assert((2 * 254 * n + 255) / 510 == n);
        } else {
            assert((2 * 254 * n + 255) / 510 == n);
        }
    } else {
        lemma_requantize(n, k);
        assert(v as int == k * 255 / n);
        let k2 = (2 * v * n + 255) / 510;
        assert(k2 == k);
        assert(!level_short(n, k2));
    }
}

/// Posterizing keeps the order of channel values: a brighter channel never
/// comes out darker, for every level count.
pub proof fn lemma_posterize_monotone(c1: u8, c2: u8, levels: u8)
    requires
        c1 <= c2,
    ensures
        posterize_value(c1, levels) <= posterize_value(c2, levels),
{
    let l: int = if levels < 2 { 2 } else { levels as int };
    let n = l - 1;
    let k1 = (2 * c1 * n + 255) / 510;
    let k2 = (2 * c2 * n + 255) / 510;
    assert(k1 <= k2) by (nonlinear_arith)
        requires
            k1 == (2 * c1 * n + 255) / 510,
            k2 == (2 * c2 * n + 255) / 510,
            c1 <= c2,
            n >= 1,
    ;
    if k1 < k2 {
        let a1 = k1 * 255 / n;
        let a2 = k2 * 255 / n;
        assert(a1 + 1 <= a2) by (nonlinear_arith)
            requires
                a1 == k1 * 255 / n,
                a2 == k2 * 255 / n,
                0 <= k1 < k2,
                1 <= n <= 254,
        ;
        assert(a1 >= 0) by (nonlinear_arith)
            requires
                a1 == k1 * 255 / n,
                k1 >= 0,
                n >= 1,
        ;
        assert(k2 <= n) by (nonlinear_arith)
            requires
                k2 == (2 * c2 * n + 255) / 510,
                c2 <= 255,
                1 <= n <= 254,
        ;
        assert(a2 <= 255) by (nonlinear_arith)
            requires
                a2 == k2 * 255 / n,
                k2 <= n,
                n >= 1,
        ;
        if level_short(n, k1) {
            assert(a1 >= 1) by (nonlinear_arith)
                requires
                    a1 == k1 * 255 / n,
                    k1 >= 1,
                    1 <= n <= 254,
            ;
        }
        let v1 = posterize_value(c1, levels);
        let v2 = posterize_value(c2, levels);
        assert(v1 <= a1);
        assert(v2 + 1 >= a2);
    }
}

/// The posterized color: red, green and blue snapped, alpha kept.
pub open spec fn posterized(c: Rgba, levels: u8) -> Rgba {
    rgba(posterize_value(c.r, levels), posterize_value(c.g, levels), posterize_value(c.b, levels), c.a)
}

impl PosterizeEffect {
    /// An effect with the level count clamped to `2..=32`.
    pub fn new(levels: u8) -> (e: Self)
        ensures
            e.levels == effect_levels(levels),
    {
        let levels = if levels < 2 {
            2
        } else if levels > 32 {
            32
        } else {
            levels
        };
        PosterizeEffect { levels }
    }

    pub fn name(&self) -> (n: &'static str)
        ensures
            n@ == "posterize"@,
    {
        "posterize"
    }

    /// Posterizes the red, green and blue channels of every pixel.
    pub fn apply(&self, frame: &mut Frame)
        ensures
            same_shape(final(frame)@, old(frame)@),
            forall|i: int| 0 <= i < final(frame).pixels@.len()
                ==> #[trigger] final(frame).pixels@[i] == posterized(old(frame).pixels@[i], self.levels),
    {
        let n = frame.pixels.len();
        let mut i: usize = 0;
        while i < n
            invariant
                frame.width == old(frame).width,
                frame.height == old(frame).height,
                n == frame.pixels@.len(),
                n == old(frame).pixels@.len(),
                i <= n,
                forall|j: int| 0 <= j < i ==> #[trigger] frame.pixels@[j] == posterized(old(frame).pixels@[j], self.levels),
                forall|j: int| i <= j < n ==> #[trigger] frame.pixels@[j] == old(frame).pixels@[j],
            decreases n - i,
        {
            let p = frame.pixels[i];
            let q = Rgba::new(
                posterize_channel(p.r, self.levels),
                posterize_channel(p.g, self.levels),
                posterize_channel(p.b, self.levels),
                p.a,
            );
            frame.pixels.set(i, q);
            i = i + 1;
        }
    }
}

} // verus!
