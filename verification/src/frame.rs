//! A frame: a flat, row-major buffer of `Rgba` pixels.

use vstd::prelude::*;
use crate::color::{Rgba, rgba};

verus! {

/// A picture of `width * height` pixels, row by row: pixel `(x, y)` sits at
/// index `y * width + x`.
#[derive(Debug, Clone)]
pub struct Frame {
    pub width: u32,
    pub height: u32,
    pub pixels: Vec<Rgba>,
}

/// The mathematical content of a frame: its size and its pixel sequence.
pub ghost struct FrameModel {
    pub width: u32,
    pub height: u32,
    pub pixels: Seq<Rgba>,
}

impl View for Frame {
    type V = FrameModel;

    open spec fn view(&self) -> FrameModel {
        FrameModel { width: self.width, height: self.height, pixels: self.pixels@ }
    }
}

/// What reading pixel `(x, y)` of the frame gives.
pub open spec fn pixel_lookup(f: FrameModel, x: u32, y: u32) -> Option<Rgba> {
    let i = y * f.width + x;
    if x < f.width && y < f.height && i < f.pixels.len() {
        Some(f.pixels[i])
    } else {
        None
    }
}

/// The frame after writing `c` at `(x, y)`; writes outside the frame change nothing.
pub open spec fn with_pixel(f: FrameModel, x: u32, y: u32, c: Rgba) -> FrameModel {
    if x < f.width && y < f.height {
        FrameModel { pixels: f.pixels.update(y * f.width + x, c), ..f }
    } else {
        f
    }
}

/// The pixel at `(x, y)` of a frame model.
pub open spec fn model_at(f: FrameModel, x: int, y: int) -> Rgba {
    f.pixels[y * f.width + x]
}

/// Two frames have the same size and buffer length.
pub open spec fn same_shape(a: FrameModel, b: FrameModel) -> bool {
    a.width == b.width && a.height == b.height && a.pixels.len() == b.pixels.len()
}

/// The buffer holds exactly one pixel per position, and every index fits in `u32`.
pub open spec fn model_wf(f: FrameModel) -> bool {
    &&& f.width * f.height <= u32::MAX
    &&& f.pixels.len() == f.width * f.height
}

impl Frame {
    /// The buffer holds exactly one pixel per position, and every index fits in `u32`.
    pub open spec fn wf(&self) -> bool {
        model_wf(self@)
    }

    /// The pixel at `(x, y)` of a well-formed frame.
    pub open spec fn at(&self, x: int, y: int) -> Rgba {
        self.pixels@[y * self.width + x]
    }

    /// A black, opaque frame of the given size.
    pub fn new(width: u32, height: u32) -> (f: Self)
        requires
            width * height <= u32::MAX,
        ensures
            f.wf(),
            f.width == width,
            f.height == height,
            forall|i: int| 0 <= i < f.pixels@.len() ==> #[trigger] f.pixels@[i] == rgba(0, 0, 0, 255),
    {
        let pixel_count = width * height;
        let pixels = vec![Rgba::black(); pixel_count as usize];
        Frame { width, height, pixels }
    }

    /// Writes `color` at `(x, y)` and reports whether the position was inside the frame.
    pub fn set_pixel(&mut self, x: u32, y: u32, color: Rgba) -> (written: bool)
        requires
            x < old(self).width && y < old(self).height ==> y * old(self).width + x <= u32::MAX && y
                * old(self).width + x < old(self).pixels@.len(),
        ensures
            written == (x < old(self).width && y < old(self).height),
            final(self)@ == with_pixel(old(self)@, x, y, color),
            old(self).wf() ==> final(self).wf(),
    {
        if x >= self.width || y >= self.height {
            return false;
        }
        let index = (y * self.width + x) as usize;
        self.pixels.set(index, color);
        true
    }

    /// Reads the pixel at `(x, y)`, or `None` outside the frame.
    pub fn get_pixel(&self, x: u32, y: u32) -> (c: Option<Rgba>)
        requires
            x < self.width && y < self.height ==> y * self.width + x <= u32::MAX,
        ensures
            c == pixel_lookup(self@, x, y),
    {
        if x >= self.width || y >= self.height {
            return None;
        }
        let index = (y * self.width + x) as usize;
        if index < self.pixels.len() {
            Some(self.pixels[index])
        } else {
            None
        }
    }

    /// Paints every position of the frame with `color`.
    pub fn fill_solid(&mut self, color: Rgba)
        requires
            old(self).wf(),
        ensures
            final(self).wf(),
            same_shape(final(self)@, old(self)@),
            forall|i: int| 0 <= i < final(self).pixels@.len() ==> #[trigger] final(self).pixels@[i] == color,
    {
        let mut y: u32 = 0;
        while y < self.height
            invariant
                self.wf(),
                same_shape(self@, old(self)@),
                y <= self.height,
                forall|i: int| 0 <= i < y * self.width ==> #[trigger] self.pixels@[i] == color,
            decreases self.height - y,
        {
            let mut x: u32 = 0;
            while x < self.width
                invariant
                    self.wf(),
                    same_shape(self@, old(self)@),
                    y < self.height,
                    x <= self.width,
                    forall|i: int| 0 <= i < y * self.width + x ==> #[trigger] self.pixels@[i] == color,
                decreases self.width - x,
            {
                proof {
                    lemma_index_in_range(self.width, self.height, x, y);
                }
                self.set_pixel(x, y, color);
                x = x + 1;
            }
            proof {
                assert((y + 1) * self.width == y * self.width + self.width) by (nonlinear_arith);
            }
            y = y + 1;
        }
        assert(self.height * self.width == self.width * self.height) by (nonlinear_arith);
    }

    /// Sets every entry of the buffer to `color`, keeping its length.
    pub fn clear(&mut self, color: Rgba)
        ensures
            final(self).width == old(self).width,
            final(self).height == old(self).height,
            final(self).pixels@ == Seq::new(old(self).pixels@.len(), |i: int| color),
    {
        let n = self.pixels.len();
        let mut i: usize = 0;
        while i < n
            invariant
                self.width == old(self).width,
                self.height == old(self).height,
                n == self.pixels@.len(),
                n == old(self).pixels@.len(),
                i <= n,
                forall|j: int| 0 <= j < i ==> #[trigger] self.pixels@[j] == color,
            decreases n - i,
        {
            self.pixels.set(i, color);
            i = i + 1;
        }
        assert(self.pixels@ =~= Seq::new(old(self).pixels@.len(), |i: int| color));
    }

    /// The buffer as bytes `r, g, b, a` per pixel, in pixel order.
    pub fn as_raw_rgba(&self) -> (bytes: Vec<u8>)
        requires
            self.pixels@.len() * 4 <= usize::MAX,
        ensures
            bytes@ == raw_bytes(self.pixels@),
    {
        let n = self.pixels.len();
        let mut bytes: Vec<u8> = Vec::with_capacity(n * 4);
        let mut i: usize = 0;
        while i < n
            invariant
                n == self.pixels@.len(),
                n * 4 <= usize::MAX,
                i <= n,
                bytes@ == raw_bytes(self.pixels@.take(i as int)),
            decreases n - i,
        {
            let p = self.pixels[i];
            bytes.push(p.r);
            bytes.push(p.g);
            bytes.push(p.b);
            bytes.push(p.a);
            proof {
                assert(self.pixels@.take(i + 1).drop_last() =~= self.pixels@.take(i as int));
            }
            i = i + 1;
        }
        assert(self.pixels@.take(n as int) =~= self.pixels@);
        bytes
    }

    /// Replaces each entry of the buffer with `callback(x, y)` for its position:
    /// entry `i` is at `x = i % width`, `y = i / width`.
    pub fn parallel_for_each_pixel<F>(&mut self, callback: F)
        where
            F: Fn(u32, u32) -> Rgba,
        requires
            old(self).pixels@.len() > 0 ==> old(self).width > 0,
            old(self).pixels@.len() <= 0x1_0000_0000,
            forall|i: int|
                0 <= i < old(self).pixels@.len() ==> #[trigger] callback.requires(position_of(i, old(self).width)),
        ensures
            final(self).width == old(self).width,
            final(self).height == old(self).height,
            final(self).pixels@.len() == old(self).pixels@.len(),
            forall|i: int|
                0 <= i < final(self).pixels@.len() ==> #[trigger] callback.ensures(
                    position_of(i, final(self).width),
                    final(self).pixels@[i],
                ),
            old(self).wf() ==> final(self).wf() && forall|x: u32, y: u32|
                x < final(self).width && y < final(self).height ==> #[trigger] callback.ensures(
                    (x, y),
                    final(self).at(x as int, y as int),
                ),
    {
        let width = self.width;
        let n = self.pixels.len();
        let mut i: usize = 0;
        while i < n
            invariant
                width == self.width,
                self.height == old(self).height,
                n == self.pixels@.len(),
                n == old(self).pixels@.len(),
                n > 0 ==> width > 0,
                n <= 0x1_0000_0000,
                i <= n,
                forall|k: int| 0 <= k < n ==> #[trigger] callback.requires(position_of(k, width)),
                forall|k: int| 0 <= k < i ==> #[trigger] callback.ensures(position_of(k, width), self.pixels@[k]),
            decreases n - i,
        {
            let idx = i as u32;
            let x = idx % width;
            let y = idx / width;
            assert(position_of(i as int, width) == (x, y));
            let c = callback(x, y);
            self.pixels.set(i, c);
            i = i + 1;
        }
        proof {
            if old(self).wf() {
                assert forall|x: u32, y: u32| x < self.width && y < self.height implies #[trigger] callback.ensures(
                    (x, y),
                    self.at(x as int, y as int),
                ) by {
                    lemma_index_in_range(width, self.height, x, y);
                    lemma_position_of_index(width, x, y);
                }
            }
        }
    }
}

/// The position of entry `i` of a buffer of rows `width` wide.
pub open spec fn position_of(i: int, width: u32) -> (u32, u32) {
    ((i % (width as int)) as u32, (i / (width as int)) as u32)
}

/// Entry `y * width + x` sits at position `(x, y)`.
pub proof fn lemma_position_of_index(width: u32, x: u32, y: u32)
    requires
        x < width,
    ensures
        position_of(y * width + x, width) == (x, y),
{
    vstd::arithmetic::div_mod::lemma_fundamental_div_mod_converse(
        y * width + x,
        width as int,
        y as int,
        x as int,
    );
}

/// Entry `i` of a well-formed frame sits inside it, at `position_of(i, width)`.
pub proof fn lemma_index_position(i: int, width: u32, height: u32)
    requires
        0 <= i < width * height,
        width * height <= u32::MAX,
    ensures
        position_of(i, width).0 < width,
        position_of(i, width).1 < height,
        position_of(i, width).1 * width + position_of(i, width).0 == i,
{
    assert(width > 0) by (nonlinear_arith)
        requires
            0 <= i < width * height,
    ;
    let q = i / (width as int);
    let r = i % (width as int);
    vstd::arithmetic::div_mod::lemma_fundamental_div_mod(i, width as int);
    assert(q < height) by (nonlinear_arith)
        requires
            i == width * q + r,
            0 <= r,
            i < width * height,
            width > 0,
    ;
    assert(q >= 0) by (nonlinear_arith)
        requires
            i == width * q + r,
            0 <= i,
            r < width,
            width > 0,
    ;
    assert(q * width == width * q) by (nonlinear_arith);
}

/// The frame after writing `g(x, y)` at the first `k` positions in row order,
/// one `set_pixel` at a time: the serial loop over a frame.
pub open spec fn serial_fill(f: FrameModel, g: spec_fn(u32, u32) -> Rgba, k: nat) -> FrameModel
    decreases k,
{
    if k == 0 {
        f
    } else {
        let p = position_of(k - 1, f.width);
        with_pixel(serial_fill(f, g, (k - 1) as nat), p.0, p.1, g(p.0, p.1))
    }
}

/// After `k` serial writes, the first `k` entries hold `g` at their positions
/// and the rest are untouched.
proof fn lemma_serial_fill_prefix(f: FrameModel, g: spec_fn(u32, u32) -> Rgba, k: nat)
    requires
        model_wf(f),
        k <= f.width * f.height,
    ensures
        serial_fill(f, g, k).width == f.width,
        serial_fill(f, g, k).height == f.height,
        serial_fill(f, g, k).pixels.len() == f.pixels.len(),
        forall|i: int| 0 <= i < k ==> #[trigger] serial_fill(f, g, k).pixels[i] == g(
            position_of(i, f.width).0,
            position_of(i, f.width).1,
        ),
        forall|i: int| k <= i < f.pixels.len() ==> #[trigger] serial_fill(f, g, k).pixels[i] == f.pixels[i],
    decreases k,
{
    if k > 0 {
        lemma_serial_fill_prefix(f, g, (k - 1) as nat);
        lemma_index_position(k - 1, f.width, f.height);
    }
}

/// Filling a frame in parallel, each entry with `g` at its position, gives the
/// same frame as the serial loop that calls `set_pixel(x, y, g(x, y))` for
/// every position in row order. This is what `parallel_for_each_pixel`
/// produces for a callback that returns `g(x, y)`.
pub proof fn lemma_parallel_matches_serial(before: FrameModel, after: FrameModel, g: spec_fn(u32, u32) -> Rgba)
    requires
        model_wf(before),
        after.width == before.width,
        after.height == before.height,
        after.pixels.len() == before.pixels.len(),
        forall|i: int| 0 <= i < after.pixels.len() ==> #[trigger] after.pixels[i] == g(
            position_of(i, after.width).0,
            position_of(i, after.width).1,
        ),
    ensures
        after == serial_fill(before, g, (before.width * before.height) as nat),
{
    let s = serial_fill(before, g, (before.width * before.height) as nat);
    lemma_serial_fill_prefix(before, g, (before.width * before.height) as nat);
    assert(s.pixels =~= after.pixels);
}

/// Bytes `r, g, b, a` of each pixel in turn.
pub open spec fn raw_bytes(pixels: Seq<Rgba>) -> Seq<u8>
    decreases pixels.len(),
{
    if pixels.len() == 0 {
        Seq::empty()
    } else {
        let p = pixels.last();
        raw_bytes(pixels.drop_last()) + seq![p.r, p.g, p.b, p.a]
    }
}

/// Position `(x, y)` of an in-bounds pixel has an index below `width * height`.
pub proof fn lemma_index_in_range(width: u32, height: u32, x: u32, y: u32)
    requires
        x < width,
        y < height,
    ensures
        y * width + x < width * height,
        y * width + x >= 0,
{
    assert(y * width + x < width * height) by (nonlinear_arith)
        requires
            x < width,
            y < height,
    ;
}

/// Distinct in-bounds positions have distinct indices.
pub proof fn lemma_index_distinct(width: u32, height: u32, x1: u32, y1: u32, x2: u32, y2: u32)
    requires
        x1 < width,
        x2 < width,
        (x1, y1) != (x2, y2),
    ensures
        y1 * width + x1 != y2 * width + x2,
{
    if y1 == y2 {
    } else if y1 < y2 {
        assert(y1 * width + x1 < y2 * width + x2) by (nonlinear_arith)
            requires
                y1 < y2,
                x1 < width,
        ;
    } else {
        assert(y2 * width + x2 < y1 * width + x1) by (nonlinear_arith)
            requires
                y2 < y1,
                x2 < width,
        ;
    }
}

/// Reading a pixel back after writing it gives the written color; every
/// other position reads as before.
pub proof fn lemma_read_after_write(f: FrameModel, x: u32, y: u32, c: Rgba, x2: u32, y2: u32)
    requires
        model_wf(f),
        x < f.width,
        y < f.height,
    ensures
        pixel_lookup(with_pixel(f, x, y, c), x, y) == Some(c),
        (x2, y2) != (x, y) ==> pixel_lookup(with_pixel(f, x, y, c), x2, y2) == pixel_lookup(f, x2, y2),
{
    lemma_index_in_range(f.width, f.height, x, y);
    if (x2, y2) != (x, y) && x2 < f.width {
        lemma_index_distinct(f.width, f.height, x, y, x2, y2);
    }
}

/// After writing `c` at an in-bounds `(x, y)`, that position reads `c` and every
/// other in-bounds position reads as before.
pub proof fn lemma_write_one(before: FrameModel, x: u32, y: u32, c: Rgba)
    requires
        model_wf(before),
        x < before.width,
        y < before.height,
    ensures
        y * before.width + x < before.pixels.len(),
        y * before.width + x <= u32::MAX,
        same_shape(with_pixel(before, x, y, c), before),
        forall|qx: int, qy: int|
            0 <= qx < before.width && 0 <= qy < before.height ==> #[trigger] model_at(with_pixel(before, x, y, c), qx, qy)
                == if qx == x && qy == y {
                c
            } else {
                model_at(before, qx, qy)
            },
{
    lemma_index_in_range(before.width, before.height, x, y);
    assert forall|qx: int, qy: int| 0 <= qx < before.width && 0 <= qy < before.height implies #[trigger] model_at(
        with_pixel(before, x, y, c),
        qx,
        qy,
    ) == if qx == x && qy == y {
        c
    } else {
        model_at(before, qx, qy)
    } by {
        lemma_index_in_range(before.width, before.height, qx as u32, qy as u32);
        if !(qx == x && qy == y) {
            lemma_index_distinct(before.width, before.height, x, y, qx as u32, qy as u32);
        }
    }
}

/// Writing outside the frame changes nothing.
pub proof fn lemma_write_outside(f: FrameModel, x: u32, y: u32, c: Rgba)
    requires
        !(x < f.width && y < f.height),
    ensures
        with_pixel(f, x, y, c) == f,
{
}

/// Four bytes per pixel.
pub proof fn lemma_raw_bytes_len(pixels: Seq<Rgba>)
    ensures
        raw_bytes(pixels).len() == 4 * pixels.len(),
    decreases pixels.len(),
{
    if pixels.len() > 0 {
        lemma_raw_bytes_len(pixels.drop_last());
    }
}

} // verus!
