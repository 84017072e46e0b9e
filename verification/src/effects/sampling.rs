//! Edge-clamped pixel sampling and horizontal channel splitting.

use vstd::prelude::*;
use crate::color::{Rgba, rgba};
use crate::frame::{Frame, FrameModel, lemma_index_in_range, model_at, model_wf, pixel_lookup, same_shape};

verus! {

pub open spec fn clamp_int(v: int, lo: int, hi: int) -> int {
    if v < lo {
        lo
    } else if v > hi {
        hi
    } else {
        v
    }
}

/// The pixel at `(x, y)` of a `w` by `h` buffer, with both coordinates
/// clamped to the buffer's edges.
pub open spec fn clamped_sample(src: Seq<Rgba>, w: int, h: int, x: int, y: int) -> Rgba {
    src[clamp_int(y, 0, h - 1) * w + clamp_int(x, 0, w - 1)]
}

/// Reads a row-major `w` by `h` buffer at `(x, y)`, clamping the position to the edges.
pub fn sample(src: &[Rgba], w: i32, h: i32, x: i32, y: i32) -> (c: Rgba)
    requires
        w >= 1,
        h >= 1,
        w * h <= 0x8000_0000,
        src@.len() >= w * h,
    ensures
        c == clamped_sample(src@, w as int, h as int, x as int, y as int),
{
    let cx = if x < 0 { 0 } else if x > w - 1 { w - 1 } else { x };
    let cy = if y < 0 { 0 } else if y > h - 1 { h - 1 } else { y };
    proof {
        lemma_index_in_range(w as u32, h as u32, cx as u32, cy as u32);
    }
    src[(cy as i64 * w as i64 + cx as i64) as usize]
}

/// The pixel at `(x, y)` with the position clamped into the frame; black for
/// a frame without pixels at the clamped position.
pub open spec fn frame_sample(f: FrameModel, x: int, y: int) -> Rgba {
    let cx = clamp_int(x, 0, if f.width == 0 { 0 } else { f.width - 1 });
    let cy = clamp_int(y, 0, if f.height == 0 { 0 } else { f.height - 1 });
    match pixel_lookup(f, cx as u32, cy as u32) {
        Some(c) => c,
        None => rgba(0, 0, 0, 255),
    }
}

/// Reads the frame at `(x, y)`, clamping the position to the frame's edges.
pub fn sample_pixel(source_frame: &Frame, x: i32, y: i32) -> (c: Rgba)
    requires
        source_frame.width <= 0x8000_0000,
        source_frame.height <= 0x8000_0000,
        source_frame.width * source_frame.height <= 0x1_0000_0000,
    ensures
        c == frame_sample(source_frame@, x as int, y as int),
{
    let max_x: i64 = if source_frame.width == 0 { 0 } else { source_frame.width as i64 - 1 };
    let max_y: i64 = if source_frame.height == 0 { 0 } else { source_frame.height as i64 - 1 };
    let xi = x as i64;
    let yi = y as i64;
    let cx = if xi < 0 { 0 } else if xi > max_x { max_x } else { xi };
    let cy = if yi < 0 { 0 } else if yi > max_y { max_y } else { yi };
    proof {
        if cx < source_frame.width && cy < source_frame.height {
            lemma_index_in_range(source_frame.width, source_frame.height, cx as u32, cy as u32);
        }
    }
    match source_frame.get_pixel(cx as u32, cy as u32) {
        Some(c) => c,
        None => Rgba::black(),
    }
}

/// The pixel at `(x, y)` after splitting channels by `offset` columns: red
/// from `offset` to the right, blue from `offset` to the left, green and
/// alpha from the same position.
pub open spec fn split_pixel(src: FrameModel, offset: int, x: int, y: int) -> Rgba {
    rgba(
        frame_sample(src, x + offset, y).r,
        frame_sample(src, x, y).g,
        frame_sample(src, x - offset, y).b,
        frame_sample(src, x, y).a,
    )
}

/// Inside a well-formed frame, sampling at a position gives the pixel there.
proof fn lemma_sample_inside(f: FrameModel, x: int, y: int)
    requires
        model_wf(f),
        0 <= x < f.width,
        0 <= y < f.height,
    ensures
        frame_sample(f, x, y) == model_at(f, x, y),
{
    lemma_index_in_range(f.width, f.height, x as u32, y as u32);
}

/// Splitting channels moves only red and blue: the red of pixel `(x, y)` is
/// the red `offset` columns to its right and the blue the blue `offset`
/// columns to its left, each position held to the frame's edges, while green
/// and alpha are the pixel's own. With no offset the pixel is unchanged.
pub proof fn lemma_split_moves_only_red_and_blue(src: FrameModel, offset: int, x: int, y: int)
    requires
        model_wf(src),
        0 <= x < src.width,
        0 <= y < src.height,
    ensures
        split_pixel(src, offset, x, y).g == model_at(src, x, y).g,
        split_pixel(src, offset, x, y).a == model_at(src, x, y).a,
        split_pixel(src, offset, x, y).r == model_at(src, clamp_int(x + offset, 0, src.width - 1), y).r,
        split_pixel(src, offset, x, y).b == model_at(src, clamp_int(x - offset, 0, src.width - 1), y).b,
        split_pixel(src, 0, x, y) == model_at(src, x, y),
{
    lemma_sample_inside(src, x, y);
    lemma_sample_inside(src, clamp_int(x + offset, 0, src.width - 1), y);
    lemma_sample_inside(src, clamp_int(x - offset, 0, src.width - 1), y);
    assert(frame_sample(src, x + offset, y) == frame_sample(src, clamp_int(x + offset, 0, src.width - 1), y));
    assert(frame_sample(src, x - offset, y) == frame_sample(src, clamp_int(x - offset, 0, src.width - 1), y));
}

/// Writes into `output` the channels of `source` shifted horizontally by
/// `offset` columns (red from the right, blue from the left); an offset of
/// zero copies `source`.
pub fn apply_chromatic_offset(source_frame: &Frame, output_frame: &mut Frame, offset: i32)
    requires
        source_frame.wf(),
        old(output_frame).wf(),
        same_shape(source_frame@, old(output_frame)@),
        source_frame.width <= 0x8000_0000,
        source_frame.height <= 0x8000_0000,
        source_frame.width + (if offset < 0 { -offset } else { offset as int }) <= 0x8000_0000,
        -offset <= i32::MAX,
    ensures
        offset == 0 ==> final(output_frame).pixels@ == source_frame.pixels@,
        final(output_frame).wf(),
        same_shape(final(output_frame)@, old(output_frame)@),
        offset != 0 ==> forall|x: int, y: int|
            0 <= x < source_frame.width && 0 <= y < source_frame.height ==> final(output_frame).at(x, y)
                == #[trigger] split_pixel(source_frame@, offset as int, x, y),
{
    if offset == 0 {
        let mut copy: Vec<Rgba> = Vec::new();
        let mut i: usize = 0;
        while i < source_frame.pixels.len()
            invariant
                i <= source_frame.pixels@.len(),
                copy@ == source_frame.pixels@.take(i as int),
            decreases source_frame.pixels@.len() - i,
        {
            copy.push(source_frame.pixels[i]);
            i = i + 1;
            assert(copy@ =~= source_frame.pixels@.take(i as int));
        }
        assert(source_frame.pixels@.take(source_frame.pixels@.len() as int) =~= source_frame.pixels@);
        output_frame.pixels = copy;
        return;
    }
    let ghost m = source_frame@;
    let w = source_frame.width;
    let h = source_frame.height;
    let mut y: u32 = 0;
    while y < h
        invariant
            m == source_frame@,
            source_frame.wf(),
            output_frame.wf(),
            same_shape(output_frame@, m),
            w == m.width,
            h == m.height,
            w <= 0x8000_0000,
            h <= 0x8000_0000,
            w + (if offset < 0 { -offset } else { offset as int }) <= 0x8000_0000,
            -offset <= i32::MAX,
            y <= h,
            forall|qx: int, qy: int|
                0 <= qx < w && 0 <= qy < y ==> #[trigger] model_at(output_frame@, qx, qy) == split_pixel(m, offset as int, qx, qy),
        decreases h - y,
    {
        let mut x: u32 = 0;
        while x < w
            invariant
                m == source_frame@,
                source_frame.wf(),
                output_frame.wf(),
                same_shape(output_frame@, m),
                w == m.width,
                h == m.height,
                w <= 0x8000_0000,
                h <= 0x8000_0000,
                w + (if offset < 0 { -offset } else { offset as int }) <= 0x8000_0000,
                -offset <= i32::MAX,
                y < h,
                x <= w,
                forall|qx: int, qy: int|
                    0 <= qx < w && 0 <= qy < h && (qy < y || (qy == y && qx < x)) ==> #[trigger] model_at(output_frame@, qx, qy)
                        == split_pixel(m, offset as int, qx, qy),
            decreases w - x,
        {
            let xi = x as i32;
            let yi = y as i32;
            let r = sample_pixel(source_frame, xi + offset, yi).r;
            let here = sample_pixel(source_frame, xi, yi);
            let b = sample_pixel(source_frame, xi - offset, yi).b;
            let ghost before = output_frame@;
            proof {
                lemma_index_in_range(w, h, x, y);
            }
            output_frame.set_pixel(x, y, Rgba::new(r, here.g, b, here.a));
            proof {
                assert forall|qx: int, qy: int|
                    0 <= qx < w && 0 <= qy < h && (qy < y || (qy == y && qx < x + 1)) implies #[trigger] model_at(output_frame@, qx, qy)
                        == split_pixel(m, offset as int, qx, qy) by {
                    if (qx, qy) != (x as int, y as int) {
                        lemma_index_in_range(w, h, qx as u32, qy as u32);
                        crate::frame::lemma_index_distinct(w, h, x, y, qx as u32, qy as u32);
                        assert(model_at(output_frame@, qx, qy) == model_at(before, qx, qy));
                    }
                }
            }
            x = x + 1;
        }
        y = y + 1;
    }
    assert forall|x: int, y: int|
        0 <= x < w && 0 <= y < h implies output_frame.at(x, y) == #[trigger] split_pixel(m, offset as int, x, y) by {
        assert(model_at(output_frame@, x, y) == split_pixel(m, offset as int, x, y));
    }
}

} // verus!
