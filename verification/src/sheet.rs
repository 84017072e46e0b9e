//! Contact sheets: a grid of thumbnails, each over a label strip that names
//! its frame in an 8x8 bitmap font.

use vstd::prelude::*;
use font8x8::UnicodeFonts;
use crate::color::{Rgba, rgba};
use crate::export::frame_number_label;
use crate::frame::{Frame, FrameModel, lemma_write_one, model_at, model_wf, same_shape};
use crate::text::decimal;

verus! {

/// Whether `(qx, qy)` lies in the `w` by `h` rectangle whose top-left corner is `(x, y)`.
pub open spec fn in_rect(x: int, y: int, w: int, h: int, qx: int, qy: int) -> bool {
    x <= qx < x + w && y <= qy < y + h
}

/// Paints the `w` by `h` rectangle at `(x, y)` with `color`; a rectangle with
/// no width or no height paints nothing.
pub fn fill_rect(frame: &mut Frame, x: u32, y: u32, w: u32, h: u32, color: Rgba)
    requires
        old(frame).wf(),
        x + w <= u32::MAX,
        y + h <= u32::MAX,
        w > 0 && h > 0 ==> x + w <= old(frame).width && y + h <= old(frame).height,
    ensures
        final(frame).wf(),
        same_shape(final(frame)@, old(frame)@),
        forall|qx: int, qy: int|
            0 <= qx < final(frame).width && 0 <= qy < final(frame).height ==> #[trigger] final(frame).at(qx, qy)
                == if in_rect(x as int, y as int, w as int, h as int, qx, qy) {
                color
            } else {
                old(frame).at(qx, qy)
            },
{
    let ghost m = frame@;
    let fw = frame.width;
    let fh = frame.height;
    if w == 0 || h == 0 {
        return;
    }
    let mut py = y;
    while py < y + h
        invariant
            frame.wf(),
            same_shape(frame@, m),
            fw == frame.width,
            fh == frame.height,
            model_wf(m),
            m.width == fw,
            m.height == fh,
            x + w <= fw,
            y + h <= fh,
            y <= py <= y + h,
            forall|qx: int, qy: int|
                0 <= qx < fw && 0 <= qy < fh ==> #[trigger] model_at(frame@, qx, qy) == if in_rect(
                    x as int,
                    y as int,
                    w as int,
                    (py - y) as int,
                    qx,
                    qy,
                ) {
                    color
                } else {
                    model_at(m, qx, qy)
                },
        decreases y + h - py,
    {
        let mut px = x;
        while px < x + w
            invariant
                frame.wf(),
                same_shape(frame@, m),
                fw == frame.width,
                fh == frame.height,
                model_wf(m),
                m.width == fw,
                m.height == fh,
                x + w <= fw,
                y + h <= fh,
                y <= py < y + h,
                x <= px <= x + w,
                forall|qx: int, qy: int|
                    0 <= qx < fw && 0 <= qy < fh ==> #[trigger] model_at(frame@, qx, qy) == if in_rect(
                        x as int,
                        y as int,
                        w as int,
                        (py - y) as int,
                        qx,
                        qy,
                    ) || (qy == py && x <= qx < px) {
                        color
                    } else {
                        model_at(m, qx, qy)
                    },
            decreases x + w - px,
        {
            proof {
                lemma_write_one(frame@, px, py, color);
            }
            frame.set_pixel(px, py, color);
            px = px + 1;
        }
        py = py + 1;
    }
    assert forall|qx: int, qy: int| 0 <= qx < fw && 0 <= qy < fh implies #[trigger] frame.at(qx, qy) == if in_rect(
        x as int,
        y as int,
        w as int,
        h as int,
        qx,
        qy,
    ) {
        color
    } else {
        old(frame).at(qx, qy)
    } by {
        assert(model_at(frame@, qx, qy) == frame.at(qx, qy));
    }
}

/// The eight rows of the 8x8 glyph that the basic font gives `ch`, top row
/// first, bit `k` of a row being column `k`; `None` when the font has no glyph
/// for `ch`.
pub uninterp spec fn basic_glyph(ch: char) -> Option<Seq<u8>>;

/// Looks `ch` up in font8x8's `BASIC_FONTS` (`UnicodeFonts::get`). Claimed: the
/// font covers exactly `U+0000` to `U+007F`, and the rows returned are
/// `basic_glyph(ch)`; the shapes of the glyphs are not stated.
#[verifier::external_body]
fn glyph_rows(ch: char) -> (g: Option<[u8; 8]>)
    ensures
        g is Some <==> (ch as u32) < 128,
        match g {
            Some(rows) => basic_glyph(ch) == Some(rows@),
            None => basic_glyph(ch) is None,
        },
{
    font8x8::BASIC_FONTS.get(ch)
}

/// Column `col` of a glyph row is drawn: bit `col` of the row is set.
pub open spec fn row_lit(bits: u8, col: int) -> bool {
    0 <= col < 8 && bits & (1u8 << (col as u32)) != 0
}

/// Whether the glyph rows, drawn with their top-left corner at the origin, cover `(dx, dy)`.
pub open spec fn glyph_covers(rows: Seq<u8>, dx: int, dy: int) -> bool {
    0 <= dy < 8 && dy < rows.len() && row_lit(rows[dy], dx)
}

/// Draws the lit dots of a glyph in `color` with its top-left corner at `(x, y)`.
pub fn draw_glyph(frame: &mut Frame, x: u32, y: u32, rows: [u8; 8], color: Rgba)
    requires
        old(frame).wf(),
        forall|dx: int, dy: int|
            #[trigger] glyph_covers(rows@, dx, dy) ==> x + dx < old(frame).width && y + dy < old(frame).height,
    ensures
        final(frame).wf(),
        same_shape(final(frame)@, old(frame)@),
        forall|qx: int, qy: int|
            0 <= qx < final(frame).width && 0 <= qy < final(frame).height ==> #[trigger] final(frame).at(qx, qy)
                == if glyph_covers(rows@, qx - x, qy - y) {
                color
            } else {
                old(frame).at(qx, qy)
            },
{
    let ghost m = frame@;
    let fw = frame.width;
    let fh = frame.height;
    let mut row: u32 = 0;
    while row < 8
        invariant
            frame.wf(),
            same_shape(frame@, m),
            fw == frame.width,
            fh == frame.height,
            model_wf(m),
            m.width == fw,
            m.height == fh,
            rows@.len() == 8,
            forall|dx: int, dy: int| #[trigger] glyph_covers(rows@, dx, dy) ==> x + dx < fw && y + dy < fh,
            row <= 8,
            forall|qx: int, qy: int|
                0 <= qx < fw && 0 <= qy < fh ==> #[trigger] model_at(frame@, qx, qy) == if glyph_covers(
                    rows@,
                    qx - x,
                    qy - y,
                ) && qy - y < row {
                    color
                } else {
                    model_at(m, qx, qy)
                },
        decreases 8 - row,
    {
        let bits = rows[row as usize];
        let mut col: u32 = 0;
        while col < 8
            invariant
                frame.wf(),
                same_shape(frame@, m),
                fw == frame.width,
                fh == frame.height,
                model_wf(m),
                m.width == fw,
                m.height == fh,
                rows@.len() == 8,
                forall|dx: int, dy: int| #[trigger] glyph_covers(rows@, dx, dy) ==> x + dx < fw && y + dy < fh,
                row < 8,
                bits == rows@[row as int],
                col <= 8,
                forall|qx: int, qy: int|
                    0 <= qx < fw && 0 <= qy < fh ==> #[trigger] model_at(frame@, qx, qy) == if glyph_covers(
                        rows@,
                        qx - x,
                        qy - y,
                    ) && (qy - y < row || (qy - y == row && qx - x < col)) {
                        color
                    } else {
                        model_at(m, qx, qy)
                    },
            decreases 8 - col,
        {
            if bits & (1u8 << col) != 0 {
                assert(glyph_covers(rows@, col as int, row as int));
                let px = x + col;
                let py = y + row;
                proof {
                    lemma_write_one(frame@, px, py, color);
                }
                frame.set_pixel(px, py, color);
            } else {
                assert(!glyph_covers(rows@, col as int, row as int));
            }
            col = col + 1;
        }
        row = row + 1;
    }
    assert forall|qx: int, qy: int| 0 <= qx < fw && 0 <= qy < fh implies #[trigger] frame.at(qx, qy) == if glyph_covers(
        rows@,
        qx - x,
        qy - y,
    ) {
        color
    } else {
        old(frame).at(qx, qy)
    } by {
        assert(model_at(frame@, qx, qy) == frame.at(qx, qy));
    }
}

/// Whether the text drawn from the origin, glyph `i` starting at column `9 * i`,
/// covers `(dx, dy)`. Characters the font lacks leave their place blank.
pub open spec fn text_covers(text: Seq<char>, dx: int, dy: int) -> bool {
    &&& 0 <= dx
    &&& dx / 9 < text.len()
    &&& match basic_glyph(text[dx / 9]) {
        Some(rows) => glyph_covers(rows, dx % 9, dy),
        None => false,
    }
}

/// Draws `text` in `color` with its top-left corner at `(x, y)`, one glyph every
/// nine columns.
pub fn draw_text(frame: &mut Frame, x: u32, y: u32, text: &str, color: Rgba)
    requires
        old(frame).wf(),
        text@.len() > 0 ==> x + 9 * (text@.len() - 1) <= u32::MAX,
        forall|dx: int, dy: int|
            #[trigger] text_covers(text@, dx, dy) ==> x + dx < old(frame).width && y + dy < old(frame).height,
    ensures
        final(frame).wf(),
        same_shape(final(frame)@, old(frame)@),
        forall|qx: int, qy: int|
            0 <= qx < final(frame).width && 0 <= qy < final(frame).height ==> #[trigger] final(frame).at(qx, qy)
                == if text_covers(text@, qx - x, qy - y) {
                color
            } else {
                old(frame).at(qx, qy)
            },
{
    let ghost m = frame@;
    let fw = frame.width;
    let fh = frame.height;
    let n = text.unicode_len();
    let mut i: usize = 0;
    while i < n
        invariant
            frame.wf(),
            same_shape(frame@, m),
            fw == frame.width,
            fh == frame.height,
            model_wf(m),
            m.width == fw,
            m.height == fh,
            n == text@.len(),
            n > 0 ==> x + 9 * (n - 1) <= u32::MAX,
            forall|dx: int, dy: int| #[trigger] text_covers(text@, dx, dy) ==> x + dx < fw && y + dy < fh,
            i <= n,
            forall|qx: int, qy: int|
                0 <= qx < fw && 0 <= qy < fh ==> #[trigger] model_at(frame@, qx, qy) == if text_covers(
                    text@,
                    qx - x,
                    qy - y,
                ) && (qx - x) / 9 < i {
                    color
                } else {
                    model_at(m, qx, qy)
                },
        decreases n - i,
    {
        let ch = text.get_char(i);
        match glyph_rows(ch) {
            Some(rows) => {
                let gx = x + 9 * (i as u32);
                let ghost before = frame@;
                proof {
                    assert forall|dx: int, dy: int| #[trigger] glyph_covers(rows@, dx, dy) implies gx + dx < fw && y + dy
                        < fh by {
                        let d = 9 * i + dx;
                        assert(d / 9 == i && d % 9 == dx);
                        assert(text_covers(text@, d, dy));
                    }
                }
                draw_glyph(frame, gx, y, rows, color);
                proof {
                    assert forall|qx: int, qy: int| 0 <= qx < fw && 0 <= qy < fh implies #[trigger] model_at(
                        frame@,
                        qx,
                        qy,
                    ) == if text_covers(text@, qx - x, qy - y) && (qx - x) / 9 < i + 1 {
                        color
                    } else {
                        model_at(m, qx, qy)
                    } by {
                        assert(model_at(frame@, qx, qy) == frame.at(qx, qy));
                        assert(model_at(before, qx, qy) == if text_covers(text@, qx - x, qy - y) && (qx - x) / 9 < i {
                            color
                        } else {
                            model_at(m, qx, qy)
                        });
                        let d = qx - x;
                        if 0 <= d - 9 * i < 8 {
                            assert(d / 9 == i && d % 9 == d - 9 * i);
                        } else if d >= 0 && d / 9 == i {
                            assert(d % 9 == d - 9 * i);
                        }
                    }
                }
            },
            None => {
                proof {
                    assert forall|qx: int, qy: int| 0 <= qx < fw && 0 <= qy < fh implies #[trigger] model_at(
                        frame@,
                        qx,
                        qy,
                    ) == if text_covers(text@, qx - x, qy - y) && (qx - x) / 9 < i + 1 {
                        color
                    } else {
                        model_at(m, qx, qy)
                    } by {
                        let d = qx - x;
                        if d >= 0 && d / 9 == i {
                            assert(!text_covers(text@, d, qy - y));
                        }
                    }
                }
            },
        }
        i = i + 1;
    }
    assert forall|qx: int, qy: int| 0 <= qx < fw && 0 <= qy < fh implies #[trigger] frame.at(qx, qy) == if text_covers(
        text@,
        qx - x,
        qy - y,
    ) {
        color
    } else {
        old(frame).at(qx, qy)
    } by {
        assert(model_at(frame@, qx, qy) == frame.at(qx, qy));
    }
}

/// Color of a label strip.
pub open spec fn label_background() -> Rgba {
    rgba(48, 48, 48, 255)
}

/// Color of label text.
pub open spec fn label_ink() -> Rgba {
    rgba(220, 220, 220, 255)
}

/// The pixel at `(qx, qy)` after a label is drawn over `before`: the `w` by `h`
/// strip at `(x, y)` is filled, then the text is written from `(x + 4, y + 4)`.
pub open spec fn label_pixel(before: Rgba, x: int, y: int, w: int, h: int, text: Seq<char>, qx: int, qy: int) -> Rgba {
    if text_covers(text, qx - x - 4, qy - y - 4) {
        label_ink()
    } else if in_rect(x, y, w, h, qx, qy) {
        label_background()
    } else {
        before
    }
}

/// Draws a label: the `w` by `h` strip at `(x, y)` in dark gray, then `text` in
/// light gray from four pixels right of and below the strip's corner.
pub fn draw_label(frame: &mut Frame, x: u32, y: u32, w: u32, h: u32, text: &str)
    requires
        old(frame).wf(),
        x + w <= u32::MAX,
        y + h <= u32::MAX,
        w > 0 && h > 0 ==> x + w <= old(frame).width && y + h <= old(frame).height,
        x + 4 <= u32::MAX,
        y + 4 <= u32::MAX,
        text@.len() > 0 ==> x + 4 + 9 * (text@.len() - 1) <= u32::MAX,
        forall|dx: int, dy: int|
            #[trigger] text_covers(text@, dx, dy) ==> x + 4 + dx < old(frame).width && y + 4 + dy < old(frame).height,
    ensures
        final(frame).wf(),
        same_shape(final(frame)@, old(frame)@),
        forall|qx: int, qy: int|
            0 <= qx < final(frame).width && 0 <= qy < final(frame).height ==> #[trigger] final(frame).at(qx, qy)
                == label_pixel(old(frame).at(qx, qy), x as int, y as int, w as int, h as int, text@, qx, qy),
{
    let ghost m = frame@;
    fill_rect(frame, x, y, w, h, Rgba::new(48, 48, 48, 255));
    let ghost filled = frame@;
    draw_text(frame, x + 4, y + 4, text, Rgba::new(220, 220, 220, 255));
    assert forall|qx: int, qy: int| 0 <= qx < frame.width && 0 <= qy < frame.height implies #[trigger] frame.at(qx, qy)
        == label_pixel(old(frame).at(qx, qy), x as int, y as int, w as int, h as int, text@, qx, qy) by {
        assert(model_at(filled, qx, qy) == filled.pixels[qy * filled.width + qx]);
    }
}

/// Whether `text` drawn from column `x0` has every column index in `u32` and
/// every dot left of column `limit`.
pub open spec fn text_fits(text: Seq<char>, x0: int, limit: int) -> bool {
    &&& text.len() > 0 ==> x0 + 9 * (text.len() - 1) <= u32::MAX
    &&& forall|dx: int, dy: int| #[trigger] text_covers(text, dx, dy) ==> x0 + dx < limit
}

/// Whether `text` drawn from column `x0` stays left of column `limit`.
pub fn text_fits_within(text: &str, x0: u32, limit: u32) -> (fits: bool)
    ensures
        fits == text_fits(text@, x0 as int, limit as int),
{
    let n = text.unicode_len();
    if n > 0 && (n - 1) as u64 > 0xFFFF_FFFF {
        return false;
    }
    if n > 0 && x0 as u64 + 9 * ((n - 1) as u64) > 0xFFFF_FFFF {
        return false;
    }
    let mut i: usize = 0;
    while i < n
        invariant
            n == text@.len(),
            n > 0 ==> x0 + 9 * (n - 1) <= u32::MAX,
            i <= n,
            forall|dx: int, dy: int| #[trigger] text_covers(text@, dx, dy) && dx / 9 < i ==> x0 + dx < limit,
        decreases n - i,
    {
        let ch = text.get_char(i);
        match glyph_rows(ch) {
            Some(rows) => {
                let gx: u64 = x0 as u64 + 9 * (i as u64);
                let mut row: usize = 0;
                while row < 8
                    invariant
                        n == text@.len(),
                        i < n,
                        gx == x0 + 9 * i,
                        gx <= u32::MAX,
                        basic_glyph(text@[i as int]) == Some(rows@),
                        rows@.len() == 8,
                        row <= 8,
                        forall|dx: int, dy: int| #[trigger] text_covers(text@, dx, dy) && dx / 9 < i ==> x0 + dx < limit,
                        forall|col: int, dy: int| #[trigger] glyph_covers(rows@, col, dy) && dy < row ==> gx + col < limit,
                    decreases 8 - row,
                {
                    let bits = rows[row];
                    let mut col: u32 = 0;
                    while col < 8
                        invariant
                            n == text@.len(),
                            i < n,
                            gx == x0 + 9 * i,
                            gx <= u32::MAX,
                            basic_glyph(text@[i as int]) == Some(rows@),
                            rows@.len() == 8,
                            row < 8,
                            bits == rows@[row as int],
                            col <= 8,
                            forall|dx: int, dy: int| #[trigger] text_covers(text@, dx, dy) && dx / 9 < i ==> x0 + dx < limit,
                            forall|c: int, dy: int|
                                #[trigger] glyph_covers(rows@, c, dy) && (dy < row || (dy == row && c < col)) ==> gx + c < limit,
                        decreases 8 - col,
                    {
                        if bits & (1u8 << col) != 0 && gx + col as u64 >= limit as u64 {
                            proof {
                                let d = 9 * i + col;
                                assert(d / 9 == i && d % 9 == col);
                                assert(glyph_covers(rows@, col as int, row as int));
                                assert(text_covers(text@, d, row as int));
                            }
                            return false;
                        }
                        assert(glyph_covers(rows@, col as int, row as int) ==> gx + col < limit);
                        col = col + 1;
                    }
                    row = row + 1;
                }
                assert forall|dx: int, dy: int| #[trigger] text_covers(text@, dx, dy) && dx / 9 < i + 1 implies x0 + dx
                    < limit by {
                    if dx / 9 == i {
                        assert(glyph_covers(rows@, dx % 9, dy));
                        assert(dx == 9 * i + dx % 9);
                    }
                }
            },
            None => {
                assert forall|dx: int, dy: int| #[trigger] text_covers(text@, dx, dy) && dx / 9 < i + 1 implies x0 + dx
                    < limit by {
                    if dx / 9 == i {
                        assert(basic_glyph(text@[dx / 9]) is None);
                    }
                }
            },
        }
        i = i + 1;
    }
    true
}

/// Height of the label strip under each thumbnail.
pub const LABEL_HEIGHT: u32 = 16;

/// Sizes of a contact sheet: its grid of cells and its extent in pixels.
pub struct SheetLayout {
    pub cols: u32,
    pub rows: u32,
    pub cell_width: u32,
    pub cell_height: u32,
    pub width: u32,
    pub height: u32,
}

/// Columns of the grid: the requested count, at least one.
pub open spec fn grid_cols(cols: u32) -> int {
    if cols < 1 {
        1
    } else {
        cols as int
    }
}

/// Rows needed for `count` cells in `grid_cols(cols)` columns.
pub open spec fn grid_rows(count: u32, cols: u32) -> int {
    (count + grid_cols(cols) - 1) / grid_cols(cols)
}

/// Whether the sheet for these sizes has 32-bit dimensions and no more than
/// `u32::MAX` pixels.
pub open spec fn layout_fits(count: u32, cols: u32, thumb_width: u32, thumb_height: u32) -> bool {
    let c = grid_cols(cols);
    let r = grid_rows(count, cols);
    let ch = thumb_height + LABEL_HEIGHT;
    &&& ch <= u32::MAX
    &&& thumb_width * c <= u32::MAX
    &&& ch * r <= u32::MAX
    &&& (thumb_width * c) * (ch * r) <= u32::MAX
}

/// The layout for `count` thumbnails of `thumb_width` by `thumb_height` pixels in
/// `cols` columns, each cell holding a thumbnail over a label strip.
pub open spec fn layout_of(count: u32, cols: u32, thumb_width: u32, thumb_height: u32) -> SheetLayout {
    let c = grid_cols(cols);
    let r = grid_rows(count, cols);
    let ch = thumb_height + LABEL_HEIGHT;
    SheetLayout {
        cols: c as u32,
        rows: r as u32,
        cell_width: thumb_width,
        cell_height: ch as u32,
        width: (thumb_width * c) as u32,
        height: (ch * r) as u32,
    }
}

/// A layout whose sheet is its grid of cells and fits in a frame.
pub open spec fn layout_valid(l: SheetLayout) -> bool {
    &&& l.cols >= 1
    &&& l.width == l.cols * l.cell_width
    &&& l.height == l.rows * l.cell_height
    &&& l.width * l.height <= u32::MAX
}

/// The layout of a contact sheet, or `None` when the sheet would not fit in
/// 32-bit sizes.
pub fn sheet_layout(count: u32, cols: u32, thumb_width: u32, thumb_height: u32) -> (l: Option<SheetLayout>)
    ensures
        l == if layout_fits(count, cols, thumb_width, thumb_height) {
            Some(layout_of(count, cols, thumb_width, thumb_height))
        } else {
            None::<SheetLayout>
        },
        l matches Some(lay) ==> layout_valid(lay) && lay.cell_height == thumb_height + LABEL_HEIGHT
            && count <= lay.cols * lay.rows,
{
    let c: u64 = if cols < 1 { 1 } else { cols as u64 };
    let r: u64 = (count as u64 + c - 1) / c;
    assert(r <= count as u64 && count <= c * r) by (nonlinear_arith)
        requires
            c >= 1,
            r as int == (count as int + c as int - 1) / (c as int),
    ;
    let ch: u64 = thumb_height as u64 + 16;
    if ch > 0xFFFF_FFFF {
        return None;
    }
    assert(thumb_width as u64 * c <= 0xFFFF_FFFF * 0xFFFF_FFFF) by (nonlinear_arith)
        requires
            c <= 0xFFFF_FFFF,
    ;
    let w: u64 = thumb_width as u64 * c;
    if w > 0xFFFF_FFFF {
        return None;
    }
    assert(ch * r <= 0xFFFF_FFFF * 0xFFFF_FFFF) by (nonlinear_arith)
        requires
            ch <= 0xFFFF_FFFF,
            r <= 0xFFFF_FFFF,
    ;
    let h: u64 = ch * r;
    if h > 0xFFFF_FFFF {
        return None;
    }
    assert(w * h <= 0xFFFF_FFFF * 0xFFFF_FFFF) by (nonlinear_arith)
        requires
            w <= 0xFFFF_FFFF,
            h <= 0xFFFF_FFFF,
    ;
    if w * h > 0xFFFF_FFFF {
        return None;
    }
    let lay = SheetLayout {
        cols: c as u32,
        rows: r as u32,
        cell_width: thumb_width,
        cell_height: ch as u32,
        width: w as u32,
        height: h as u32,
    };
    assert(lay.cols == c && lay.rows == r && lay.width == w && lay.height == h);
    assert(lay.width == lay.cols * lay.cell_width) by (nonlinear_arith)
        requires
            lay.width == w,
            w == thumb_width * c,
            lay.cols == c,
            lay.cell_width == thumb_width,
    ;
    assert(lay.height == lay.rows * lay.cell_height) by (nonlinear_arith)
        requires
            lay.height == h,
            h == ch * r,
            lay.rows == r,
            lay.cell_height == ch,
    ;
    assert(count <= lay.cols * lay.rows);
    Some(lay)
}

/// Left edge of cell `i`: cells fill the grid row by row.
pub open spec fn cell_x(l: SheetLayout, i: int) -> int {
    (i % (l.cols as int)) * l.cell_width
}

/// Top edge of cell `i`.
pub open spec fn cell_y(l: SheetLayout, i: int) -> int {
    (i / (l.cols as int)) * l.cell_height
}

/// Cell `i` of the grid lies within the sheet.
pub proof fn lemma_cell_in_sheet(l: SheetLayout, i: int)
    requires
        layout_valid(l),
        0 <= i < l.cols * l.rows,
    ensures
        0 <= cell_x(l, i),
        cell_x(l, i) + l.cell_width <= l.width,
        0 <= cell_y(l, i),
        cell_y(l, i) + l.cell_height <= l.height,
{
    let c = l.cols as int;
    let col = i % c;
    let row = i / c;
    assert(0 <= col < c && 0 <= row < l.rows) by (nonlinear_arith)
        requires
            c >= 1,
            0 <= i < c * l.rows,
            col == i % c,
            row == i / c,
    ;
    assert(0 <= col * l.cell_width && col * l.cell_width + l.cell_width <= c * l.cell_width) by (nonlinear_arith)
        requires
            0 <= col < c,
    ;
    assert(0 <= row * l.cell_height && row * l.cell_height + l.cell_height <= l.rows * l.cell_height) by (nonlinear_arith)
        requires
            0 <= row < l.rows,
    ;
}

/// Top-left corner of cell `i` of the grid.
pub fn cell_origin(layout: &SheetLayout, i: u32) -> (o: (u32, u32))
    requires
        layout_valid(*layout),
        i < layout.cols * layout.rows,
    ensures
        o.0 == cell_x(*layout, i as int),
        o.1 == cell_y(*layout, i as int),
        o.0 + layout.cell_width <= layout.width,
        o.1 + layout.cell_height <= layout.height,
{
    proof {
        lemma_cell_in_sheet(*layout, i as int);
    }
    let col = i % layout.cols;
    let row = i / layout.cols;
    (col * layout.cell_width, row * layout.cell_height)
}

/// Background of a contact sheet.
pub open spec fn sheet_background() -> Rgba {
    rgba(32, 32, 32, 255)
}

/// The label naming frame `n`.
pub open spec fn frame_label(n: u32) -> Seq<char> {
    "f:"@ + decimal(n as nat)
}

/// The labels of the numbered frames, in order.
pub open spec fn frame_labels(numbers: Seq<u32>) -> Seq<Seq<char>> {
    numbers.map_values(|n: u32| frame_label(n))
}

/// The pixel at `(qx, qy)` of a sheet once the labels of cells `0..k` are
/// drawn, one after another, over the background; the label of cell `i` takes
/// the strip under its thumbnail area.
pub open spec fn sheet_pixel(l: SheetLayout, labels: Seq<Seq<char>>, thumb_height: int, k: nat, qx: int, qy: int) -> Rgba
    decreases k,
{
    if k == 0 {
        sheet_background()
    } else {
        let i = k - 1;
        label_pixel(
            sheet_pixel(l, labels, thumb_height, (k - 1) as nat, qx, qy),
            cell_x(l, i),
            cell_y(l, i) + thumb_height,
            l.cell_width as int,
            LABEL_HEIGHT as int,
            labels[i],
            qx,
            qy,
        )
    }
}

/// The label of cell `i`, written from four columns right of the cell's left
/// edge, stays on the sheet.
pub open spec fn label_fits(l: SheetLayout, text: Seq<char>, i: int) -> bool {
    cell_x(l, i) + 4 <= u32::MAX && text_fits(text, cell_x(l, i) + 4, l.width as int)
}

/// Every label stays on the sheet.
pub open spec fn labels_fit(l: SheetLayout, labels: Seq<Seq<char>>) -> bool {
    forall|i: int| 0 <= i < labels.len() ==> #[trigger] label_fits(l, labels[i], i)
}

/// The sheet, in the background color, with the label of each numbered frame
/// drawn under its cell's thumbnail area; `None` when a label would run off
/// the sheet.
pub fn label_sheet(frame_numbers: &Vec<u32>, layout: &SheetLayout, thumb_height: u32) -> (sheet: Option<Frame>)
    requires
        layout_valid(*layout),
        layout.cell_height == thumb_height + LABEL_HEIGHT,
        frame_numbers@.len() <= layout.cols * layout.rows,
        frame_numbers@.len() <= u32::MAX,
    ensures
        match sheet {
            None => !labels_fit(*layout, frame_labels(frame_numbers@)),
            Some(f) => {
                &&& labels_fit(*layout, frame_labels(frame_numbers@))
                &&& f.wf()
                &&& f.width == layout.width
                &&& f.height == layout.height
                &&& forall|qx: int, qy: int|
                    0 <= qx < f.width && 0 <= qy < f.height ==> #[trigger] f.at(qx, qy) == sheet_pixel(
                        *layout,
                        frame_labels(frame_numbers@),
                        thumb_height as int,
                        frame_numbers@.len(),
                        qx,
                        qy,
                    )
            },
        },
{
    let ghost labels = frame_labels(frame_numbers@);
    let w = layout.width;
    let h = layout.height;
    let mut frame = Frame::new(w, h);
    frame.fill_solid(Rgba::new(32, 32, 32, 255));
    proof {
        assert forall|qx: int, qy: int| 0 <= qx < w && 0 <= qy < h implies #[trigger] model_at(frame@, qx, qy)
            == sheet_pixel(*layout, labels, thumb_height as int, 0, qx, qy) by {
            crate::frame::lemma_index_in_range(w, h, qx as u32, qy as u32);
        }
    }
    let n = frame_numbers.len();
    let mut i: usize = 0;
    while i < n
        invariant
            layout_valid(*layout),
            layout.cell_height == thumb_height + LABEL_HEIGHT,
            n == frame_numbers@.len(),
            n <= layout.cols * layout.rows,
            n <= u32::MAX,
            labels == frame_labels(frame_numbers@),
            w == layout.width,
            h == layout.height,
            frame.wf(),
            frame.width == w,
            frame.height == h,
            i <= n,
            forall|j: int| 0 <= j < i ==> #[trigger] label_fits(*layout, labels[j], j),
            forall|qx: int, qy: int|
                0 <= qx < w && 0 <= qy < h ==> #[trigger] model_at(frame@, qx, qy) == sheet_pixel(
                    *layout,
                    labels,
                    thumb_height as int,
                    i as nat,
                    qx,
                    qy,
                ),
        decreases n - i,
    {
        let (x, y0) = cell_origin(layout, i as u32);
        let y = y0 + thumb_height;
        let label = frame_number_label(frame_numbers[i]);
        assert(label@ == labels[i as int]);
        if x > 0xFFFF_FFFF - 4 || !text_fits_within(label.as_str(), x + 4, w) {
            assert(!label_fits(*layout, labels[i as int], i as int));
            return None;
        }
        let ghost before = frame@;
        draw_label(&mut frame, x, y, layout.cell_width, LABEL_HEIGHT, label.as_str());
        proof {
            assert forall|qx: int, qy: int| 0 <= qx < w && 0 <= qy < h implies #[trigger] model_at(frame@, qx, qy)
                == sheet_pixel(*layout, labels, thumb_height as int, (i + 1) as nat, qx, qy) by {
                assert(model_at(frame@, qx, qy) == frame.at(qx, qy));
                assert(model_at(before, qx, qy) == sheet_pixel(*layout, labels, thumb_height as int, i as nat, qx, qy));
            }
        }
        i = i + 1;
    }
    assert forall|qx: int, qy: int| 0 <= qx < w && 0 <= qy < h implies #[trigger] frame.at(qx, qy) == sheet_pixel(
        *layout,
        labels,
        thumb_height as int,
        n as nat,
        qx,
        qy,
    ) by {
        assert(model_at(frame@, qx, qy) == frame.at(qx, qy));
    }
    Some(frame)
}

/// Rows `[row * cell_height, (row + 1) * cell_height)` of two different grid
/// rows do not meet.
proof fn lemma_rows_apart(ch: int, r1: int, r2: int, q: int)
    requires
        ch >= 0,
        r1 >= 0,
        r2 >= 0,
        r1 != r2,
        r1 * ch <= q < r1 * ch + ch,
    ensures
        !(r2 * ch <= q < r2 * ch + ch),
{
    if r1 < r2 {
        assert(r1 * ch + ch <= r2 * ch) by (nonlinear_arith)
            requires
                r1 < r2,
                ch >= 0,
        ;
    } else {
        assert(r2 * ch + ch <= r1 * ch) by (nonlinear_arith)
            requires
                r2 < r1,
                ch >= 0,
        ;
    }
}

/// The labels leave the thumbnail area of every cell, the first `thumb_height`
/// rows of each grid row, in the background color.
pub proof fn lemma_thumbnail_area_is_background(
    l: SheetLayout,
    labels: Seq<Seq<char>>,
    thumb_height: int,
    k: nat,
    row: int,
    qx: int,
    qy: int,
)
    requires
        layout_valid(l),
        l.cell_height == thumb_height + LABEL_HEIGHT,
        thumb_height >= 0,
        row >= 0,
        row * l.cell_height <= qy < row * l.cell_height + thumb_height,
    ensures
        sheet_pixel(l, labels, thumb_height, k, qx, qy) == sheet_background(),
    decreases k,
{
    if k > 0 {
        lemma_thumbnail_area_is_background(l, labels, thumb_height, (k - 1) as nat, row, qx, qy);
        let i = k - 1;
        let ri = i / (l.cols as int);
        let ch = l.cell_height as int;
        assert(ri >= 0);
        if ri != row {
            lemma_rows_apart(ch, row, ri, qy);
        }
        assert(cell_y(l, i) == ri * ch);
    }
}

/// Labels drawn after the label of cell `j` leave its strip as that label left it.
proof fn lemma_later_labels_keep_strip(
    l: SheetLayout,
    labels: Seq<Seq<char>>,
    thumb_height: int,
    j: int,
    k: nat,
    qx: int,
    qy: int,
)
    requires
        layout_valid(l),
        l.cell_height == thumb_height + LABEL_HEIGHT,
        thumb_height >= 0,
        0 <= j < k,
        in_rect(cell_x(l, j), cell_y(l, j) + thumb_height, l.cell_width as int, LABEL_HEIGHT as int, qx, qy),
    ensures
        sheet_pixel(l, labels, thumb_height, k, qx, qy) == sheet_pixel(l, labels, thumb_height, (j + 1) as nat, qx, qy),
    decreases k,
{
    if k > j + 1 {
        lemma_later_labels_keep_strip(l, labels, thumb_height, j, (k - 1) as nat, qx, qy);
        let i = k - 1;
        let c = l.cols as int;
        let ch = l.cell_height as int;
        let ri = i / c;
        let rj = j / c;
        vstd::arithmetic::div_mod::lemma_fundamental_div_mod(i, c);
        vstd::arithmetic::div_mod::lemma_fundamental_div_mod(j, c);
        assert(ri >= 0 && rj >= 0);
        assert(cell_y(l, i) == ri * ch);
        assert(cell_y(l, j) == rj * ch);
        if ri != rj {
            lemma_rows_apart(ch, rj, ri, qy);
        } else {
            assert(i % c > j % c) by (nonlinear_arith)
                requires
                    i == c * ri + i % c,
                    j == c * rj + j % c,
                    ri == rj,
                    i > j,
            ;
            assert(cell_x(l, j) + l.cell_width <= cell_x(l, i)) by (nonlinear_arith)
                requires
                    cell_x(l, i) == (i % c) * l.cell_width,
                    cell_x(l, j) == (j % c) * l.cell_width,
                    i % c > j % c,
            ;
        }
    }
}

/// On a finished sheet, the strip under the thumbnail area of each cell shows
/// exactly that cell's label: its text in the label color on the strip color.
pub proof fn lemma_strip_shows_own_label(
    l: SheetLayout,
    labels: Seq<Seq<char>>,
    thumb_height: int,
    j: int,
    qx: int,
    qy: int,
)
    requires
        layout_valid(l),
        l.cell_height == thumb_height + LABEL_HEIGHT,
        thumb_height >= 0,
        0 <= j < labels.len(),
        in_rect(cell_x(l, j), cell_y(l, j) + thumb_height, l.cell_width as int, LABEL_HEIGHT as int, qx, qy),
    ensures
        sheet_pixel(l, labels, thumb_height, labels.len(), qx, qy) == if text_covers(
            labels[j],
            qx - cell_x(l, j) - 4,
            qy - cell_y(l, j) - thumb_height - 4,
        ) {
            label_ink()
        } else {
            label_background()
        },
{
    lemma_later_labels_keep_strip(l, labels, thumb_height, j, labels.len(), qx, qy);
}

} // verus!
