//! Contact sheets assembled from encoded frame images: each frame is decoded,
//! scaled to a thumbnail with a triangle filter and laid over its cell of the
//! labelled sheet.

use vstd::prelude::*;
use crate::color::{Rgba, rgba};
use crate::frame::{Frame, FrameModel, lemma_index_position, lemma_raw_bytes_len, raw_bytes};
use crate::sheet::{
    LABEL_HEIGHT, SheetLayout, cell_origin, cell_x, cell_y, frame_labels, label_sheet, labels_fit, layout_valid,
    lemma_cell_in_sheet, sheet_pixel,
};

verus! {

/// Width, height and RGBA bytes of the image the decoder reads from an encoded
/// file, or `None` when it reports an error.
pub uninterp spec fn decoded_rgba(file: Seq<u8>) -> Option<(u32, u32, Seq<u8>)>;

/// RGBA bytes of a `width` by `height` image scaled to `new_width` by
/// `new_height` with the triangle filter.
pub uninterp spec fn triangle_resized(width: u32, height: u32, rgba: Seq<u8>, new_width: u32, new_height: u32) -> Seq<u8>;

/// RGBA bytes of the bottom image after the top image is blended over it with
/// its top-left corner at `(x, y)`.
pub uninterp spec fn overlaid(
    bottom_width: u32,
    bottom_height: u32,
    bottom: Seq<u8>,
    top_width: u32,
    top_height: u32,
    top: Seq<u8>,
    x: u32,
    y: u32,
) -> Seq<u8>;

/// Whether pixel `p` of a `width`-wide image lies in the `w` by `h` rectangle
/// with top-left corner `(x, y)`.
pub open spec fn pixel_in_rect(p: int, width: u32, x: u32, y: u32, w: u32, h: u32) -> bool {
    let px = p % (width as int);
    let py = p / (width as int);
    x <= px < x + w && y <= py < y + h
}

/// Decodes an encoded image file (`image::load_from_memory`, then
/// `to_rgba8`). Claimed: the result is a function of the bytes
/// (`decoded_rgba`); the buffer holds four bytes per pixel; and a decoded
/// image has at most 2^29 pixels, since the reader's default limit caps the
/// decoded buffer at 512 MiB and every color type takes at least a byte per
/// pixel.
#[verifier::external_body]
fn decode_rgba(file: &[u8]) -> (r: Result<(u32, u32, Vec<u8>), image::ImageError>)
    ensures
        match r {
            Ok((w, h, data)) => {
                &&& decoded_rgba(file@) == Some((w, h, data@))
                &&& data@.len() == 4 * w * h
                &&& w * h <= 0x2000_0000
            },
            Err(_) => decoded_rgba(file@) is None,
        },
{
    let image = image::load_from_memory(file)?.to_rgba8();
    Ok((image.width(), image.height(), image.into_raw()))
}

/// Scales RGBA bytes with `image::imageops::resize` and
/// `FilterType::Triangle`. Claimed: the result is a function of the arguments
/// (`triangle_resized`) and holds four bytes per new pixel. The bounds keep the
/// single-precision intermediate image and the result within what a `Vec` can
/// allocate.
#[verifier::external_body]
fn resize_rgba(width: u32, height: u32, rgba: Vec<u8>, new_width: u32, new_height: u32) -> (r: Vec<u8>)
    requires
        rgba@.len() == 4 * width * height,
        16 * width * new_height <= isize::MAX,
        4 * new_width * new_height <= isize::MAX,
    ensures
        r@ == triangle_resized(width, height, rgba@, new_width, new_height),
        r@.len() == 4 * new_width * new_height,
{
    let image = image::RgbaImage::from_raw(width, height, rgba).expect("buffer holds every pixel");
    image::imageops::resize(&image, new_width, new_height, image::imageops::FilterType::Triangle).into_raw()
}

/// Blends the top RGBA image over the bottom one at `(x, y)` with
/// `image::imageops::overlay`. Claimed: the new bottom bytes are a function of
/// the arguments (`overlaid`), keep their length, and only pixels inside the
/// top image's rectangle change.
#[verifier::external_body]
fn overlay_rgba(
    bottom: &mut Vec<u8>,
    bottom_width: u32,
    bottom_height: u32,
    top: &Vec<u8>,
    top_width: u32,
    top_height: u32,
    x: u32,
    y: u32,
)
    requires
        old(bottom)@.len() == 4 * bottom_width * bottom_height,
        top@.len() == 4 * top_width * top_height,
    ensures
        final(bottom)@ == overlaid(bottom_width, bottom_height, old(bottom)@, top_width, top_height, top@, x, y),
        final(bottom)@.len() == old(bottom)@.len(),
        forall|j: int|
            0 <= j < old(bottom)@.len() && !pixel_in_rect(j / 4, bottom_width, x, y, top_width, top_height)
                ==> #[trigger] final(bottom)@[j] == old(bottom)@[j],
{
    let base = std::mem::take(bottom);
    let mut sheet = image::RgbaImage::from_raw(bottom_width, bottom_height, base).expect("buffer holds every pixel");
    let thumb = image::RgbaImage::from_raw(top_width, top_height, top.clone()).expect("buffer holds every pixel");
    image::imageops::overlay(&mut sheet, &thumb, x as i64, y as i64);
    *bottom = sheet.into_raw();
}

/// Four bytes per pixel of a `width` by `height` image.
proof fn lemma_four_per_pixel(width: u32, height: u32)
    ensures
        4 * width * height == 4 * (width * height),
{
    assert(4 * width * height == 4 * (width * height)) by (nonlinear_arith);
}

/// The pixels that RGBA bytes describe, four bytes each.
pub open spec fn pixels_of(bytes: Seq<u8>) -> Seq<Rgba> {
    Seq::new(bytes.len() / 4, |i: int| rgba(bytes[4 * i], bytes[4 * i + 1], bytes[4 * i + 2], bytes[4 * i + 3]))
}

/// The bytes of pixel `i` are its four channels.
pub proof fn lemma_raw_bytes_index(pixels: Seq<Rgba>)
    ensures
        raw_bytes(pixels).len() == 4 * pixels.len(),
        forall|i: int|
            0 <= i < pixels.len() ==> {
                &&& #[trigger] raw_bytes(pixels)[4 * i] == pixels[i].r
                &&& raw_bytes(pixels)[4 * i + 1] == pixels[i].g
                &&& raw_bytes(pixels)[4 * i + 2] == pixels[i].b
                &&& raw_bytes(pixels)[4 * i + 3] == pixels[i].a
            },
    decreases pixels.len(),
{
    lemma_raw_bytes_len(pixels);
    if pixels.len() > 0 {
        let init = pixels.drop_last();
        lemma_raw_bytes_index(init);
        assert forall|i: int| 0 <= i < pixels.len() implies {
            &&& #[trigger] raw_bytes(pixels)[4 * i] == pixels[i].r
            &&& raw_bytes(pixels)[4 * i + 1] == pixels[i].g
            &&& raw_bytes(pixels)[4 * i + 2] == pixels[i].b
            &&& raw_bytes(pixels)[4 * i + 3] == pixels[i].a
        } by {
            if i < pixels.len() - 1 {
                assert(pixels[i] == init[i]);
                assert(raw_bytes(init)[4 * i] == init[i].r);
            }
        }
    }
}

/// Reading the bytes of a pixel sequence back gives the same pixels.
pub proof fn lemma_pixels_of_raw_bytes(pixels: Seq<Rgba>)
    ensures
        pixels_of(raw_bytes(pixels)) == pixels,
{
    lemma_raw_bytes_index(pixels);
    assert forall|i: int| 0 <= i < pixels.len() implies #[trigger] pixels_of(raw_bytes(pixels))[i] == pixels[i] by {
        assert(raw_bytes(pixels)[4 * i] == pixels[i].r);
    }
    assert(pixels_of(raw_bytes(pixels)) =~= pixels);
}

/// The frame whose pixels RGBA bytes describe.
pub open spec fn frame_of(width: u32, height: u32, bytes: Seq<u8>) -> FrameModel {
    FrameModel { width, height, pixels: pixels_of(bytes) }
}

impl Frame {
    /// The `width` by `height` frame whose pixels are the RGBA bytes, four per pixel.
    pub fn from_raw_rgba(width: u32, height: u32, bytes: &Vec<u8>) -> (f: Frame)
        requires
            bytes@.len() == 4 * width * height,
            width * height <= u32::MAX,
        ensures
            f.wf(),
            f@ == frame_of(width, height, bytes@),
    {
        proof {
            lemma_four_per_pixel(width, height);
        }
        let n = bytes.len() / 4;
        let mut pixels: Vec<Rgba> = Vec::with_capacity(n);
        let mut i: usize = 0;
        while i < n
            invariant
                n == bytes@.len() / 4,
                bytes@.len() == 4 * n,
                4 * n <= usize::MAX,
                i <= n,
                pixels@ == pixels_of(bytes@).take(i as int),
            decreases n - i,
        {
            assert(4 * i + 3 < 4 * n);
            let p = Rgba::new(bytes[4 * i], bytes[4 * i + 1], bytes[4 * i + 2], bytes[4 * i + 3]);
            pixels.push(p);
            i = i + 1;
            assert(pixels@ =~= pixels_of(bytes@).take(i as int));
        }
        assert(pixels@ =~= pixels_of(bytes@));
        Frame { width, height, pixels }
    }
}

/// The image decoded from an encoded file, as a frame.
pub open spec fn decoded_image(file: Seq<u8>) -> Option<FrameModel> {
    match decoded_rgba(file) {
        Some((w, h, data)) => Some(frame_of(w, h, data)),
        None => None,
    }
}

/// Decodes an encoded image file into a frame.
pub fn decode_image(file: &[u8]) -> (r: Result<Frame, image::ImageError>)
    ensures
        match r {
            Ok(f) => f.wf() && decoded_image(file@) == Some(f@) && f.width * f.height <= 0x2000_0000,
            Err(_) => decoded_image(file@) is None,
        },
{
    let (w, h, data) = decode_rgba(file)?;
    Ok(Frame::from_raw_rgba(w, h, &data))
}

/// A frame scaled to `width` by `height` with the triangle filter.
pub open spec fn resized_frame(f: FrameModel, width: u32, height: u32) -> FrameModel {
    frame_of(width, height, triangle_resized(f.width, f.height, raw_bytes(f.pixels), width, height))
}

/// Scales a frame to `width` by `height` with the triangle filter.
pub fn resize_triangle(src: &Frame, width: u32, height: u32) -> (r: Frame)
    requires
        src.wf(),
        4 * src.width * src.height <= usize::MAX,
        width * height <= u32::MAX,
        16 * src.width * height <= isize::MAX,
        4 * width * height <= isize::MAX,
    ensures
        r.wf(),
        r.width == width,
        r.height == height,
        r@ == resized_frame(src@, width, height),
{
    proof {
        lemma_raw_bytes_len(src.pixels@);
        lemma_four_per_pixel(src.width, src.height);
    }
    let bytes = src.as_raw_rgba();
    let scaled = resize_rgba(src.width, src.height, bytes, width, height);
    Frame::from_raw_rgba(width, height, &scaled)
}

/// The bottom frame after the top frame is blended over it at `(x, y)`.
pub open spec fn overlaid_frame(bottom: FrameModel, top: FrameModel, x: u32, y: u32) -> FrameModel {
    frame_of(
        bottom.width,
        bottom.height,
        overlaid(bottom.width, bottom.height, raw_bytes(bottom.pixels), top.width, top.height, raw_bytes(top.pixels), x, y),
    )
}

/// Blends `top` over `bottom` with its top-left corner at `(x, y)`; pixels
/// outside the top frame's rectangle keep their color.
pub fn overlay_at(bottom: &mut Frame, top: &Frame, x: u32, y: u32)
    requires
        old(bottom).wf(),
        top.wf(),
        4 * old(bottom).width * old(bottom).height <= usize::MAX,
        4 * top.width * top.height <= usize::MAX,
    ensures
        final(bottom).wf(),
        final(bottom)@ == overlaid_frame(old(bottom)@, top@, x, y),
        forall|p: int|
            0 <= p < final(bottom).pixels@.len() && !pixel_in_rect(p, final(bottom).width, x, y, top.width, top.height)
                ==> #[trigger] final(bottom).pixels@[p] == old(bottom).pixels@[p],
{
    let ghost before = bottom@;
    proof {
        lemma_raw_bytes_index(bottom.pixels@);
        lemma_raw_bytes_len(top.pixels@);
        lemma_four_per_pixel(bottom.width, bottom.height);
        lemma_four_per_pixel(top.width, top.height);
    }
    let mut bytes = bottom.as_raw_rgba();
    let top_bytes = top.as_raw_rgba();
    let ghost old_bytes = bytes@;
    overlay_rgba(&mut bytes, bottom.width, bottom.height, &top_bytes, top.width, top.height, x, y);
    let w = bottom.width;
    let h = bottom.height;
    *bottom = Frame::from_raw_rgba(w, h, &bytes);
    assert forall|p: int|
        0 <= p < bottom.pixels@.len() && !pixel_in_rect(p, bottom.width, x, y, top.width, top.height)
            implies #[trigger] bottom.pixels@[p] == before.pixels[p] by {
        assert((4 * p) / 4 == p);
        assert((4 * p + 1) / 4 == p);
        assert((4 * p + 2) / 4 == p);
        assert((4 * p + 3) / 4 == p);
        assert(bytes@[4 * p] == old_bytes[4 * p]);
        assert(bytes@[4 * p + 1] == old_bytes[4 * p + 1]);
        assert(bytes@[4 * p + 2] == old_bytes[4 * p + 2]);
        assert(bytes@[4 * p + 3] == old_bytes[4 * p + 3]);
        assert(old_bytes[4 * p] == before.pixels[p].r);
    }
}

/// The labelled sheet that `label_sheet` draws, as a frame: every pixel as
/// `sheet_pixel` gives it once all labels are drawn.
pub open spec fn labelled_sheet(l: SheetLayout, labels: Seq<Seq<char>>, thumb_height: int) -> FrameModel {
    FrameModel {
        width: l.width,
        height: l.height,
        pixels: Seq::new(
            (l.width * l.height) as nat,
            |p: int| sheet_pixel(l, labels, thumb_height, labels.len(), p % (l.width as int), p / (l.width as int)),
        ),
    }
}

/// The thumbnail of an encoded frame: the decoded image scaled to
/// `thumb_width` by `thumb_height`.
pub open spec fn thumbnail(file: Seq<u8>, thumb_width: u32, thumb_height: u32) -> FrameModel {
    match decoded_image(file) {
        Some(m) => resized_frame(m, thumb_width, thumb_height),
        None => frame_of(thumb_width, thumb_height, Seq::empty()),
    }
}

/// The contents of each encoded file.
pub open spec fn file_views(files: Seq<Vec<u8>>) -> Seq<Seq<u8>> {
    files.map_values(|f: Vec<u8>| f@)
}

/// The sheet after the thumbnails of files `0..k` are laid, in order, at the
/// top-left corners of their cells.
pub open spec fn with_thumbnails(
    base: FrameModel,
    l: SheetLayout,
    files: Seq<Seq<u8>>,
    thumb_width: u32,
    thumb_height: u32,
    k: nat,
) -> FrameModel
    decreases k,
{
    if k == 0 {
        base
    } else {
        let i = k - 1;
        overlaid_frame(
            with_thumbnails(base, l, files, thumb_width, thumb_height, (k - 1) as nat),
            thumbnail(files[i], thumb_width, thumb_height),
            cell_x(l, i) as u32,
            cell_y(l, i) as u32,
        )
    }
}

/// A decoded image of `source_width` columns can be scaled to `thumb_width` by
/// `thumb_height` within what a `Vec` can allocate.
pub open spec fn resample_fits(source_width: u32, thumb_width: u32, thumb_height: u32) -> bool {
    16 * source_width * thumb_height <= isize::MAX && 4 * thumb_width * thumb_height <= isize::MAX
}

/// The encoded frame decodes to an image that can be scaled to a thumbnail.
pub open spec fn frame_usable(file: Seq<u8>, thumb_width: u32, thumb_height: u32) -> bool {
    match decoded_image(file) {
        Some(m) => resample_fits(m.width, thumb_width, thumb_height),
        None => false,
    }
}

/// Frame `j` is the first one that cannot be used.
pub open spec fn first_unusable(files: Seq<Seq<u8>>, thumb_width: u32, thumb_height: u32, j: int) -> bool {
    &&& !frame_usable(files[j], thumb_width, thumb_height)
    &&& forall|i: int| 0 <= i < j ==> #[trigger] frame_usable(files[i], thumb_width, thumb_height)
}

/// Pixel `p` of the sheet lies under the thumbnail of one of the first `k` cells.
pub open spec fn under_thumbnail(l: SheetLayout, thumb_height: u32, k: int, p: int) -> bool {
    exists|c: int| 0 <= c < k && #[trigger] pixel_in_rect(p, l.width, cell_x(l, c) as u32, cell_y(l, c) as u32, l.cell_width, thumb_height)
}

/// A pixel in the label strip of its cell row, the last `LABEL_HEIGHT` rows
/// of each cell, lies under no thumbnail, so the finished contact sheet shows
/// the labels as `label_sheet` drew them.
pub proof fn lemma_label_strip_under_no_thumbnail(l: SheetLayout, thumb_height: u32, k: int, p: int)
    requires
        layout_valid(l),
        l.cell_height == thumb_height + LABEL_HEIGHT,
        0 <= k <= l.cols * l.rows,
        0 <= p < l.width * l.height,
        (p / (l.width as int)) % (l.cell_height as int) >= thumb_height,
    ensures
        !under_thumbnail(l, thumb_height, k, p),
{
    if under_thumbnail(l, thumb_height, k, p) {
        let c = choose|c: int|
            0 <= c < k && #[trigger] pixel_in_rect(p, l.width, cell_x(l, c) as u32, cell_y(l, c) as u32, l.cell_width, thumb_height);
        lemma_cell_in_sheet(l, c);
        let qy = p / (l.width as int);
        let ch = l.cell_height as int;
        let r = c / (l.cols as int);
        assert(cell_y(l, c) == r * ch);
        assert(r * ch <= qy < r * ch + thumb_height);
        assert(r >= 0) by (nonlinear_arith)
            requires
                c >= 0,
                l.cols >= 1,
                r == c / (l.cols as int),
        ;
        vstd::arithmetic::div_mod::lemma_fundamental_div_mod_converse(qy, ch, r, qy - r * ch);
        assert(false);
    }
}

fn resample_fits_exec(source_width: u32, thumb_width: u32, thumb_height: u32) -> (ok: bool)
    ensures
        ok == resample_fits(source_width, thumb_width, thumb_height),
{
    let limit = isize::MAX as u128;
    let w = source_width as u128;
    let tw = thumb_width as u128;
    let th = thumb_height as u128;
    assert(16 * w * th <= 16 * 0xFFFF_FFFFu128 * 0xFFFF_FFFFu128) by (nonlinear_arith)
        requires
            w <= 0xFFFF_FFFF,
            th <= 0xFFFF_FFFF,
    ;
    assert(4 * tw * th <= 4 * 0xFFFF_FFFFu128 * 0xFFFF_FFFFu128) by (nonlinear_arith)
        requires
            tw <= 0xFFFF_FFFF,
            th <= 0xFFFF_FFFF,
    ;
    16 * w * th <= limit && 4 * tw * th <= limit
}

/// The contact sheet of the encoded frames: the labelled sheet, then the
/// thumbnail of each frame laid at the top-left corner of its cell, in order.
/// `None` when a label would run off the sheet or a frame is too large to
/// scale; the decoder's error for the first frame that does not decode.
/// Pixels under no thumbnail, the label strips among them, keep the labelled
/// sheet's color.
pub fn contact_sheet(
    frame_files: &Vec<Vec<u8>>,
    frame_numbers: &Vec<u32>,
    layout: &SheetLayout,
    thumb_width: u32,
    thumb_height: u32,
) -> (r: Result<Option<Frame>, image::ImageError>)
    requires
        layout_valid(*layout),
        layout.cell_width == thumb_width,
        layout.cell_height == thumb_height + LABEL_HEIGHT,
        frame_files@.len() == frame_numbers@.len(),
        frame_numbers@.len() <= layout.cols * layout.rows,
        frame_numbers@.len() <= u32::MAX,
        4 * layout.width * layout.height <= usize::MAX,
    ensures
        !labels_fit(*layout, frame_labels(frame_numbers@)) ==> r matches Ok(None),
        forall|j: int|
            0 <= j < frame_files@.len() && labels_fit(*layout, frame_labels(frame_numbers@))
                && #[trigger] first_unusable(file_views(frame_files@), thumb_width, thumb_height, j) ==> {
                &&& decoded_image(file_views(frame_files@)[j]) is None ==> r is Err
                &&& decoded_image(file_views(frame_files@)[j]) is Some ==> r matches Ok(None)
            },
        labels_fit(*layout, frame_labels(frame_numbers@)) && (forall|i: int|
            0 <= i < frame_files@.len() ==> #[trigger] frame_usable(file_views(frame_files@)[i], thumb_width, thumb_height))
            ==> r matches Ok(Some(_)),
        r matches Ok(Some(f)) ==> {
            let labelled = labelled_sheet(*layout, frame_labels(frame_numbers@), thumb_height as int);
            &&& f.wf()
            &&& f@ == with_thumbnails(labelled, *layout, file_views(frame_files@), thumb_width, thumb_height, frame_files@.len())
            &&& forall|p: int|
                0 <= p < f.pixels@.len() && !under_thumbnail(*layout, thumb_height, frame_files@.len() as int, p)
                    ==> #[trigger] f.pixels@[p] == labelled.pixels[p]
        },
{
    let ghost files = file_views(frame_files@);
    let ghost labels = frame_labels(frame_numbers@);
    let ghost labelled = labelled_sheet(*layout, labels, thumb_height as int);
    let mut sheet = match label_sheet(frame_numbers, layout, thumb_height) {
        Some(f) => f,
        None => return Ok(None),
    };
    proof {
        assert forall|p: int| 0 <= p < sheet.pixels@.len() implies #[trigger] sheet.pixels@[p] == labelled.pixels[p] by {
            lemma_index_position(p, sheet.width, sheet.height);
            assert(sheet.at(p % (sheet.width as int), p / (sheet.width as int)) == sheet.pixels@[p]);
        }
        assert(sheet.pixels@ =~= labelled.pixels);
    }
    let n = frame_files.len();
    let mut i: usize = 0;
    while i < n
        invariant
            n == frame_files@.len(),
            n == frame_numbers@.len(),
            n <= layout.cols * layout.rows,
            n <= u32::MAX,
            labels == frame_labels(frame_numbers@),
            labels_fit(*layout, labels),
            layout.cell_height == thumb_height + LABEL_HEIGHT,
            files == file_views(frame_files@),
            labelled == labelled_sheet(*layout, labels, thumb_height as int),
            layout_valid(*layout),
            layout.cell_width == thumb_width,
            4 * layout.width * layout.height <= usize::MAX,
            i <= n,
            sheet.wf(),
            sheet.width == layout.width,
            sheet.height == layout.height,
            sheet@ == with_thumbnails(labelled, *layout, files, thumb_width, thumb_height, i as nat),
            forall|k: int| 0 <= k < i ==> #[trigger] frame_usable(files[k], thumb_width, thumb_height),
            forall|p: int|
                0 <= p < sheet.pixels@.len() && !under_thumbnail(*layout, thumb_height, i as int, p)
                    ==> #[trigger] sheet.pixels@[p] == labelled.pixels[p],
        decreases n - i,
    {
        assert(frame_files@[i as int]@ == files[i as int]);
        let decoded = match decode_image(frame_files[i].as_slice()) {
            Ok(f) => f,
            Err(e) => {
                assert(first_unusable(files, thumb_width, thumb_height, i as int));
                return Err(e);
            },
        };
        if !resample_fits_exec(decoded.width, thumb_width, thumb_height) {
            assert(first_unusable(files, thumb_width, thumb_height, i as int));
            return Ok(None);
        }
        proof {
            assert(4 * decoded.width * decoded.height <= usize::MAX) by (nonlinear_arith)
                requires
                    decoded.width * decoded.height <= 0x2000_0000,
            ;
            assert(thumb_width * thumb_height <= u32::MAX) by (nonlinear_arith)
                requires
                    i < layout.cols * layout.rows,
                    layout.width == layout.cols * thumb_width,
                    layout.height == layout.rows * (thumb_height + 16),
                    layout.width * layout.height <= u32::MAX,
            ;
        }
        let thumb = resize_triangle(&decoded, thumb_width, thumb_height);
        let (x, y) = cell_origin(layout, i as u32);
        let ghost before = sheet@;
        overlay_at(&mut sheet, &thumb, x, y);
        proof {
            assert forall|p: int|
                0 <= p < sheet.pixels@.len() && !under_thumbnail(*layout, thumb_height, i + 1, p)
                    implies #[trigger] sheet.pixels@[p] == labelled.pixels[p] by {
                if under_thumbnail(*layout, thumb_height, i as int, p) {
                    let c = choose|c: int| 0 <= c < i && #[trigger] pixel_in_rect(p, layout.width, cell_x(*layout, c) as u32, cell_y(*layout, c) as u32, layout.cell_width, thumb_height);
                    assert(pixel_in_rect(p, layout.width, cell_x(*layout, c) as u32, cell_y(*layout, c) as u32, layout.cell_width, thumb_height));
                }
                assert(!pixel_in_rect(p, layout.width, cell_x(*layout, i as int) as u32, cell_y(*layout, i as int) as u32, layout.cell_width, thumb_height));
            }
        }
        i = i + 1;
    }
    Ok(Some(sheet))
}

} // verus!
