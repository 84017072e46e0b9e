use font8x8::UnicodeFonts;
use frameseed::color::Rgba;
use frameseed::contact::{contact_sheet, decode_image, overlay_at, resize_triangle};
use frameseed::encode::frame_to_png_bytes;
use frameseed::frame::Frame;
use frameseed::sheet::{
    cell_origin, draw_glyph, draw_label, draw_text, fill_rect, label_sheet, sheet_layout, text_fits_within,
    LABEL_HEIGHT,
};

fn lit_dots(text: &str) -> Vec<(u32, u32)> {
    let mut dots = Vec::new();
    for (i, ch) in text.chars().enumerate() {
        if let Some(glyph) = font8x8::BASIC_FONTS.get(ch) {
            for (row, bits) in glyph.iter().enumerate() {
                for col in 0..8u32 {
                    if bits & (1 << col) != 0 {
                        dots.push((i as u32 * 9 + col, row as u32));
                    }
                }
            }
        }
    }
    dots
}

#[test]
fn fill_rect_paints_only_the_rectangle() {
    let mut frame = Frame::new(5, 4);
    fill_rect(&mut frame, 1, 1, 3, 2, Rgba::white());
    for y in 0..4 {
        for x in 0..5 {
            let inside = (1..4).contains(&x) && (1..3).contains(&y);
            let expected = if inside { Rgba::white() } else { Rgba::black() };
            assert_eq!(frame.get_pixel(x, y), Some(expected));
        }
    }
    let before = frame.pixels.clone();
    fill_rect(&mut frame, 99, 99, 0, 5, Rgba::new(1, 1, 1, 1));
    assert_eq!(frame.pixels, before);
}

#[test]
fn draw_glyph_sets_the_lit_bits() {
    let mut frame = Frame::new(10, 10);
    let rows = [0b0000_0001, 0, 0, 0, 0, 0, 0, 0b1000_0000];
    draw_glyph(&mut frame, 1, 2, rows, Rgba::white());
    assert_eq!(frame.get_pixel(1, 2), Some(Rgba::white()));
    assert_eq!(frame.get_pixel(8, 9), Some(Rgba::white()));
    assert_eq!(frame.pixels.iter().filter(|p| **p == Rgba::white()).count(), 2);
}

#[test]
fn draw_text_matches_the_basic_font() {
    let text = "f:12";
    let mut frame = Frame::new(40, 10);
    let ink = Rgba::new(220, 220, 220, 255);
    draw_text(&mut frame, 2, 1, text, ink);
    let dots = lit_dots(text);
    assert!(!dots.is_empty());
    for y in 0..10u32 {
        for x in 0..40u32 {
            let lit = x >= 2 && y >= 1 && dots.contains(&(x - 2, y - 1));
            let expected = if lit { ink } else { Rgba::black() };
            assert_eq!(frame.get_pixel(x, y), Some(expected), "pixel ({x}, {y})");
        }
    }
}

#[test]
fn characters_outside_the_basic_font_are_blank() {
    let mut frame = Frame::new(30, 8);
    draw_text(&mut frame, 0, 0, "é é", Rgba::white());
    assert!(frame.pixels.iter().all(|p| *p == Rgba::black()));
}

#[test]
fn draw_label_fills_the_strip_then_writes_the_text() {
    let mut frame = Frame::new(60, 20);
    draw_label(&mut frame, 3, 2, 50, LABEL_HEIGHT, "f:7");
    let dots = lit_dots("f:7");
    assert_eq!(frame.get_pixel(3, 2), Some(Rgba::new(48, 48, 48, 255)));
    assert_eq!(frame.get_pixel(2, 2), Some(Rgba::black()));
    let (dx, dy) = dots[0];
    assert_eq!(frame.get_pixel(3 + 4 + dx, 2 + 4 + dy), Some(Rgba::new(220, 220, 220, 255)));
}

#[test]
fn text_fit_is_decided_by_the_rightmost_lit_dot() {
    let right = lit_dots("f:1").iter().map(|d| d.0).max().unwrap();
    assert!(text_fits_within("f:1", 10, 10 + right + 1));
    assert!(!text_fits_within("f:1", 10, 10 + right));
    assert!(text_fits_within("", 100, 0));
    assert!(text_fits_within("   ", 0, 0));
}

#[test]
fn sheet_layout_of_five_thumbnails_in_two_columns() {
    let layout = sheet_layout(5, 2, 128, 72).unwrap();
    assert_eq!((layout.cols, layout.rows), (2, 3));
    assert_eq!((layout.cell_width, layout.cell_height), (128, 88));
    assert_eq!((layout.width, layout.height), (256, 264));
    assert_eq!(cell_origin(&layout, 0), (0, 0));
    assert_eq!(cell_origin(&layout, 3), (128, 88));
    assert_eq!(cell_origin(&layout, 4), (0, 176));
}

#[test]
fn sheet_layout_treats_zero_columns_as_one() {
    let layout = sheet_layout(3, 0, 10, 10).unwrap();
    assert_eq!((layout.cols, layout.rows, layout.width, layout.height), (1, 3, 10, 78));
    let empty = sheet_layout(0, 4, 10, 10).unwrap();
    assert_eq!((empty.rows, empty.height), (0, 0));
}

#[test]
fn sheet_layout_refuses_sheets_beyond_32_bit_sizes() {
    assert!(sheet_layout(1, 1, 10, u32::MAX).is_none());
    assert!(sheet_layout(4, 4, u32::MAX / 2, 10).is_none());
    assert!(sheet_layout(100_000, 1, 100_000, 100).is_none());
}

#[test]
fn label_sheet_writes_each_label_under_its_thumbnail() {
    let numbers = vec![1, 13, 25];
    let layout = sheet_layout(3, 2, 64, 36).unwrap();
    let sheet = label_sheet(&numbers, &layout, 36).unwrap();
    assert_eq!((sheet.width, sheet.height), (128, 104));
    let bg = Rgba::new(32, 32, 32, 255);
    let strip = Rgba::new(48, 48, 48, 255);
    let ink = Rgba::new(220, 220, 220, 255);
    assert_eq!(sheet.get_pixel(10, 10), Some(bg));
    assert_eq!(sheet.get_pixel(0, 36), Some(strip));
    assert_eq!(sheet.get_pixel(64, 52 + 36), Some(bg));
    for (i, n) in numbers.iter().enumerate() {
        let (x, y) = cell_origin(&layout, i as u32);
        let dots = lit_dots(&format!("f:{n}"));
        for dx in 0..64u32 {
            for dy in 0..LABEL_HEIGHT {
                let lit = dx >= 4 && dy >= 4 && dots.contains(&(dx - 4, dy - 4));
                let expected = if lit { ink } else { strip };
                assert_eq!(sheet.get_pixel(x + dx, y + 36 + dy), Some(expected));
            }
        }
    }
}

#[test]
fn label_sheet_refuses_labels_that_run_off_the_sheet() {
    let layout = sheet_layout(2, 2, 8, 8).unwrap();
    assert!(label_sheet(&vec![1, 2], &layout, 8).is_none());
}

fn solid(width: u32, height: u32, color: Rgba) -> Frame {
    let mut f = Frame::new(width, height);
    f.fill_solid(color);
    f
}

#[test]
fn decode_image_reads_back_an_encoded_frame() {
    let mut f = Frame::new(3, 2);
    f.set_pixel(2, 1, Rgba::new(10, 20, 30, 40));
    let decoded = decode_image(&frame_to_png_bytes(&f).unwrap()).unwrap();
    assert_eq!((decoded.width, decoded.height), (3, 2));
    assert_eq!(decoded.pixels, f.pixels);
    assert!(decode_image(b"not an image").is_err());
}

#[test]
fn resize_triangle_scales_to_the_requested_size() {
    let src = solid(8, 6, Rgba::new(200, 100, 50, 255));
    let small = resize_triangle(&src, 4, 3);
    assert_eq!((small.width, small.height, small.pixels.len()), (4, 3, 12));
    assert!(small.pixels.iter().all(|&p| p == Rgba::new(200, 100, 50, 255)));
    let mut halves = Frame::new(4, 1);
    halves.set_pixel(2, 0, Rgba::white());
    halves.set_pixel(3, 0, Rgba::white());
    let scaled = resize_triangle(&halves, 2, 1);
    assert_ne!(scaled.pixels, halves.pixels[..2].to_vec());
}

#[test]
fn overlay_at_changes_only_the_covered_rectangle() {
    let mut bottom = solid(5, 4, Rgba::black());
    let top = solid(2, 2, Rgba::white());
    overlay_at(&mut bottom, &top, 3, 3);
    for y in 0..4 {
        for x in 0..5 {
            let covered = x >= 3 && y >= 3;
            let expected = if covered { Rgba::white() } else { Rgba::black() };
            assert_eq!(bottom.get_pixel(x, y), Some(expected));
        }
    }
}

#[test]
fn contact_sheet_lays_thumbnails_over_the_labelled_sheet() {
    let numbers = vec![1, 13, 25];
    let colors = [Rgba::new(255, 0, 0, 255), Rgba::new(0, 255, 0, 255), Rgba::new(0, 0, 255, 255)];
    let files: Vec<Vec<u8>> = colors.iter().map(|&c| frame_to_png_bytes(&solid(128, 72, c)).unwrap()).collect();
    let layout = sheet_layout(3, 2, 64, 36).unwrap();
    let sheet = contact_sheet(&files, &numbers, &layout, 64, 36).unwrap().unwrap();
    let labelled = label_sheet(&numbers, &layout, 36).unwrap();
    assert_eq!((sheet.width, sheet.height), (128, 104));
    for (i, &c) in colors.iter().enumerate() {
        let (x, y) = cell_origin(&layout, i as u32);
        assert_eq!(sheet.get_pixel(x + 10, y + 10), Some(c));
        for dy in 0..LABEL_HEIGHT {
            assert_eq!(sheet.get_pixel(x + 5, y + 36 + dy), labelled.get_pixel(x + 5, y + 36 + dy));
        }
    }
    assert_eq!(sheet.get_pixel(64 + 10, 52 + 10), Some(Rgba::new(32, 32, 32, 255)));
}

#[test]
fn contact_sheet_reports_undecodable_frames_and_unfit_labels() {
    let good = frame_to_png_bytes(&solid(16, 16, Rgba::white())).unwrap();
    let layout = sheet_layout(2, 2, 64, 36).unwrap();
    let bad = vec![good.clone(), b"broken".to_vec()];
    assert!(contact_sheet(&bad, &vec![1, 2], &layout, 64, 36).is_err());
    let tiny = sheet_layout(2, 2, 8, 8).unwrap();
    let files = vec![good.clone(), good];
    assert!(matches!(contact_sheet(&files, &vec![1, 2], &tiny, 8, 8), Ok(None)));
}
