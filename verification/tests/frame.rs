use frameseed::color::Rgba;
use frameseed::frame::Frame;

#[test]
fn frame_test_new() {
    let frame = Frame::new(100, 100);
    assert_eq!(frame.width, 100);
    assert_eq!(frame.height, 100);
    assert_eq!(frame.pixels.len(), 10_000)
}

#[test]
fn test_set_pixel() {
    let mut frame = Frame::new(100, 100);
    frame.set_pixel(0, 0, Rgba::new(255, 0, 0, 255));
    assert_eq!(frame.get_pixel(0, 0), Some(Rgba::new(255, 0, 0, 255)));
}

#[test]
fn multiple_set_pixel() {
    let mut frame = Frame::new(4, 4);
    frame.set_pixel(0, 0, Rgba::white());
    frame.set_pixel(3, 3, Rgba::new(255, 0, 0, 255));

    assert_eq!(frame.get_pixel(0, 0), Some(Rgba::new(255, 255, 255, 255)));
    assert_eq!(frame.get_pixel(3, 3), Some(Rgba::new(255, 0, 0, 255)));
    assert_eq!(frame.get_pixel(1, 1), Some(Rgba::new(0, 0, 0, 255)));
}

#[test]
fn test_get_pixel() {
    let frame = Frame::new(100, 100);
    assert_eq!(frame.get_pixel(0, 0), Some(Rgba::black()));
}

#[test]
fn out_bounds_return_none() {
    let frame = Frame::new(3, 2);
    assert_eq!(frame.get_pixel(4, 0), None);
    assert_eq!(frame.get_pixel(0, 3), None);
}

#[test]
fn parallel_for_each_pixel_matches_serial_loop() {
    let mut serial = Frame::new(16, 16);
    for y in 0..16 {
        for x in 0..16 {
            serial.set_pixel(x, y, Rgba::new((x * 16) as u8, (y * 16) as u8, 128, 255));
        }
    }

    let mut parallel = Frame::new(16, 16);
    parallel.parallel_for_each_pixel(|x, y| Rgba::new((x * 16) as u8, (y * 16) as u8, 128, 255));

    assert_eq!(serial.pixels, parallel.pixels);
}

#[test]
fn clear_resets_all_pixels_without_reallocating() {
    let mut frame = Frame::new(4, 4);
    frame.set_pixel(0, 0, Rgba::white());
    let capacity = frame.pixels.capacity();
    frame.clear(Rgba::black());
    assert_eq!(frame.get_pixel(0, 0), Some(Rgba::black()));
    assert_eq!(frame.pixels.capacity(), capacity);
}

#[test]
fn set_pixel_outside_reports_false_and_changes_nothing() {
    let mut frame = Frame::new(3, 2);
    let before = frame.pixels.clone();
    assert!(!frame.set_pixel(3, 0, Rgba::white()));
    assert!(!frame.set_pixel(0, 2, Rgba::white()));
    assert_eq!(frame.pixels, before);
    assert!(frame.set_pixel(2, 1, Rgba::white()));
    assert_eq!(frame.pixels[5], Rgba::white());
}

#[test]
fn write_then_read_gives_back_the_color_and_leaves_others() {
    let mut frame = Frame::new(5, 4);
    let c = Rgba::new(1, 2, 3, 4);
    frame.set_pixel(2, 3, c);
    assert_eq!(frame.get_pixel(2, 3), Some(c));
    assert_eq!(frame.get_pixel(3, 2), Some(Rgba::black()));
}

#[test]
fn fill_solid_paints_every_pixel() {
    let mut frame = Frame::new(7, 3);
    let c = Rgba::new(9, 8, 7, 6);
    frame.fill_solid(c);
    assert!(frame.pixels.iter().all(|p| *p == c));
    assert_eq!(frame.pixels.len(), 21);
}

#[test]
fn as_raw_rgba_lays_out_channels_in_pixel_order() {
    let mut frame = Frame::new(2, 1);
    frame.set_pixel(0, 0, Rgba::new(1, 2, 3, 4));
    frame.set_pixel(1, 0, Rgba::new(5, 6, 7, 8));
    assert_eq!(frame.as_raw_rgba(), vec![1, 2, 3, 4, 5, 6, 7, 8]);
}

#[test]
fn empty_frame_has_no_pixels() {
    let frame = Frame::new(0, 5);
    assert!(frame.pixels.is_empty());
    assert_eq!(frame.get_pixel(0, 0), None);
    assert!(frame.as_raw_rgba().is_empty());
}

#[test]
fn parallel_for_each_pixel_follows_buffer_positions() {
    let mut frame = Frame { width: 2, height: 1, pixels: vec![Rgba::black(); 4] };
    frame.parallel_for_each_pixel(|x, y| Rgba::new(x as u8, y as u8, 0, 255));
    assert_eq!(
        frame.pixels,
        vec![Rgba::new(0, 0, 0, 255), Rgba::new(1, 0, 0, 255), Rgba::new(0, 1, 0, 255), Rgba::new(1, 1, 0, 255)]
    );
}

#[test]
fn pixels_beyond_the_frame_size_are_kept() {
    let mut frame = Frame { width: 1, height: 1, pixels: vec![Rgba::black(); 3] };
    assert!(frame.set_pixel(0, 0, Rgba::white()));
    assert!(!frame.set_pixel(0, 1, Rgba::white()));
    assert_eq!(frame.pixels, vec![Rgba::white(), Rgba::black(), Rgba::black()]);
    let short = Frame { width: 3, height: 3, pixels: vec![Rgba::white(); 2] };
    assert_eq!(short.get_pixel(1, 0), Some(Rgba::white()));
    assert_eq!(short.get_pixel(2, 2), None);
}
