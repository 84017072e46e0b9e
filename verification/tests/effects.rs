use frameseed::color::Rgba;
use frameseed::effects::blur::{default_radius, BlurParams, BoxBlurEffect};
use frameseed::effects::dither::bayer_value;
use frameseed::effects::invert::InvertEffect;
use frameseed::effects::palette::{
    cga_16_palette, color_distance_squared, default_palette_name, gameboy_4_palette, nearest_palette_color,
    palette_from_name, PaletteQuantizationEffect, PaletteQuantizationParams,
};
use frameseed::effects::pixelation::{default_block_size, PixelationEffect, PixelationParams};
use frameseed::effects::posterize::{default_levels, posterize_channel, PosterizeEffect, PosterizeParams};
use frameseed::effects::sampling::{apply_chromatic_offset, sample, sample_pixel};
use frameseed::frame::Frame;

#[test]
fn invert_test_name() {
    let effect = InvertEffect::default();
    assert_eq!(effect.name(), "invert");
}

#[test]
fn invert_test_apply() {
    let mut frame = Frame::new(100, 100);
    frame.set_pixel(0, 0, Rgba::new(255, 0, 0, 255));
    InvertEffect::default().apply(&mut frame);
    assert_eq!(frame.get_pixel(0, 0), Some(Rgba::new(0, 255, 255, 255)));
}

#[test]
fn invert_twice_restores_the_frame() {
    let mut frame = Frame::new(3, 3);
    frame.set_pixel(1, 2, Rgba::new(12, 34, 56, 78));
    let before = frame.pixels.clone();
    InvertEffect::default().apply(&mut frame);
    assert_ne!(frame.pixels, before);
    InvertEffect::default().apply(&mut frame);
    assert_eq!(frame.pixels, before);
}

#[test]
fn test_palette_from_name() {
    assert_eq!(palette_from_name("cga16"), cga_16_palette());
    assert_eq!(palette_from_name("gameboy"), gameboy_4_palette());
}

#[test]
fn unknown_palette_name_falls_back_to_cga16() {
    assert_eq!(palette_from_name("nope"), cga_16_palette());
    assert_eq!(cga_16_palette().len(), 16);
    assert_eq!(gameboy_4_palette().len(), 4);
}

#[test]
fn sunset_palette_name_gives_the_sunset_colors() {
    let p = palette_from_name("sunset");
    assert_eq!(p, vec![Rgba::new(255, 94, 77, 255), Rgba::new(255, 200, 87, 255)]);
    assert_ne!(p, cga_16_palette());
}

#[test]
fn color_distance_squared_is_zero_for_same_color() {
    let red = Rgba::new(255, 0, 0, 255);
    assert_eq!(color_distance_squared(red, red), 0);
}

#[test]
fn color_distance_squared_sums_channel_squares() {
    let a = Rgba::new(200, 100, 50, 255);
    let b = Rgba::new(255, 0, 0, 0);
    assert_eq!(color_distance_squared(a, b), 55 * 55 + 100 * 100 + 50 * 50);
    assert_eq!(color_distance_squared(Rgba::black(), Rgba::white()), 3 * 255 * 255);
}

#[test]
fn nearest_palette_color_picks_closest_by_distance() {
    let palette = vec![Rgba::new(255, 0, 0, 255), Rgba::new(0, 0, 255, 255)];
    let orange = Rgba::new(200, 100, 50, 255);
    assert_eq!(nearest_palette_color(orange, &palette), Rgba::new(255, 0, 0, 255));
}

#[test]
fn test_nearest_palette_color() {
    let palette = cga_16_palette();
    let pixel = Rgba::new(255, 0, 0, 255);
    assert_eq!(nearest_palette_color(pixel, &palette), Rgba::new(255, 0, 0, 255));
}

#[test]
fn nearest_palette_color_keeps_the_first_of_equally_close_entries() {
    let palette = vec![Rgba::new(0, 0, 0, 1), Rgba::new(0, 0, 0, 2)];
    assert_eq!(nearest_palette_color(Rgba::new(0, 0, 0, 9), &palette), Rgba::new(0, 0, 0, 1));
}

#[test]
fn test_palette_quantization_effect() {
    let mut frame = Frame::new(100, 100);
    frame.set_pixel(0, 0, Rgba::new(255, 0, 0, 255));
    PaletteQuantizationEffect::from_name("cga16").apply(&mut frame);
    assert_eq!(frame.get_pixel(0, 0), Some(Rgba::new(255, 0, 0, 255)));
}

#[test]
fn palette_effect_maps_every_pixel_into_the_palette() {
    let mut frame = Frame::new(4, 4);
    frame.set_pixel(1, 1, Rgba::new(250, 250, 240, 255));
    frame.set_pixel(2, 3, Rgba::new(90, 90, 100, 255));
    let effect = PaletteQuantizationEffect::from_name("gameboy");
    assert_eq!(effect.name(), "palette");
    effect.apply(&mut frame);
    let palette = gameboy_4_palette();
    assert!(frame.pixels.iter().all(|p| palette.contains(p)));
}

#[test]
fn palette_params_default_to_cga16() {
    assert_eq!(default_palette_name(), "cga16");
    assert_eq!(PaletteQuantizationParams::default().name, "cga16");
    let effect = PaletteQuantizationEffect::new(&[Rgba::white()]);
    assert_eq!(effect.palette, vec![Rgba::white()]);
}

#[test]
fn pixelation_test_name() {
    let effect = PixelationEffect::new(8);
    assert_eq!(effect.name(), "pixelation");
}

#[test]
fn pixelation_test_apply() {
    let mut frame = Frame::new(100, 100);
    frame.set_pixel(0, 0, Rgba::new(255, 0, 0, 255));
    PixelationEffect::new(8).apply(&mut frame);
    assert_eq!(frame.get_pixel(0, 0), Some(Rgba::new(255, 0, 0, 255)));
}

#[test]
fn block_size_zero_is_one() {
    let effect = PixelationEffect::new(0);
    assert_eq!(effect.block_size, 1);
}

#[test]
fn block_size_one_is_noop() {
    let effect = PixelationEffect::new(1);
    assert_eq!(effect.block_size, 1);
}

#[test]
fn frame_dimensions_are_preserved() {
    let mut frame = Frame::new(100, 100);
    frame.set_pixel(0, 0, Rgba::new(255, 0, 0, 255));
    PixelationEffect::new(8).apply(&mut frame);
    assert_eq!(frame.width, 100);
    assert_eq!(frame.height, 100);
    assert_eq!(frame.get_pixel(0, 0), Some(Rgba::new(255, 0, 0, 255)));
    assert_eq!(frame.get_pixel(1, 1), Some(Rgba::new(255, 0, 0, 255)));
}

#[test]
fn block_size_is_clamped_to_one() {
    let effect = PixelationEffect::new(0);
    assert_eq!(effect.block_size, 1);
}

#[test]
fn pixelation_with_block_one_changes_nothing() {
    let mut frame = Frame::new(5, 3);
    frame.set_pixel(4, 2, Rgba::new(1, 2, 3, 4));
    frame.set_pixel(1, 0, Rgba::new(5, 6, 7, 8));
    let before = frame.pixels.clone();
    PixelationEffect::new(1).apply(&mut frame);
    assert_eq!(frame.pixels, before);
}

#[test]
fn pixelation_copies_each_block_anchor_over_clipped_blocks() {
    let mut frame = Frame::new(5, 3);
    frame.set_pixel(4, 2, Rgba::new(9, 9, 9, 9));
    frame.set_pixel(2, 2, Rgba::new(7, 7, 7, 7));
    frame.set_pixel(0, 2, Rgba::new(4, 4, 4, 4));
    PixelationEffect::new(2).apply(&mut frame);
    assert_eq!(frame.get_pixel(4, 2), Some(Rgba::new(9, 9, 9, 9)));
    assert_eq!(frame.get_pixel(3, 2), Some(Rgba::new(7, 7, 7, 7)));
    assert_eq!(frame.get_pixel(1, 2), Some(Rgba::new(4, 4, 4, 4)));
    assert_eq!(frame.get_pixel(1, 1), Some(Rgba::black()));
}

#[test]
fn pixelation_params_default_to_eight() {
    assert_eq!(default_block_size(), 8);
    assert_eq!(PixelationParams::default().block_size, 8);
}

#[test]
fn posterize_reduces_channel_levels() {
    assert_eq!(posterize_channel(130, 2), 255);
    assert_eq!(posterize_channel(100, 4), 85);
}

#[test]
fn posterize_channel_exact_values() {
    assert_eq!(posterize_channel(127, 2), 0);
    assert_eq!(posterize_channel(128, 2), 255);
    assert_eq!(posterize_channel(200, 0), 255);
    assert_eq!(posterize_channel(0, 6), 0);
    assert_eq!(posterize_channel(255, 6), 255);
    assert_eq!(posterize_channel(60, 6), 51);
    assert_eq!(posterize_channel(255, 8), 254);
    assert_eq!(posterize_channel(255, 64), 254);
    assert_eq!(posterize_channel(255, 200), 255);
    assert_eq!(posterize_channel(85, 238), 84);
    assert_eq!(posterize_channel(170, 238), 169);
    assert_eq!(posterize_channel(100, 255), 100);
}

#[test]
fn posterize_channel_is_idempotent() {
    for levels in 2..=32u8 {
        for c in 0..=255u8 {
            let once = posterize_channel(c, levels);
            assert_eq!(posterize_channel(once, levels), once);
        }
    }
}

#[test]
fn posterize_effect_clamps_levels_and_keeps_alpha() {
    assert_eq!(PosterizeEffect::new(0).levels, 2);
    assert_eq!(PosterizeEffect::new(200).levels, 32);
    assert_eq!(PosterizeEffect::new(7).levels, 7);
    assert_eq!(default_levels(), 6);
    assert_eq!(PosterizeParams::default().levels, 6);
    let mut frame = Frame::new(1, 1);
    frame.set_pixel(0, 0, Rgba::new(130, 100, 10, 77));
    let effect = PosterizeEffect::new(2);
    assert_eq!(effect.name(), "posterize");
    effect.apply(&mut frame);
    assert_eq!(frame.get_pixel(0, 0), Some(Rgba::new(255, 0, 0, 77)));
}

#[test]
fn blur_averages_a_bright_pixel_into_neighbors() {
    let mut frame = Frame::new(5, 5);
    frame.set_pixel(2, 2, Rgba::new(255, 255, 255, 255));
    BoxBlurEffect::new(1).apply(&mut frame);
    let center = frame.get_pixel(2, 2).unwrap();
    assert!(center.r < 255);
}

#[test]
fn blur_solid_color_is_unchanged() {
    let mut frame = Frame::new(8, 8);
    for y in 0..8 {
        for x in 0..8 {
            frame.set_pixel(x, y, Rgba::new(100, 150, 200, 255));
        }
    }
    BoxBlurEffect::new(2).apply(&mut frame);
    assert_eq!(frame.get_pixel(4, 4), Some(Rgba::new(100, 150, 200, 255)));
}

#[test]
fn radius_zero_clamps_to_one() {
    let e = BoxBlurEffect::new(0);
    assert_eq!(e.radius, 1);
}

#[test]
fn blur_uses_the_clipped_window_mean() {
    let mut frame = Frame::new(5, 5);
    frame.set_pixel(2, 2, Rgba::new(255, 90, 9, 10));
    let effect = BoxBlurEffect::new(1);
    assert_eq!(effect.name(), "blur");
    effect.apply(&mut frame);
    assert_eq!(frame.get_pixel(2, 2), Some(Rgba::new(28, 10, 1, 255)));
    assert_eq!(frame.get_pixel(1, 1), Some(Rgba::new(28, 10, 1, 255)));
    assert_eq!(frame.get_pixel(0, 0), Some(Rgba::new(0, 0, 0, 255)));
    let mut corner = Frame::new(2, 2);
    corner.set_pixel(0, 0, Rgba::new(200, 0, 0, 0));
    BoxBlurEffect::new(5).apply(&mut corner);
    assert_eq!(corner.get_pixel(1, 1), Some(Rgba::new(50, 0, 0, 255)));
}

#[test]
fn blur_radius_is_clamped_to_sixty_four() {
    assert_eq!(BoxBlurEffect::new(1000).radius, 64);
    assert_eq!(BoxBlurEffect::new(3).radius, 3);
    assert_eq!(default_radius(), 2);
    assert_eq!(BlurParams::default().radius, 2);
}

#[test]
fn sample_pixel_clamps_to_edges() {
    let mut frame = Frame::new(2, 1);
    frame.set_pixel(0, 0, Rgba::new(255, 0, 0, 255));
    frame.set_pixel(1, 0, Rgba::new(0, 255, 0, 255));

    assert_eq!(sample_pixel(&frame, -5, 0), Rgba::new(255, 0, 0, 255));
    assert_eq!(sample_pixel(&frame, 10, 0), Rgba::new(0, 255, 0, 255));
}

#[test]
fn sample_pixel_of_an_empty_frame_is_black() {
    let frame = Frame::new(0, 0);
    assert_eq!(sample_pixel(&frame, 3, -2), Rgba::black());
}

#[test]
fn sample_clamps_into_the_buffer() {
    let src = vec![Rgba::new(1, 0, 0, 0), Rgba::new(2, 0, 0, 0), Rgba::new(3, 0, 0, 0), Rgba::new(4, 0, 0, 0)];
    assert_eq!(sample(&src, 2, 2, -1, -1), Rgba::new(1, 0, 0, 0));
    assert_eq!(sample(&src, 2, 2, 5, 0), Rgba::new(2, 0, 0, 0));
    assert_eq!(sample(&src, 2, 2, 0, 9), Rgba::new(3, 0, 0, 0));
    assert_eq!(sample(&src, 2, 2, 1, 1), Rgba::new(4, 0, 0, 0));
}

#[test]
fn chromatic_offset_splits_rgb_channels() {
    let mut source = Frame::new(3, 1);
    source.set_pixel(0, 0, Rgba::new(255, 0, 0, 255));
    source.set_pixel(1, 0, Rgba::new(255, 0, 0, 255));
    source.set_pixel(2, 0, Rgba::new(0, 0, 255, 255));

    let mut output = Frame::new(3, 1);
    apply_chromatic_offset(&source, &mut output, 1);

    assert_eq!(output.get_pixel(1, 0), Some(Rgba::new(0, 0, 0, 255)));
}

#[test]
fn chromatic_offset_zero_copies_the_source() {
    let mut source = Frame::new(3, 2);
    source.set_pixel(2, 1, Rgba::new(1, 2, 3, 4));
    let mut output = Frame::new(3, 2);
    output.fill_solid(Rgba::white());
    apply_chromatic_offset(&source, &mut output, 0);
    assert_eq!(output.pixels, source.pixels);
}

#[test]
fn bayer_is_deterministic() {
    assert_eq!(bayer_value(3, 7), bayer_value(3, 7));
}

#[test]
fn bayer_tiles_every_four_pixels() {
    assert_eq!(bayer_value(0, 0), bayer_value(4, 0));
}

#[test]
fn bayer_tile_holds_each_rank_once() {
    let mut ranks: Vec<u8> = (0..4).flat_map(|y| (0..4).map(move |x| bayer_value(x, y))).collect();
    assert_eq!(bayer_value(1, 0), 8);
    assert_eq!(bayer_value(3, 3), 5);
    ranks.sort();
    assert_eq!(ranks, (0..16).collect::<Vec<u8>>());
    assert_eq!(bayer_value(6, 9), bayer_value(2, 1));
}

#[test]
fn palette_quantization_twice_changes_nothing() {
    let mut frame = Frame::new(4, 3);
    for y in 0..3u32 {
        for x in 0..4u32 {
            frame.set_pixel(x, y, Rgba::new((x * 60) as u8, (y * 90) as u8, 200, 10));
        }
    }
    let effect = PaletteQuantizationEffect::new(&[
        Rgba::new(0, 0, 0, 0),
        Rgba::new(0, 0, 0, 255),
        Rgba::new(255, 255, 255, 255),
        Rgba::new(200, 100, 50, 255),
    ]);
    effect.apply(&mut frame);
    let once = frame.pixels.clone();
    effect.apply(&mut frame);
    assert_eq!(frame.pixels, once);
}

#[test]
fn posterize_channel_keeps_the_order_of_values() {
    for levels in 0..=255u8 {
        for c in 0..255u8 {
            assert!(posterize_channel(c, levels) <= posterize_channel(c + 1, levels));
        }
    }
}
