use frameseed::cli::{config_source, parse_decimal_u64, parse_seed, ConfigSource, OutputFormat, SeedChoice};
use frameseed::color::Rgba;
use frameseed::config::scene_kind;
use frameseed::effects::registry::{effect_plan, EffectKind, EffectSwitches};
use frameseed::errors::ConfigError;
use frameseed::export::{sequence_input_args, sequence_output_args, ExportFormat};
use frameseed::jobs::{dialog_labels, job_dir_name, RenderQueue};
use frameseed::scenes::{gradient_colors, known_scenes, scene_by_name, SceneKind};
use frameseed::seeds::{grain_seed, lattice_seed};

fn switches() -> EffectSwitches {
    EffectSwitches {
        motion_blur: false,
        invert: false,
        pixelation_block: None,
        dither: false,
        palette: false,
        vhs_crt: false,
        blur: false,
    }
}

fn names(plan: &[EffectKind]) -> Vec<&'static str> {
    plan.iter().map(|k| k.name()).collect()
}

#[test]
fn test_effects_from_config() {
    assert_eq!(effect_plan(&switches()).len(), 0);
}

#[test]
fn test_effects_from_config_with_invert() {
    let plan = effect_plan(&EffectSwitches { invert: true, ..switches() });
    assert_eq!(plan.len(), 1);
    assert_eq!(plan[0].name(), "invert");
}

#[test]
fn test_effects_from_config_with_pixelation() {
    let plan = effect_plan(&EffectSwitches { pixelation_block: Some(8), ..switches() });
    assert_eq!(plan.len(), 1);
    assert_eq!(plan[0].name(), "pixelation");
}

#[test]
fn test_effects_from_config_with_palette() {
    let plan = effect_plan(&EffectSwitches { palette: true, ..switches() });
    assert_eq!(names(&plan), vec!["palette"]);
}

#[test]
fn test_effects_from_config_with_dither() {
    let plan = effect_plan(&EffectSwitches { dither: true, ..switches() });
    assert_eq!(names(&plan), vec!["dither"]);
}

#[test]
fn test_effects_from_config_with_motion_blur() {
    let plan = effect_plan(&EffectSwitches { motion_blur: true, ..switches() });
    assert_eq!(names(&plan), vec!["motion_blur"]);
}

#[test]
fn test_effects_from_config_with_vhs_crt() {
    let plan = effect_plan(&EffectSwitches { vhs_crt: true, ..switches() });
    assert_eq!(names(&plan), vec!["vhs_crt"]);
}

#[test]
fn full_pipeline_runs_in_fixed_order_and_skips_single_pixel_blocks() {
    let all = EffectSwitches {
        motion_blur: true,
        invert: true,
        pixelation_block: Some(2),
        dither: true,
        palette: true,
        vhs_crt: true,
        blur: true,
    };
    assert_eq!(
        names(&effect_plan(&all)),
        vec!["motion_blur", "invert", "pixelation", "dither", "palette", "vhs_crt", "blur"]
    );
    let one_pixel = EffectSwitches { pixelation_block: Some(1), blur: true, ..switches() };
    assert_eq!(effect_plan(&one_pixel), vec![EffectKind::Blur]);
}

#[test]
fn every_known_scene_resolves_and_others_are_errors() {
    for name in known_scenes() {
        assert!(scene_by_name(name).is_some());
        assert!(scene_kind(name).is_ok());
    }
    assert_eq!(scene_by_name("tunnel"), Some(SceneKind::Tunnel));
    assert_eq!(scene_kind("mandelbrot").ok(), Some(SceneKind::Mandelbrot));
    match scene_kind("nope") {
        Err(ConfigError::Invalid(m)) => assert!(m.starts_with("Unknown scene 'nope'. Run `frameseed list-scenes`")),
        _ => panic!("expected an unknown scene"),
    }
}

#[test]
fn gradient_colors_prefer_readable_hex_overrides() {
    let sunset = (Rgba::new(255, 94, 77, 255), Rgba::new(255, 200, 87, 255));
    assert_eq!(gradient_colors("sunset", None, None), sunset);
    assert_eq!(gradient_colors("sunset", Some("#000000"), Some("bogus")), (Rgba::black(), sunset.1));
    assert_eq!(gradient_colors("nope", None, Some("ffffff")), (Rgba::black(), Rgba::white()));
}

#[test]
fn output_formats_map_to_export_formats() {
    assert_eq!(OutputFormat::Mp4.export_format(), ExportFormat::Mp4);
    assert_eq!(OutputFormat::Gif.export_format(), ExportFormat::Gif);
}

#[test]
fn exactly_one_configuration_source_is_accepted() {
    match config_source(Some("a.toml"), None) {
        Ok(ConfigSource::File(p)) => assert_eq!(p, "a.toml"),
        _ => panic!("expected a file"),
    }
    match config_source::<&str>(None, Some("snow".to_string())) {
        Ok(ConfigSource::Preset(n)) => assert_eq!(n, "snow"),
        _ => panic!("expected a preset"),
    }
    for r in [config_source(Some("a"), Some("b".to_string())), config_source::<&str>(None, None)] {
        match r {
            Err(m) => assert_eq!(m, "Provide either --config or --preset"),
            _ => panic!("expected an error"),
        }
    }
}

#[test]
fn image_sequence_arguments() {
    assert_eq!(sequence_input_args("24", 1), vec!["-y", "-framerate", "24", "-start_number", "1", "-i"]);
    assert_eq!(
        sequence_output_args(ExportFormat::Mp4, "24", 120),
        vec!["-frames:v", "120", "-c:v", "libx264", "-pix_fmt", "yuv420p"]
    );
    assert_eq!(
        sequence_output_args(ExportFormat::Gif, "12.5", 3),
        vec!["-frames:v", "3", "-vf", "fps=12.5,split[s0][s1];[s0]palettegen[p];[s1][p]paletteuse", "-loop", "0"]
    );
}

#[test]
fn the_queue_runs_one_render_at_a_time() {
    let mut queue = RenderQueue::new();
    assert!(!queue.is_running());
    assert!(queue.try_begin().is_ok());
    assert!(queue.is_running());
    assert_eq!(queue.try_begin(), Err("A render is already in progress".to_string()));
    queue.finish(false);
    assert!(!queue.is_running());
    assert!(queue.try_begin().is_ok());
}

#[test]
fn job_directories_and_dialogs() {
    assert_eq!(job_dir_name(1_700_000_000), "render_1700000000");
    assert_eq!(dialog_labels(ExportFormat::Gif), ("Export GIF", "GIF Animation", "gif", "frameseed.gif"));
    assert_eq!(dialog_labels(ExportFormat::WebM).3, "frameseed.webm");
}

#[test]
fn seeds_follow_wrapping_arithmetic() {
    for &(seed, x, y) in &[(42u64, 3i32, -7i32), (u64::MAX, i32::MIN, i32::MAX), (0, 0, 0), (7, -1, -1)] {
        let expected = seed
            .wrapping_mul(0x9E37_79B9_7F4A_7C15)
            .wrapping_add(x as u32 as u64)
            .wrapping_add((y as u32 as u64).wrapping_shl(32));
        assert_eq!(lattice_seed(seed, x, y), expected);
        let grain = seed
            .wrapping_add(11u64)
            .wrapping_add(x as u64)
            .wrapping_add(y as u64)
            .wrapping_shl(16);
        assert_eq!(grain_seed(seed, 11, x, y), grain);
    }
    assert_ne!(lattice_seed(42, 1, 0), lattice_seed(42, 0, 1));
}

#[test]
fn decimal_parsing_agrees_with_the_standard_library() {
    for text in [
        "42", "+7", "", "+", "-1", "007", "1a", " 1", "18446744073709551615", "18446744073709551616",
        "99999999999999999999", "++1", "0",
    ] {
        assert_eq!(parse_decimal_u64(text), text.parse::<u64>().ok(), "text {text:?}");
    }
}

#[test]
fn seeds_are_numbers_or_random() {
    assert!(matches!(parse_seed("random"), Some(SeedChoice::Random)));
    assert!(matches!(parse_seed("42"), Some(SeedChoice::Fixed(42))));
    assert!(parse_seed("Random").is_none());
    assert!(parse_seed("").is_none());
}

#[test]
fn default_output_paths() {
    assert_eq!(OutputFormat::Mp4.default_output(), "output/video.mp4");
    assert_eq!(OutputFormat::Gif.default_output(), "output/animation.gif");
}
