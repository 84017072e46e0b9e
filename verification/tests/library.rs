use frameseed::color::Rgba;
use frameseed::config::{unknown_scene_error, validate_settings};
use frameseed::encode::{base64_encode, frame_to_base64, frame_to_png_bytes};
use frameseed::errors::{ConfigError, ExportError, FfmpegError, IoProblem, RenderError};
use frameseed::export::{export_args, frame_number_label, sampled_frame_indices, ExportFormat};
use frameseed::files::{contact_sheet_file_names, frame_file_name, preset_file_name, preset_name_of, preset_names};
use frameseed::frame::Frame;
use frameseed::gallery::gallery_entries;
use frameseed::scenes::{default_kind, is_known_scene, known_palettes, known_scenes, palette_from_name, ParticleKind};
use frameseed::text::{join_strs, str_le};
use frameseed::welcome_message;

#[test]
fn test_welcome_message() {
    assert_eq!(welcome_message(), "Welcome to Frameseed.");
}

#[test]
fn view_width_shrinks_over_time() {
    let initial = 3.0;
    let width_at_start = initial * 0.5_f32.powf(0.0);
    let width_at_end = initial * 0.5_f32.powf(1.0);
    assert!(width_at_end < width_at_start);
}

fn check(width: u32, height: u32, fps: f32, duration: f32, seed: u64, scene: &str) -> Result<(), ConfigError> {
    validate_settings(width, height, !(fps > 0.0), !(duration > 0.0), seed, scene)
}

fn invalid_message(r: Result<(), ConfigError>) -> String {
    match r {
        Err(ConfigError::Invalid(m)) => m,
        _ => panic!("expected an invalid-settings error"),
    }
}

#[test]
fn loads_valid_toml() {
    assert!(check(256, 64, 24.0, 5.0, 42, "gradient").is_ok());
}

#[test]
fn invalid_zero_width_returns_error() {
    assert!(check(0, 64, 24.0, 5.0, 42, "gradient").is_err());
}

#[test]
fn invalid_zero_height_returns_error() {
    assert!(check(256, 0, 24.0, 5.0, 42, "gradient").is_err());
}

#[test]
fn invalid_zero_fps_returns_error() {
    assert!(check(256, 64, 0.0, 5.0, 42, "gradient").is_err());
}

#[test]
fn nan_fps_or_duration_is_rejected() {
    assert!(check(256, 64, f32::NAN, 5.0, 42, "gradient").is_err());
    assert!(check(256, 64, 24.0, f32::NAN, 42, "gradient").is_err());
}

#[test]
fn invalid_zero_duration_returns_error() {
    assert!(check(256, 64, 24.0, 0.0, 42, "gradient").is_err());
}

#[test]
fn invalid_zero_seed_returns_error() {
    assert!(check(256, 64, 24.0, 5.0, 0, "gradient").is_err());
}

#[test]
fn invalid_empty_scene_returns_error() {
    assert!(check(256, 64, 24.0, 5.0, 42, "").is_err());
}

#[test]
fn validation_messages_name_the_first_problem() {
    assert_eq!(
        invalid_message(check(0, 0, 0.0, 0.0, 0, "")),
        "Width must be greater than 0. Set `width = 640` (or another positive value) in your config."
    );
    assert_eq!(
        invalid_message(check(1, 0, 1.0, 1.0, 1, "gradient")),
        "Height must be greater than 0. Set `height = 360` (or another positive value) in your config."
    );
    assert_eq!(
        invalid_message(check(1, 1, -2.0, 1.0, 1, "gradient")),
        "FPS must be greater than 0. Set `fps = 24.0` (or another positive value) in your config."
    );
    assert_eq!(
        invalid_message(check(1, 1, 1.0, 0.0, 1, "gradient")),
        "Duration must be greater than 0. Set `duration = 5.0` for a five-second clip."
    );
    assert_eq!(
        invalid_message(check(1, 1, 1.0, 1.0, 0, "gradient")),
        "Seed must be greater than 0. Use any positive integer, e.g. `seed = 42`."
    );
    assert_eq!(
        invalid_message(check(1, 1, 1.0, 1.0, 1, "")),
        "Scene name is missing. Add `[scene]` with `name = \"gradient\"` (or another scene from `frameseed list-scenes`)."
    );
}

#[test]
fn unknown_scene_lists_the_known_ones() {
    let expected = "Unknown scene 'blob'. Available scenes: gradient, noise_clouds, conway, particles, flow_field, \
                    sdf_shapes, mandelbrot, voronoi, plasma, lissajous, sine_wave, starfield, tunnel. \
                    Run `frameseed list-scenes` for details.";
    assert_eq!(invalid_message(check(1, 1, 1.0, 1.0, 1, "blob")), expected);
    match unknown_scene_error("blob") {
        ConfigError::Invalid(m) => assert_eq!(
            m,
            "Unknown scene 'blob'. Run `frameseed list-scenes` to see available scenes: gradient, noise_clouds, \
             conway, particles, flow_field, sdf_shapes, mandelbrot, voronoi, plasma, lissajous, sine_wave, \
             starfield, tunnel"
        ),
        _ => panic!("expected an invalid-settings error"),
    }
}

#[test]
fn every_known_scene_passes_validation() {
    for name in known_scenes() {
        assert!(is_known_scene(name));
        assert!(check(16, 16, 24.0, 1.0, 7, name).is_ok());
    }
    assert!(!is_known_scene("Gradient"));
    assert_eq!(known_scenes().len(), 13);
}

#[test]
fn gradient_palettes_by_name() {
    assert_eq!(palette_from_name("sunset"), (Rgba::new(255, 94, 77, 255), Rgba::new(255, 200, 87, 255)));
    assert_eq!(palette_from_name("midnight"), (Rgba::new(0, 0, 50, 255), Rgba::new(25, 25, 112, 255)));
    assert_eq!(palette_from_name("unknown"), (Rgba::black(), Rgba::white()));
    assert_eq!(known_palettes(), vec!["sunset", "ocean", "forest", "fire", "purple", "ice", "rose", "midnight"]);
}

#[test]
fn particles_default_to_snow() {
    assert_eq!(default_kind(), ParticleKind::Snow);
}

#[test]
fn gallery_lists_all_presets_with_slugs() {
    let items = gallery_entries();
    assert!(!items.is_empty());
    assert_eq!(items[0].slug, "gradient");
    assert_eq!(items[0].title, "Gradient");
}

#[test]
fn gallery_lists_every_preset_with_its_slug() {
    let entries = gallery_entries();
    assert_eq!(entries.len(), 19);
    assert_eq!(entries[0].slug, "gradient");
    assert_eq!(entries[0].title, "Gradient");
    assert_eq!(entries[18].slug, "ocean_gradient");
    assert!(entries.iter().any(|e| e.slug == "fractal_zoom" && e.description == "A mandelbrot scene"));
}

#[test]
fn export_format_parse_ignores_ascii_case() {
    assert_eq!(ExportFormat::parse("mp4").ok(), Some(ExportFormat::Mp4));
    assert_eq!(ExportFormat::parse("GIF").ok(), Some(ExportFormat::Gif));
    assert_eq!(ExportFormat::parse("WebM").ok(), Some(ExportFormat::WebM));
    match ExportFormat::parse("avi") {
        Err(ExportError::InvalidFormat(v)) => assert_eq!(v, "avi"),
        _ => panic!("expected an invalid format"),
    }
}

#[test]
fn export_format_kinds() {
    assert_eq!(ExportFormat::Mp4.kind(), "MP4 video");
    assert_eq!(ExportFormat::Gif.kind(), "GIF animation");
    assert_eq!(ExportFormat::WebM.kind(), "WebM video");
}

#[test]
fn export_args_for_each_format() {
    let mp4 = export_args(ExportFormat::Mp4, 640, 360, "24", Some("4M"));
    assert_eq!(
        mp4,
        vec![
            "-y", "-f", "rawvideo", "-pixel_format", "rgba", "-video_size", "640x360", "-framerate", "24", "-i",
            "pipe:0", "-c:v", "libx264", "-pix_fmt", "yuv420p", "-b:v", "4M",
        ]
    );
    let webm = export_args(ExportFormat::WebM, 8, 2, "30", None);
    assert_eq!(&webm[11..], &["-c:v", "libvpx-vp9", "-pix_fmt", "yuv420p"]);
    let gif = export_args(ExportFormat::Gif, 8, 2, "12.5", Some("1M"));
    assert_eq!(
        &gif[11..],
        &["-vf", "fps=12.5,split[s0][s1];[s0]palettegen[p];[s1][p]paletteuse", "-loop", "0"]
    );
    assert_eq!(gif[6], "8x2");
}

#[test]
fn sampled_frame_indices_include_first_and_last() {
    assert_eq!(sampled_frame_indices(0, 3), Vec::<u32>::new());
    assert_eq!(sampled_frame_indices(10, 3), vec![1, 4, 7, 10]);
    assert_eq!(sampled_frame_indices(10, 4), vec![1, 5, 9, 10]);
    assert_eq!(sampled_frame_indices(3, 0), vec![1, 2, 3]);
    assert_eq!(sampled_frame_indices(1, 12), vec![1]);
    assert_eq!(sampled_frame_indices(120, 100), vec![1, 101, 120]);
}

#[test]
fn contact_sheet_labels() {
    assert_eq!(frame_number_label(0), "f:0");
    assert_eq!(frame_number_label(120), "f:120");
}

#[test]
fn frame_file_names_are_zero_padded() {
    assert_eq!(frame_file_name(0), "frame_000000.png");
    assert_eq!(frame_file_name(42), "frame_000042.png");
    assert_eq!(frame_file_name(1_234_567), "frame_1234567.png");
}

#[test]
fn preset_files_are_toml() {
    assert_eq!(preset_file_name("nebula"), "nebula.toml");
    assert_eq!(preset_name_of("nebula.toml"), Some("nebula".to_string()));
    assert_eq!(preset_name_of("archive.tar.toml"), Some("archive.tar".to_string()));
    assert_eq!(preset_name_of("notes.txt"), None);
    assert_eq!(preset_name_of("toml"), None);
    assert_eq!(preset_name_of(".toml"), None);
}

#[test]
fn preset_names_are_filtered_and_sorted() {
    let files = vec![
        "snow.toml".to_string(),
        "README.md".to_string(),
        "capstone.toml".to_string(),
        "rain.toml".to_string(),
        "Zebra.toml".to_string(),
    ];
    assert_eq!(preset_names(&files), vec!["Zebra", "capstone", "rain", "snow"]);
    assert!(preset_names(&Vec::new()).is_empty());
}

#[test]
fn string_helpers() {
    assert_eq!(join_strs(&vec!["a", "b", "c"], ", "), "a, b, c");
    assert_eq!(join_strs(&vec![], ", "), "");
    assert!(str_le("abc", "abd"));
    assert!(str_le("ab", "abc"));
    assert!(!str_le("b", "abc"));
}

#[test]
fn base64_matches_the_standard_alphabet_and_padding() {
    assert_eq!(base64_encode(b""), "");
    assert_eq!(base64_encode(b"f"), "Zg==");
    assert_eq!(base64_encode(b"fo"), "Zm8=");
    assert_eq!(base64_encode(b"foo"), "Zm9v");
    assert_eq!(base64_encode(b"foobar"), "Zm9vYmFy");
    assert_eq!(base64_encode(&[0xfb, 0xff, 0x3e]), "+/8+");
}

#[test]
fn frame_to_base64_writes_a_png() {
    let mut frame = Frame::new(2, 2);
    frame.set_pixel(1, 1, Rgba::white());
    let text = frame_to_base64(&frame).unwrap();
    assert!(text.starts_with("iVBORw0KGgo"));
    assert_eq!(text.len() % 4, 0);
    let other = frame_to_base64(&Frame::new(2, 2)).unwrap();
    assert_ne!(text, other);
}

#[test]
fn frame_to_png_bytes_writes_the_png_signature() {
    let frame = Frame::new(3, 2);
    let png = frame_to_png_bytes(&frame).unwrap();
    assert_eq!(&png[..8], &[0x89, b'P', b'N', b'G', 0x0d, 0x0a, 0x1a, 0x0a]);
    assert_eq!(base64_encode(&png), frame_to_base64(&frame).unwrap());
}

#[test]
fn error_messages() {
    let missing = ConfigError::Io(IoProblem { not_found: true, text: "no such file".to_string() });
    assert_eq!(
        missing.message(),
        "Config file not found (no such file). Check the path or run `frameseed list-presets`."
    );
    let denied = ConfigError::Io(IoProblem { not_found: false, text: "denied".to_string() });
    assert_eq!(denied.message(), "Could not read config file: denied");
    assert_eq!(ConfigError::Invalid("bad".to_string()).message(), "bad");
    let render = RenderError::Io(IoProblem { not_found: false, text: "disk full".to_string() });
    assert_eq!(render.message(), "IO error: disk full");
    assert_eq!(RenderError::Config(ConfigError::Invalid("x".to_string())).message(), "x");
    assert_eq!(
        FfmpegError::NotInstalled.message(),
        "FFmpeg is not installed or not on your PATH. Install it with `brew install ffmpeg` (macOS) or \
         `apt install ffmpeg` (Linux), then try again."
    );
    assert_eq!(
        FfmpegError::EncodeFailed { kind: "GIF animation" }.message(),
        "FFmpeg failed while encoding the GIF animation. Check that frame PNGs exist in the sequence folder and \
         rerun the export."
    );
    assert_eq!(
        ExportError::InvalidFormat("avi".to_string()).message(),
        "Unsupported export format 'avi'. Use `mp4`, `gif`, or `webm`."
    );
    assert_eq!(
        ExportError::Io(IoProblem { not_found: true, text: "broken pipe".to_string() }).message(),
        "Could not write export files: broken pipe"
    );
    assert_eq!(ExportError::Ffmpeg(FfmpegError::NotInstalled).message(), FfmpegError::NotInstalled.message());
    assert_eq!(
        FfmpegError::Io(IoProblem { not_found: true, text: "missing".to_string() }).message(),
        "Could not run FFmpeg: missing"
    );
    let parse_err = toml::from_str::<toml::Value>("a = ").unwrap_err();
    let text = ConfigError::Parse(parse_err).message();
    assert!(text.starts_with("Invalid TOML in config file: "));
    assert!(text.ends_with(". Check field names, types, and `[scene]` settings."));
}

#[test]
fn gallery_slugs_are_distinct() {
    let entries = gallery_entries();
    for i in 0..entries.len() {
        for j in (i + 1)..entries.len() {
            assert_ne!(entries[i].slug, entries[j].slug);
        }
    }
}

#[test]
fn frame_file_names_differ_for_different_numbers() {
    let names: Vec<String> = [0u32, 1, 9, 10, 999_999, 1_000_000, 10_000_000, u32::MAX]
        .iter()
        .map(|&n| frame_file_name(n))
        .collect();
    for i in 0..names.len() {
        for j in (i + 1)..names.len() {
            assert_ne!(names[i], names[j]);
        }
    }
    assert_eq!(frame_file_name(u32::MAX), "frame_4294967295.png");
}

#[test]
fn contact_sheet_reads_the_files_the_render_writes() {
    let rendered: Vec<String> = (0..10u32).map(|i| frame_file_name(i + 1)).collect();
    let names = contact_sheet_file_names(10, 4);
    assert_eq!(names, vec!["frame_000001.png", "frame_000005.png", "frame_000009.png", "frame_000010.png"]);
    for (name, n) in names.iter().zip(sampled_frame_indices(10, 4)) {
        assert_eq!(name, &rendered[(n - 1) as usize]);
    }
    assert!(contact_sheet_file_names(0, 3).is_empty());
}
