//! Export formats, the encoder's command-line arguments, and contact-sheet sampling.

use vstd::prelude::*;
use crate::errors::ExportError;
use crate::text::{ascii_lowercase, decimal, eq_ignore_ascii_case, push_decimal, to_owned_string};

verus! {

/// Container formats an animation can be exported to.
#[derive(Debug, Clone, Copy, PartialEq, Eq, Structural)]
pub enum ExportFormat {
    Mp4,
    Gif,
    WebM,
}

/// The format a name selects, letters compared without regard to ASCII case.
pub open spec fn format_named(value: Seq<char>) -> Option<ExportFormat> {
    let v = ascii_lowercase(value);
    if v == "mp4"@ {
        Some(ExportFormat::Mp4)
    } else if v == "gif"@ {
        Some(ExportFormat::Gif)
    } else if v == "webm"@ {
        Some(ExportFormat::WebM)
    } else {
        None
    }
}

impl ExportFormat {
    /// Reads `mp4`, `gif` or `webm` in any letter case; any other text is an
    /// `InvalidFormat` error carrying the text as given.
    pub fn parse(value: &str) -> (r: Result<Self, ExportError>)
        ensures
            match format_named(value@) {
                Some(f) => r == Ok::<ExportFormat, ExportError>(f),
                None => r matches Err(ExportError::InvalidFormat(v)) && v@ == value@,
            },
    {
        if eq_ignore_ascii_case(value, "mp4") {
            Ok(ExportFormat::Mp4)
        } else if eq_ignore_ascii_case(value, "gif") {
            Ok(ExportFormat::Gif)
        } else if eq_ignore_ascii_case(value, "webm") {
            Ok(ExportFormat::WebM)
        } else {
            Err(ExportError::InvalidFormat(to_owned_string(value)))
        }
    }

    /// What the format produces, as named in encoder failure messages.
    pub fn kind(self) -> (k: &'static str)
        ensures
            k@ == match self {
                ExportFormat::Mp4 => "MP4 video"@,
                ExportFormat::Gif => "GIF animation"@,
                ExportFormat::WebM => "WebM video"@,
            },
    {
        match self {
            ExportFormat::Mp4 => "MP4 video",
            ExportFormat::Gif => "GIF animation",
            ExportFormat::WebM => "WebM video",
        }
    }
}

/// Arguments that select the codec (and bitrate) of a format, after the input.
pub open spec fn codec_args(format: ExportFormat, fps_text: Seq<char>, bitrate: Option<Seq<char>>) -> Seq<Seq<char>> {
    match format {
        ExportFormat::Mp4 => seq!["-c:v"@, "libx264"@, "-pix_fmt"@, "yuv420p"@] + match bitrate {
            Some(b) => seq!["-b:v"@, b],
            None => Seq::empty(),
        },
        ExportFormat::WebM => seq!["-c:v"@, "libvpx-vp9"@, "-pix_fmt"@, "yuv420p"@] + match bitrate {
            Some(b) => seq!["-b:v"@, b],
            None => Seq::empty(),
        },
        ExportFormat::Gif => seq![
            "-vf"@,
            "fps="@ + fps_text + ",split[s0][s1];[s0]palettegen[p];[s1][p]paletteuse"@,
            "-loop"@,
            "0"@,
        ],
    }
}

/// Encoder arguments for raw RGBA frames of `width` by `height` read from
/// standard input at `fps_text` frames per second, up to (not including) the
/// output path.
pub open spec fn export_args_spec(
    format: ExportFormat,
    width: u32,
    height: u32,
    fps_text: Seq<char>,
    bitrate: Option<Seq<char>>,
) -> Seq<Seq<char>> {
    seq![
        "-y"@,
        "-f"@,
        "rawvideo"@,
        "-pixel_format"@,
        "rgba"@,
        "-video_size"@,
        decimal(width as nat) + "x"@ + decimal(height as nat),
        "-framerate"@,
        fps_text,
        "-i"@,
        "pipe:0"@,
    ] + codec_args(format, fps_text, bitrate)
}

/// A requested bitrate reaches the video encoders: for MP4 and WebM the
/// arguments with bitrate `b` are those without one followed by `-b:v` and
/// `b`. A GIF has no bitrate, so the request changes nothing. The arguments
/// without a bitrate end in the format's codec: `-c:v`, the MP4 or WebM
/// encoder, and the 4:2:0 pixel format.
pub proof fn lemma_bitrate_reaches_video_encoders(
    format: ExportFormat,
    width: u32,
    height: u32,
    fps_text: Seq<char>,
    b: Seq<char>,
)
    ensures
        format != ExportFormat::Gif ==> export_args_spec(format, width, height, fps_text, Some(b))
            == export_args_spec(format, width, height, fps_text, None) + seq!["-b:v"@, b],
        format == ExportFormat::Gif ==> export_args_spec(format, width, height, fps_text, Some(b))
            == export_args_spec(format, width, height, fps_text, None),
        format != ExportFormat::Gif ==> {
            let a = export_args_spec(format, width, height, fps_text, None);
            &&& a.len() == 15
            &&& a[11] == "-c:v"@
            &&& a[12] == (if format == ExportFormat::Mp4 { "libx264"@ } else { "libvpx-vp9"@ })
            &&& a[13] == "-pix_fmt"@
            &&& a[14] == "yuv420p"@
        },
{
    let head = seq![
        "-y"@,
        "-f"@,
        "rawvideo"@,
        "-pixel_format"@,
        "rgba"@,
        "-video_size"@,
        decimal(width as nat) + "x"@ + decimal(height as nat),
        "-framerate"@,
        fps_text,
        "-i"@,
        "pipe:0"@,
    ];
    assert(export_args_spec(format, width, height, fps_text, Some(b)) == head + codec_args(format, fps_text, Some(b)));
    assert(export_args_spec(format, width, height, fps_text, None) == head + codec_args(format, fps_text, None));
    if format != ExportFormat::Gif {
        let base = codec_args(format, fps_text, None);
        assert(codec_args(format, fps_text, Some(b)) =~= base + seq!["-b:v"@, b]);
        assert(head + (base + seq!["-b:v"@, b]) =~= (head + base) + seq!["-b:v"@, b]);
    }
}

pub open spec fn string_views(v: Seq<String>) -> Seq<Seq<char>> {
    v.map_values(|s: String| s@)
}

fn push_str_arg(args: &mut Vec<String>, s: &str)
    ensures
        string_views(final(args)@) == string_views(old(args)@).push(s@),
{
    args.push(to_owned_string(s));
    proof {
        assert(string_views(final(args)@) =~= string_views(old(args)@).push(s@));
    }
}

fn push_string_arg(args: &mut Vec<String>, s: String)
    ensures
        string_views(final(args)@) == string_views(old(args)@).push(s@),
{
    let ghost v = s@;
    args.push(s);
    proof {
        assert(string_views(final(args)@) =~= string_views(old(args)@).push(v));
    }
}

/// Appends the codec arguments of `format` (see `codec_args`).
fn push_codec_args(args: &mut Vec<String>, format: ExportFormat, fps_text: &str, bitrate: Option<&str>)
    ensures
        string_views(final(args)@) == string_views(old(args)@) + codec_args(
            format,
            fps_text@,
            match bitrate {
                Some(b) => Some(b@),
                None => None,
            },
        ),
{
    let ghost head = string_views(args@);
    match format {
        ExportFormat::Mp4 | ExportFormat::WebM => {
            push_str_arg(args, "-c:v");
            match format {
                ExportFormat::Mp4 => push_str_arg(args, "libx264"),
                _ => push_str_arg(args, "libvpx-vp9"),
            }
            push_str_arg(args, "-pix_fmt");
            push_str_arg(args, "yuv420p");
            match bitrate {
                Some(b) => {
                    push_str_arg(args, "-b:v");
                    push_str_arg(args, b);
                },
                None => {},
            }
        },
        ExportFormat::Gif => {
            push_str_arg(args, "-vf");
            let mut vf = String::from_str("fps=");
            vf.append(fps_text);
            vf.append(",split[s0][s1];[s0]palettegen[p];[s1][p]paletteuse");
            push_string_arg(args, vf);
            push_str_arg(args, "-loop");
            push_str_arg(args, "0");
        },
    }
    proof {
        let b = match bitrate {
            Some(b) => Some(b@),
            None => None,
        };
        assert(string_views(final(args)@) =~= head + codec_args(format, fps_text@, b));
    }
}

/// Encoder arguments that read a numbered image sequence at `fps_text` frames
/// per second starting at `start_frame`, up to the input pattern, which follows.
pub open spec fn sequence_input_args_spec(fps_text: Seq<char>, start_frame: u32) -> Seq<Seq<char>> {
    seq!["-y"@, "-framerate"@, fps_text, "-start_number"@, decimal(start_frame as nat), "-i"@]
}

/// Encoder arguments after the input pattern of an image sequence: the number
/// of frames to read, then the codec of `format`; the output path follows.
pub open spec fn sequence_output_args_spec(format: ExportFormat, fps_text: Seq<char>, frame_count: u32) -> Seq<Seq<char>> {
    seq!["-frames:v"@, decimal(frame_count as nat)] + codec_args(format, fps_text, None)
}

/// The encoder's arguments before the input pattern of an image sequence.
pub fn sequence_input_args(fps_text: &str, start_frame: u32) -> (args: Vec<String>)
    ensures
        string_views(args@) == sequence_input_args_spec(fps_text@, start_frame),
{
    let mut args: Vec<String> = Vec::new();
    push_str_arg(&mut args, "-y");
    push_str_arg(&mut args, "-framerate");
    push_str_arg(&mut args, fps_text);
    push_str_arg(&mut args, "-start_number");
    let mut start = String::new();
    push_decimal(&mut start, start_frame as u64);
    push_string_arg(&mut args, start);
    push_str_arg(&mut args, "-i");
    assert(string_views(args@) =~= sequence_input_args_spec(fps_text@, start_frame));
    args
}

/// The encoder's arguments between the input pattern and the output path of
/// an image sequence.
pub fn sequence_output_args(format: ExportFormat, fps_text: &str, frame_count: u32) -> (args: Vec<String>)
    ensures
        string_views(args@) == sequence_output_args_spec(format, fps_text@, frame_count),
{
    let mut args: Vec<String> = Vec::new();
    push_str_arg(&mut args, "-frames:v");
    let mut count = String::new();
    push_decimal(&mut count, frame_count as u64);
    push_string_arg(&mut args, count);
    push_codec_args(&mut args, format, fps_text, None);
    assert(string_views(args@) =~= sequence_output_args_spec(format, fps_text@, frame_count));
    args
}

/// The encoder's arguments for an export, before the output path.
pub fn export_args(format: ExportFormat, width: u32, height: u32, fps_text: &str, bitrate: Option<&str>) -> (args: Vec<String>)
    ensures
        string_views(args@) == export_args_spec(
            format,
            width,
            height,
            fps_text@,
            match bitrate {
                Some(b) => Some(b@),
                None => None,
            },
        ),
{
    let mut args: Vec<String> = Vec::new();
    push_str_arg(&mut args, "-y");
    push_str_arg(&mut args, "-f");
    push_str_arg(&mut args, "rawvideo");
    push_str_arg(&mut args, "-pixel_format");
    push_str_arg(&mut args, "rgba");
    push_str_arg(&mut args, "-video_size");
    let mut size = String::new();
    push_decimal(&mut size, width as u64);
    size.append("x");
    push_decimal(&mut size, height as u64);
    push_string_arg(&mut args, size);
    push_str_arg(&mut args, "-framerate");
    push_str_arg(&mut args, fps_text);
    push_str_arg(&mut args, "-i");
    push_str_arg(&mut args, "pipe:0");
    let ghost head = string_views(args@);
    push_codec_args(&mut args, format, fps_text, bitrate);
    proof {
        let b = match bitrate {
            Some(b) => Some(b@),
            None => None,
        };
        assert(string_views(args@) =~= export_args_spec(format, width, height, fps_text@, b));
    }
    args
}

/// Frame numbers shown on a contact sheet: `1`, `1 + step`, `1 + 2 * step`, …
/// up to `total_frames`, always ending with `total_frames` (a step of zero
/// counts as one). No frames give no numbers.
pub open spec fn sampled_indices(total_frames: u32, step: u32) -> Seq<u32> {
    if total_frames == 0 {
        Seq::empty()
    } else {
        let s: int = if step < 1 { 1 } else { step as int };
        let count = (total_frames - 1) / s + 1;
        let base = Seq::new(count as nat, |i: int| (1 + i * s) as u32);
        if base.last() == total_frames {
            base
        } else {
            base.push(total_frames)
        }
    }
}

/// The frame numbers to place on a contact sheet (see `sampled_indices`).
pub fn sampled_frame_indices(total_frames: u32, step: u32) -> (indices: Vec<u32>)
    ensures
        indices@ == sampled_indices(total_frames, step),
{
    if total_frames == 0 {
        return Vec::new();
    }
    let s: u64 = if step < 1 { 1 } else { step as u64 };
    let ghost count = (total_frames - 1) / (s as int) + 1;
    let ghost base = Seq::new(count as nat, |i: int| (1 + i * s) as u32);
    let mut indices: Vec<u32> = Vec::new();
    let mut next: u64 = 1;
    let mut i: u64 = 0;
    proof {
        assert(count >= 1) by (nonlinear_arith)
            requires
                count == (total_frames - 1) / (s as int) + 1,
                s >= 1,
                total_frames >= 1,
        ;
    }
    while next <= total_frames as u64
        invariant
            1 <= s <= u32::MAX,
            total_frames >= 1,
            count == (total_frames - 1) / (s as int) + 1,
            base == Seq::new(count as nat, |i: int| (1 + i * s) as u32),
            next == 1 + i * s,
            i <= count,
            i < count <==> next <= total_frames,
            indices@ == base.take(i as int),
        decreases count - i,
    {
        proof {
            assert(i + 1 < count <==> 1 + (i + 1) * s <= total_frames) by (nonlinear_arith)
                requires
                    s >= 1,
                    count == (total_frames - 1) / (s as int) + 1,
                    i < count,
            ;
            assert(1 + (i + 1) * s == 1 + i * s + s) by (nonlinear_arith);
        }
        indices.push(next as u32);
        proof {
            assert(indices@ =~= base.take(i + 1));
        }
        next = next + s;
        i = i + 1;
    }
    proof {
        assert(indices@ =~= base);
    }
    let last = indices[indices.len() - 1];
    if last != total_frames {
        indices.push(total_frames);
    }
    indices
}

/// The sampled numbers start at 1, rise strictly, and end at the last frame.
pub proof fn lemma_sampled_indices_shape(total_frames: u32, step: u32)
    requires
        total_frames >= 1,
    ensures
        sampled_indices(total_frames, step).len() >= 1,
        sampled_indices(total_frames, step)[0] == 1,
        sampled_indices(total_frames, step).last() == total_frames,
        forall|i: int, j: int|
            0 <= i < j < sampled_indices(total_frames, step).len() ==> #[trigger] sampled_indices(total_frames, step)[i]
                < #[trigger] sampled_indices(total_frames, step)[j],
        forall|i: int|
            0 <= i < sampled_indices(total_frames, step).len() ==> 1 <= #[trigger] sampled_indices(total_frames, step)[i]
                <= total_frames,
{
    let s: int = if step < 1 { 1 } else { step as int };
    let count = (total_frames - 1) / s + 1;
    let base = Seq::new(count as nat, |i: int| (1 + i * s) as u32);
    assert forall|i: int| 0 <= i < count implies 1 <= #[trigger] base[i] <= total_frames && base[i] == 1 + i * s by {
        assert(1 <= 1 + i * s <= total_frames) by (nonlinear_arith)
            requires
                s >= 1,
                count == (total_frames - 1) / s + 1,
                0 <= i < count,
        ;
    }
    assert forall|i: int, j: int| 0 <= i < j < count implies #[trigger] base[i] < #[trigger] base[j] by {
        assert(i * s < j * s) by (nonlinear_arith)
            requires
                s >= 1,
                i < j,
        ;
    }
    assert(count >= 1) by (nonlinear_arith)
        requires
            count == (total_frames - 1) / s + 1,
            s >= 1,
            total_frames >= 1,
    ;
    assert(base[0] == 1);
}

/// The label under a contact-sheet thumbnail: `f:` and the frame number.
pub fn frame_number_label(frame_number: u32) -> (label: String)
    ensures
        label@ == "f:"@ + decimal(frame_number as nat),
{
    let mut s = String::from_str("f:");
    push_decimal(&mut s, frame_number as u64);
    s
}

} // verus!
