//! Error types of configuration, rendering and export, with their messages.

use vstd::prelude::*;

verus! {

/// A TOML syntax or type error.
#[verifier::external_type_specification]
#[verifier::external_body]
pub struct ExTomlError(toml::de::Error);

/// An image encoding or decoding failure.
#[verifier::external_type_specification]
#[verifier::external_body]
pub struct ExImageError(image::ImageError);

/// An input/output failure as the messages read it: whether the path was
/// missing, and the text the operating system gave for the failure.
pub struct IoProblem {
    pub not_found: bool,
    pub text: String,
}

/// Why a configuration could not be used.
pub enum ConfigError {
    Io(IoProblem),
    Parse(toml::de::Error),
    Invalid(String),
}

/// Why rendering stopped.
pub enum RenderError {
    Config(ConfigError),
    Io(IoProblem),
    Image(image::ImageError),
}

/// Why the external encoder could not produce a file.
pub enum FfmpegError {
    NotInstalled,
    EncodeFailed { kind: &'static str },
    Io(IoProblem),
}

/// Why an export failed.
pub enum ExportError {
    Render(RenderError),
    Io(IoProblem),
    InvalidFormat(String),
    Ffmpeg(FfmpegError),
}

/// The text the TOML error displays (`toml::de::Error`'s `to_string`). No
/// clause states it: it depends on the error value, which is opaque to the
/// library.
#[verifier::external_body]
fn toml_error_text(e: &toml::de::Error) -> String {
    e.to_string()
}

/// The text the image error displays (`image::ImageError`'s `to_string`). No
/// clause states it: it depends on the error value, which is opaque to the
/// library.
#[verifier::external_body]
fn image_error_text(e: &image::ImageError) -> String {
    e.to_string()
}

/// `t` is `prefix`, some text, then `suffix`.
pub open spec fn wraps(t: Seq<char>, prefix: Seq<char>, suffix: Seq<char>) -> bool {
    exists|inner: Seq<char>| t == prefix + inner + suffix
}

/// The texts a configuration error may read as: its own message when invalid,
/// otherwise a fixed sentence around the underlying error's text.
pub open spec fn config_message(e: ConfigError, t: Seq<char>) -> bool {
    match e {
        ConfigError::Invalid(m) => t == m@,
        ConfigError::Io(p) => if p.not_found {
            t == "Config file not found ("@ + p.text@ + "). Check the path or run `frameseed list-presets`."@
        } else {
            t == "Could not read config file: "@ + p.text@
        },
        ConfigError::Parse(_) => wraps(
            t,
            "Invalid TOML in config file: "@,
            ". Check field names, types, and `[scene]` settings."@,
        ),
    }
}

pub open spec fn render_message(e: RenderError, t: Seq<char>) -> bool {
    match e {
        RenderError::Config(c) => config_message(c, t),
        RenderError::Io(p) => t == "IO error: "@ + p.text@,
        RenderError::Image(_) => wraps(t, "Image error: "@, ""@),
    }
}

pub open spec fn ffmpeg_message(e: FfmpegError, t: Seq<char>) -> bool {
    match e {
        FfmpegError::NotInstalled => t
            == "FFmpeg is not installed or not on your PATH. Install it with `brew install ffmpeg` (macOS) or `apt install ffmpeg` (Linux), then try again."@,
        FfmpegError::EncodeFailed { kind } => t == "FFmpeg failed while encoding the "@ + kind@
            + ". Check that frame PNGs exist in the sequence folder and rerun the export."@,
        FfmpegError::Io(p) => t == "Could not run FFmpeg: "@ + p.text@,
    }
}

pub open spec fn export_message(e: ExportError, t: Seq<char>) -> bool {
    match e {
        ExportError::Render(r) => render_message(r, t),
        ExportError::Io(p) => t == "Could not write export files: "@ + p.text@,
        ExportError::InvalidFormat(v) => t == "Unsupported export format '"@ + v@ + "'. Use `mp4`, `gif`, or `webm`."@,
        ExportError::Ffmpeg(f) => ffmpeg_message(f, t),
    }
}

/// `prefix`, then the text.
fn prefixed(prefix: &str, inner: &String) -> (t: String)
    ensures
        t@ == prefix@ + inner@,
{
    let mut t = String::from_str(prefix);
    t.append(inner.as_str());
    t
}

/// `prefix`, the text, then `suffix`.
fn surround(prefix: &str, inner: &String, suffix: &str) -> (t: String)
    ensures
        t@ == prefix@ + inner@ + suffix@,
        wraps(t@, prefix@, suffix@),
{
    let mut t = String::from_str(prefix);
    t.append(inner.as_str());
    t.append(suffix);
    t
}

impl ConfigError {
    /// The message shown to the user.
    pub fn message(&self) -> (t: String)
        ensures
            config_message(*self, t@),
    {
        match self {
            ConfigError::Io(p) => {
                if p.not_found {
                    surround("Config file not found (", &p.text, "). Check the path or run `frameseed list-presets`.")
                } else {
                    prefixed("Could not read config file: ", &p.text)
                }
            },
            ConfigError::Parse(e) => surround(
                "Invalid TOML in config file: ",
                &toml_error_text(e),
                ". Check field names, types, and `[scene]` settings.",
            ),
            ConfigError::Invalid(m) => String::from_str(m.as_str()),
        }
    }
}

impl RenderError {
    /// The message shown to the user.
    pub fn message(&self) -> (t: String)
        ensures
            render_message(*self, t@),
    {
        match self {
            RenderError::Config(e) => e.message(),
            RenderError::Io(p) => prefixed("IO error: ", &p.text),
            RenderError::Image(e) => surround("Image error: ", &image_error_text(e), ""),
        }
    }
}

impl FfmpegError {
    /// The message shown to the user.
    pub fn message(&self) -> (t: String)
        ensures
            ffmpeg_message(*self, t@),
    {
        match self {
            FfmpegError::NotInstalled => String::from_str(
                "FFmpeg is not installed or not on your PATH. Install it with `brew install ffmpeg` (macOS) or `apt install ffmpeg` (Linux), then try again.",
            ),
            FfmpegError::EncodeFailed { kind } => {
                let mut t = String::from_str("FFmpeg failed while encoding the ");
                t.append(kind);
                t.append(". Check that frame PNGs exist in the sequence folder and rerun the export.");
                t
            },
            FfmpegError::Io(p) => prefixed("Could not run FFmpeg: ", &p.text),
        }
    }
}

impl ExportError {
    /// The message shown to the user.
    pub fn message(&self) -> (t: String)
        ensures
            export_message(*self, t@),
    {
        match self {
            ExportError::Render(e) => e.message(),
            ExportError::Io(p) => prefixed("Could not write export files: ", &p.text),
            ExportError::InvalidFormat(v) => {
                let mut t = String::from_str("Unsupported export format '");
                t.append(v.as_str());
                t.append("'. Use `mp4`, `gif`, or `webm`.");
                t
            },
            ExportError::Ffmpeg(e) => e.message(),
        }
    }
}

} // verus!
