//! Still-image encoding of frames: PNG bytes and their Base64 text.

use vstd::prelude::*;
use crate::frame::{Frame, raw_bytes};
use crate::text::push_char;

verus! {

/// The PNG file the image encoder writes for `width` by `height` RGBA bytes
/// `rgba`, or `None` when it reports an error.
pub uninterp spec fn png_encoding(width: u32, height: u32, rgba: Seq<u8>) -> Option<Seq<u8>>;

/// Encodes RGBA bytes as a PNG file in memory (`image::RgbaImage::from_raw`
/// followed by `write_to` with `ImageFormat::Png`). Claimed: the bytes on
/// success and the failure itself are determined by the arguments
/// (`png_encoding`); nothing is claimed about the PNG format itself.
#[verifier::external_body]
fn encode_png(width: u32, height: u32, rgba: Vec<u8>) -> (r: Result<Vec<u8>, image::ImageError>)
    requires
        rgba@.len() >= 4 * width * height,
    ensures
        match r {
            Ok(bytes) => png_encoding(width, height, rgba@) == Some(bytes@),
            Err(_) => png_encoding(width, height, rgba@) is None,
        },
{
    let image = image::RgbaImage::from_raw(width, height, rgba).expect("buffer holds every pixel");
    let mut cursor = std::io::Cursor::new(Vec::new());
    image.write_to(&mut cursor, image::ImageFormat::Png)?;
    Ok(cursor.into_inner())
}

/// Character of the standard Base64 alphabet for a six-bit value.
pub open spec fn b64_char(v: int) -> char {
    if v < 26 {
        (v + 65) as char
    } else if v < 52 {
        (v + 71) as char
    } else if v < 62 {
        (v - 4) as char
    } else if v == 62 {
        '+'
    } else {
        '/'
    }
}

/// Standard Base64 with `=` padding.
pub open spec fn base64_spec(b: Seq<u8>) -> Seq<char>
    decreases b.len(),
{
    if b.len() == 0 {
        Seq::empty()
    } else if b.len() == 1 {
        let x = b[0] as int;
        seq![b64_char(x / 4), b64_char((x % 4) * 16), '=', '=']
    } else if b.len() == 2 {
        let x = b[0] as int;
        let y = b[1] as int;
        seq![b64_char(x / 4), b64_char((x % 4) * 16 + y / 16), b64_char((y % 16) * 4), '=']
    } else {
        let x = b[0] as int;
        let y = b[1] as int;
        let z = b[2] as int;
        seq![
            b64_char(x / 4),
            b64_char((x % 4) * 16 + y / 16),
            b64_char((y % 16) * 4 + z / 64),
            b64_char(z % 64),
        ] + base64_spec(b.skip(3))
    }
}

fn b64_digit(v: u8) -> (c: char)
    requires
        v < 64,
    ensures
        c == b64_char(v as int),
{
    if v < 26 {
        (v + 65) as char
    } else if v < 52 {
        (v + 71) as char
    } else if v < 62 {
        (v - 4) as char
    } else if v == 62 {
        '+'
    } else {
        '/'
    }
}

/// Encodes bytes as standard Base64 text with `=` padding.
pub fn base64_encode(bytes: &[u8]) -> (text: String)
    ensures
        text@ == base64_spec(bytes@),
{
    let n = bytes.len();
    let mut s = String::new();
    let mut i: usize = 0;
    assert(bytes@.skip(0) =~= bytes@);
    while n - i >= 3
        invariant
            n == bytes@.len(),
            i <= n,
            base64_spec(bytes@) == s@ + base64_spec(bytes@.skip(i as int)),
        decreases n - i,
    {
        let b0 = bytes[i];
        let b1 = bytes[i + 1];
        let b2 = bytes[i + 2];
        push_char(&mut s, b64_digit(b0 / 4));
        push_char(&mut s, b64_digit((b0 % 4) * 16 + b1 / 16));
        push_char(&mut s, b64_digit((b1 % 16) * 4 + b2 / 64));
        push_char(&mut s, b64_digit(b2 % 64));
        proof {
            let t = bytes@.skip(i as int);
            assert(t[0] == b0 && t[1] == b1 && t[2] == b2);
            assert(t.skip(3) =~= bytes@.skip(i + 3));
        }
        i = i + 3;
    }
    let ghost t = bytes@.skip(i as int);
    if n - i == 1 {
        let b0 = bytes[i];
        assert(t[0] == b0);
        push_char(&mut s, b64_digit(b0 / 4));
        push_char(&mut s, b64_digit((b0 % 4) * 16));
        push_char(&mut s, '=');
        push_char(&mut s, '=');
    } else if n - i == 2 {
        let b0 = bytes[i];
        let b1 = bytes[i + 1];
        assert(t[0] == b0 && t[1] == b1);
        push_char(&mut s, b64_digit(b0 / 4));
        push_char(&mut s, b64_digit((b0 % 4) * 16 + b1 / 16));
        push_char(&mut s, b64_digit((b1 % 16) * 4));
        push_char(&mut s, '=');
    }
    assert(s@ =~= base64_spec(bytes@));
    s
}

/// Base64 text is four characters for every started group of three bytes.
pub proof fn lemma_base64_len(b: Seq<u8>)
    ensures
        base64_spec(b).len() == 4 * ((b.len() + 2) / 3),
    decreases b.len(),
{
    if b.len() >= 3 {
        lemma_base64_len(b.skip(3));
    }
}

/// The frame as a PNG file in memory.
pub fn frame_to_png_bytes(frame: &Frame) -> (r: Result<Vec<u8>, image::ImageError>)
    requires
        frame.pixels@.len() >= frame.width * frame.height,
        frame.pixels@.len() * 4 <= usize::MAX,
    ensures
        match png_encoding(frame.width, frame.height, raw_bytes(frame.pixels@)) {
            Some(png) => r matches Ok(bytes) && bytes@ == png,
            None => r is Err,
        },
{
    let bytes = frame.as_raw_rgba();
    proof {
        crate::frame::lemma_raw_bytes_len(frame.pixels@);
        assert(4 * frame.pixels@.len() >= 4 * frame.width * frame.height) by (nonlinear_arith)
            requires
                frame.pixels@.len() >= frame.width * frame.height,
        ;
    }
    encode_png(frame.width, frame.height, bytes)
}

/// The frame as a PNG image, written as Base64 text.
pub fn frame_to_base64(frame: &Frame) -> (r: Result<String, image::ImageError>)
    requires
        frame.pixels@.len() >= frame.width * frame.height,
        frame.pixels@.len() * 4 <= usize::MAX,
    ensures
        match png_encoding(frame.width, frame.height, raw_bytes(frame.pixels@)) {
            Some(png) => r matches Ok(text) && text@ == base64_spec(png),
            None => r is Err,
        },
{
    let png = frame_to_png_bytes(frame)?;
    Ok(base64_encode(png.as_slice()))
}

} // verus!
