//! RGBA colors and their hex notation.

use vstd::prelude::*;
use crate::text::push_char;

verus! {

/// A color with four 8-bit channels.
#[derive(Debug, PartialEq, Eq, Structural, Copy, Clone)]
pub struct Rgba {
    pub r: u8,
    pub g: u8,
    pub b: u8,
    pub a: u8,
}

/// The color with the given channels.
pub open spec fn rgba(r: u8, g: u8, b: u8, a: u8) -> Rgba {
    Rgba { r, g, b, a }
}

/// The channel-wise complement of the color channels; alpha is kept.
pub open spec fn inverted(c: Rgba) -> Rgba {
    rgba((255 - c.r) as u8, (255 - c.g) as u8, (255 - c.b) as u8, c.a)
}

/// Value of a hexadecimal digit character (either case).
pub open spec fn hex_digit_value(c: char) -> Option<u8> {
    if '0' <= c && c <= '9' {
        Some((c as u32 - 48) as u8)
    } else if 'a' <= c && c <= 'f' {
        Some((c as u32 - 87) as u8)
    } else if 'A' <= c && c <= 'F' {
        Some((c as u32 - 55) as u8)
    } else {
        None
    }
}

/// Reading of a two-character field in base 16: both characters must be hex
/// digits.
pub open spec fn hex_field(hi: char, lo: char) -> Option<u8> {
    match (hex_digit_value(hi), hex_digit_value(lo)) {
        (Some(h), Some(l)) => Some((h * 16 + l) as u8),
        _ => None,
    }
}

/// The text with every leading `#` removed.
pub open spec fn strip_hashes(s: Seq<char>) -> Seq<char>
    decreases s.len(),
{
    if s.len() > 0 && s[0] == '#' {
        strip_hashes(s.drop_first())
    } else {
        s
    }
}

/// The opaque color written as six hex digits, after any leading `#`s.
pub open spec fn parse_hex_color(s: Seq<char>) -> Option<Rgba> {
    let h = strip_hashes(s);
    if h.len() != 6 {
        None
    } else {
        match (hex_field(h[0], h[1]), hex_field(h[2], h[3]), hex_field(h[4], h[5])) {
            (Some(r), Some(g), Some(b)) => Some(rgba(r, g, b, 255)),
            _ => None,
        }
    }
}

/// Lowercase hex digit character for `d < 16`.
pub open spec fn hex_digit_char(d: u8) -> char {
    if d < 10 {
        (d + 48) as char
    } else {
        (d + 87) as char
    }
}

/// `#rrggbb` in lowercase hex; alpha is not written.
pub open spec fn hex_string(c: Rgba) -> Seq<char> {
    seq![
        '#',
        hex_digit_char(c.r / 16),
        hex_digit_char(c.r % 16),
        hex_digit_char(c.g / 16),
        hex_digit_char(c.g % 16),
        hex_digit_char(c.b / 16),
        hex_digit_char(c.b % 16),
    ]
}

fn hex_digit(c: char) -> (v: Option<u8>)
    ensures
        v == hex_digit_value(c),
{
    if '0' <= c && c <= '9' {
        Some((c as u32 - 48) as u8)
    } else if 'a' <= c && c <= 'f' {
        Some((c as u32 - 87) as u8)
    } else if 'A' <= c && c <= 'F' {
        Some((c as u32 - 55) as u8)
    } else {
        None
    }
}

fn parse_field(hi: char, lo: char) -> (v: Option<u8>)
    ensures
        v == hex_field(hi, lo),
{
    match (hex_digit(hi), hex_digit(lo)) {
        (Some(h), Some(l)) => Some(h * 16 + l),
        _ => None,
    }
}

fn push_hex_byte(s: &mut String, v: u8)
    ensures
        final(s)@ == old(s)@.push(hex_digit_char(v / 16)).push(hex_digit_char(v % 16)),
{
    let hi = v / 16;
    let lo = v % 16;
    push_char(s, if hi < 10 { (hi + 48) as char } else { (hi + 87) as char });
    push_char(s, if lo < 10 { (lo + 48) as char } else { (lo + 87) as char });
}

impl Rgba {
    pub fn new(r: u8, g: u8, b: u8, a: u8) -> (c: Self)
        ensures
            c == rgba(r, g, b, a),
    {
        Rgba { r, g, b, a }
    }

    pub fn black() -> (c: Self)
        ensures
            c == rgba(0, 0, 0, 255),
    {
        Self::new(0, 0, 0, 255)
    }

    pub fn white() -> (c: Self)
        ensures
            c == rgba(255, 255, 255, 255),
    {
        Self::new(255, 255, 255, 255)
    }

    /// Complements the color channels and keeps alpha.
    pub fn invert(self) -> (c: Self)
        ensures
            c == inverted(self),
    {
        Self::new(255 - self.r, 255 - self.g, 255 - self.b, self.a)
    }

    /// Parses `"#ff5e4d"` or `"ff5e4d"`: any leading `#`s are skipped, then
    /// exactly six characters must form three base-16 fields. The result is
    /// opaque.
    pub fn from_hex(hex: &str) -> (c: Option<Self>)
        ensures
            c == parse_hex_color(hex@),
    {
        let n = hex.unicode_len();
        let mut start: usize = 0;
        assert(hex@.skip(0) =~= hex@);
        while start < n && hex.get_char(start) == '#'
            invariant
                start <= n,
                n == hex@.len(),
                strip_hashes(hex@) == strip_hashes(hex@.skip(start as int)),
            decreases n - start,
        {
            proof {
                let t = hex@.skip(start as int);
                assert(t[0] == '#');
                assert(t.drop_first() =~= hex@.skip(start + 1));
            }
            start = start + 1;
        }
        proof {
            let t = hex@.skip(start as int);
            if start < n {
                assert(t[0] == hex@[start as int]);
            }
            assert(strip_hashes(t) == t);
        }
        if n - start != 6 {
            return None;
        }
        let r = parse_field(hex.get_char(start), hex.get_char(start + 1));
        let g = parse_field(hex.get_char(start + 2), hex.get_char(start + 3));
        let b = parse_field(hex.get_char(start + 4), hex.get_char(start + 5));
        match (r, g, b) {
            (Some(r), Some(g), Some(b)) => Some(Self::new(r, g, b, 255)),
            _ => None,
        }
    }

    /// Formats as a lowercase `#rrggbb` string.
    pub fn to_hex(self) -> (s: String)
        ensures
            s@ == hex_string(self),
    {
        let mut s = String::new();
        push_char(&mut s, '#');
        push_hex_byte(&mut s, self.r);
        push_hex_byte(&mut s, self.g);
        push_hex_byte(&mut s, self.b);
        proof {
            assert(s@ =~= hex_string(self));
        }
        s
    }
}

/// Writing a color in hex and reading it back gives the same color channels,
/// made opaque.
pub proof fn lemma_hex_roundtrip(c: Rgba)
    ensures
        parse_hex_color(hex_string(c)) == Some(rgba(c.r, c.g, c.b, 255)),
{
    let s = hex_string(c);
    assert(s.drop_first() =~= s.subrange(1, 7));
    assert(strip_hashes(s.drop_first()) == s.drop_first());
    assert(strip_hashes(s) == s.drop_first());
    let h = s.drop_first();
    assert forall|v: u8| #[trigger] hex_field(hex_digit_char(v / 16), hex_digit_char(v % 16)) == Some(v) by {
        let hi = v / 16;
        let lo = v % 16;
        assert(hex_digit_value(hex_digit_char(hi)) == Some(hi));
        assert(hex_digit_value(hex_digit_char(lo)) == Some(lo));
    }
    assert(hex_field(h[0], h[1]) == Some(c.r));
    assert(hex_field(h[2], h[3]) == Some(c.g));
    assert(hex_field(h[4], h[5]) == Some(c.b));
}

/// Inverting twice gives back the same color.
pub proof fn lemma_invert_involution(c: Rgba)
    ensures
        inverted(inverted(c)) == c,
{
}

} // verus!
