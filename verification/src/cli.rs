//! Decisions of the command line front end: which configuration to render and
//! in which format.

use vstd::prelude::*;
use crate::export::ExportFormat;
use crate::text::digits_value;

verus! {

/// Video formats offered by the `render` command.
#[derive(Debug, Clone, Copy, PartialEq, Eq, Structural)]
pub enum OutputFormat {
    Mp4,
    Gif,
}

impl OutputFormat {
    /// The export format that renders this output format.
    pub fn export_format(self) -> (f: ExportFormat)
        ensures
            f == match self {
                OutputFormat::Mp4 => ExportFormat::Mp4,
                OutputFormat::Gif => ExportFormat::Gif,
            },
    {
        match self {
            OutputFormat::Mp4 => ExportFormat::Mp4,
            OutputFormat::Gif => ExportFormat::Gif,
        }
    }

    /// Where a render in this format is written when no output path is given.
    pub fn default_output(self) -> (p: &'static str)
        ensures
            p@ == match self {
                OutputFormat::Mp4 => "output/video.mp4"@,
                OutputFormat::Gif => "output/animation.gif"@,
            },
    {
        match self {
            OutputFormat::Mp4 => "output/video.mp4",
            OutputFormat::Gif => "output/animation.gif",
        }
    }
}

/// Where the configuration of a render comes from: a file, or a stored preset.
pub enum ConfigSource<P> {
    File(P),
    Preset(String),
}

/// The configuration source given on the command line: exactly one of a
/// configuration path and a preset name must be given.
pub fn config_source<P>(config: Option<P>, preset: Option<String>) -> (r: Result<ConfigSource<P>, String>)
    ensures
        match (config, preset) {
            (Some(path), None) => r matches Ok(ConfigSource::File(p)) && p == path,
            (None, Some(name)) => r matches Ok(ConfigSource::Preset(n)) && n == name,
            _ => r matches Err(m) && m@ == "Provide either --config or --preset"@,
        },
{
    match (config, preset) {
        (Some(path), None) => Ok(ConfigSource::File(path)),
        (None, Some(name)) => Ok(ConfigSource::Preset(name)),
        _ => Err(String::from_str("Provide either --config or --preset")),
    }
}

/// Every character is a decimal digit.
pub open spec fn all_digits(s: Seq<char>) -> bool {
    forall|i: int| 0 <= i < s.len() ==> '0' <= #[trigger] s[i] && s[i] <= '9'
}

/// The unsigned 64-bit number written in decimal: an optional `+`, then at
/// least one digit, with a value that fits in 64 bits.
pub open spec fn decimal_u64(s: Seq<char>) -> Option<u64> {
    let d = if s.len() > 0 && s[0] == '+' {
        s.drop_first()
    } else {
        s
    };
    if d.len() > 0 && all_digits(d) && digits_value(d) <= u64::MAX {
        Some(digits_value(d) as u64)
    } else {
        None
    }
}

/// Appending digits never makes the value smaller.
proof fn lemma_digits_value_grows(s: Seq<char>, k: int)
    requires
        all_digits(s),
        0 <= k <= s.len(),
    ensures
        digits_value(s.take(k)) <= digits_value(s),
    decreases s.len() - k,
{
    if k < s.len() {
        lemma_digits_value_grows(s, k + 1);
        assert(s.take(k + 1).drop_last() =~= s.take(k));
        assert('0' <= s.take(k + 1).last());
    } else {
        assert(s.take(k) =~= s);
    }
}

/// Reads an unsigned 64-bit decimal number (see `decimal_u64`).
pub fn parse_decimal_u64(text: &str) -> (v: Option<u64>)
    ensures
        v == decimal_u64(text@),
{
    let n = text.unicode_len();
    let start: usize = if n > 0 && text.get_char(0) == '+' { 1 } else { 0 };
    let ghost d = if text@.len() > 0 && text@[0] == '+' {
        text@.drop_first()
    } else {
        text@
    };
    assert(d =~= text@.skip(start as int));
    if start >= n {
        return None;
    }
    let mut value: u64 = 0;
    let mut i: usize = start;
    assert(d.take(0) =~= Seq::<char>::empty());
    while i < n
        invariant
            n == text@.len(),
            d == text@.skip(start as int),
            d == (if text@.len() > 0 && text@[0] == '+' {
                text@.drop_first()
            } else {
                text@
            }),
            d.len() > 0,
            start <= i <= n,
            all_digits(d.take(i - start)),
            value == digits_value(d.take(i - start)),
        decreases n - i,
    {
        let c = text.get_char(i);
        assert(d[i - start] == c);
        if !('0' <= c && c <= '9') {
            assert(!all_digits(d));
            return None;
        }
        let digit: u64 = (c as u32 - 48) as u64;
        let ghost next = d.take(i - start + 1);
        assert(next.drop_last() =~= d.take(i - start));
        assert(next.last() == c);
        assert(digits_value(next) == value * 10 + digit);
        if value > (0xFFFF_FFFF_FFFF_FFFF - digit) / 10 {
            proof {
                assert(digits_value(next) > u64::MAX);
                if all_digits(d) {
                    lemma_digits_value_grows(d, i - start + 1);
                }
            }
            return None;
        }
        value = value * 10 + digit;
        i = i + 1;
        assert(all_digits(d.take(i - start)));
    }
    assert(d.take(n - start) =~= d);
    Some(value)
}

/// A seed given on the command line: a number, or a request for a random one.
pub enum SeedChoice {
    Random,
    Fixed(u64),
}

/// The seed a command-line value asks for: `random`, or a decimal number.
pub open spec fn seed_choice(s: Seq<char>) -> Option<SeedChoice> {
    if s == "random"@ {
        Some(SeedChoice::Random)
    } else {
        match decimal_u64(s) {
            Some(v) => Some(SeedChoice::Fixed(v)),
            None => None,
        }
    }
}

/// Reads a seed given on the command line; `None` for text that is neither
/// `random` nor a number.
pub fn parse_seed(text: &str) -> (c: Option<SeedChoice>)
    ensures
        c == seed_choice(text@),
{
    if crate::text::str_eq(text, "random") {
        return Some(SeedChoice::Random);
    }
    match parse_decimal_u64(text) {
        Some(v) => Some(SeedChoice::Fixed(v)),
        None => None,
    }
}

} // verus!
