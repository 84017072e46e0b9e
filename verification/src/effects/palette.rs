//! Palette quantization: each pixel becomes the nearest color of a fixed palette.

use vstd::prelude::*;
use crate::color::{Rgba, rgba};
use crate::frame::{Frame, same_shape};
use crate::scenes::{gradient_palette, known_palette_names};
use crate::text::{str_eq, to_owned_string};

verus! {

pub struct PaletteQuantizationEffect {
    pub palette: Vec<Rgba>,
}

/// Settings of the palette effect as written in a configuration.
pub struct PaletteQuantizationParams {
    pub name: String,
}

/// The palette named when a configuration gives none.
pub fn default_palette_name() -> (s: String)
    ensures
        s@ == "cga16"@,
{
    to_owned_string("cga16")
}

impl Default for PaletteQuantizationParams {
    fn default() -> (p: Self)
        ensures
            p.name@ == "cga16"@,
    {
        PaletteQuantizationParams { name: default_palette_name() }
    }
}

/// Squared distance between the color channels of two colors (alpha ignored).
pub open spec fn color_distance(a: Rgba, b: Rgba) -> int {
    (a.r - b.r) * (a.r - b.r) + (a.g - b.g) * (a.g - b.g) + (a.b - b.b) * (a.b - b.b)
}

/// The palette entry closest to `c` among the first `n` entries; the earliest
/// entry wins a tie.
pub open spec fn nearest_among(c: Rgba, palette: Seq<Rgba>, n: int) -> Rgba
    decreases n,
{
    if n <= 1 {
        palette[0]
    } else {
        let best = nearest_among(c, palette, n - 1);
        if color_distance(c, palette[n - 1]) < color_distance(c, best) {
            palette[n - 1]
        } else {
            best
        }
    }
}

/// The palette entry closest to `c`; the earliest wins a tie.
pub open spec fn nearest_color(c: Rgba, palette: Seq<Rgba>) -> Rgba {
    nearest_among(c, palette, palette.len() as int)
}

/// Squared channel distance between two colors.
pub fn color_distance_squared(a: Rgba, b: Rgba) -> (d: u32)
    ensures
        d == color_distance(a, b),
{
    let r: i32 = a.r as i32 - b.r as i32;
    let g: i32 = a.g as i32 - b.g as i32;
    let bl: i32 = a.b as i32 - b.b as i32;
    assert(r * r <= 65025 && g * g <= 65025 && bl * bl <= 65025) by (nonlinear_arith)
        requires
            -255 <= r <= 255,
            -255 <= g <= 255,
            -255 <= bl <= 255,
    ;
    assert(r * r >= 0 && g * g >= 0 && bl * bl >= 0) by (nonlinear_arith);
    (r * r + g * g + bl * bl) as u32
}

/// The palette color nearest to `pixel`; the first of several equally near colors wins.
pub fn nearest_palette_color(pixel: Rgba, palette: &[Rgba]) -> (best: Rgba)
    requires
        palette@.len() > 0,
    ensures
        best == nearest_color(pixel, palette@),
{
    let mut best = palette[0];
    let mut best_distance_squared = color_distance_squared(pixel, best);
    let n = palette.len();
    let mut i: usize = 1;
    while i < n
        invariant
            n == palette@.len(),
            1 <= i <= n,
            best == nearest_among(pixel, palette@, i as int),
            best_distance_squared == color_distance(pixel, best),
        decreases n - i,
    {
        let color = palette[i];
        let distance = color_distance_squared(pixel, color);
        if distance < best_distance_squared {
            best = color;
            best_distance_squared = distance;
        }
        i = i + 1;
    }
    best
}

/// The chosen color is a palette entry, and no entry is nearer.
pub proof fn lemma_nearest_is_closest(c: Rgba, palette: Seq<Rgba>, n: int)
    requires
        1 <= n <= palette.len(),
    ensures
        exists|i: int| 0 <= i < n && palette[i] == nearest_among(c, palette, n),
        forall|j: int| 0 <= j < n ==> color_distance(c, nearest_among(c, palette, n)) <= color_distance(c, #[trigger] palette[j]),
    decreases n,
{
    if n > 1 {
        lemma_nearest_is_closest(c, palette, n - 1);
        let best = nearest_among(c, palette, n - 1);
        if color_distance(c, palette[n - 1]) < color_distance(c, best) {
            assert(palette[n - 1] == nearest_among(c, palette, n));
        } else {
            let i = choose|i: int| 0 <= i < n - 1 && palette[i] == best;
            assert(palette[i] == nearest_among(c, palette, n));
        }
    } else {
        assert(palette[0] == nearest_among(c, palette, n));
    }
}

/// Quantizing a color that is already in the palette keeps its color channels.
pub proof fn lemma_palette_color_is_fixed(c: Rgba, palette: Seq<Rgba>, i: int)
    requires
        0 <= i < palette.len(),
        palette[i] == c,
    ensures
        color_distance(c, nearest_color(c, palette)) == 0,
        nearest_color(c, palette).r == c.r,
        nearest_color(c, palette).g == c.g,
        nearest_color(c, palette).b == c.b,
{
    lemma_nearest_is_closest(c, palette, palette.len() as int);
    let q = nearest_color(c, palette);
    assert(color_distance(c, palette[i]) == 0);
    assert((c.r - q.r) * (c.r - q.r) >= 0 && (c.g - q.g) * (c.g - q.g) >= 0 && (c.b - q.b) * (c.b - q.b)
        >= 0) by (nonlinear_arith);
    assert((c.r - q.r) * (c.r - q.r) == 0 ==> c.r == q.r) by (nonlinear_arith);
    assert((c.g - q.g) * (c.g - q.g) == 0 ==> c.g == q.g) by (nonlinear_arith);
    assert((c.b - q.b) * (c.b - q.b) == 0 ==> c.b == q.b) by (nonlinear_arith);
}

/// The entry chosen among the first `n` sits at some index `k`: no entry before
/// it is as near, and no entry among the first `n` is nearer.
proof fn lemma_nearest_first_index(c: Rgba, palette: Seq<Rgba>, n: int) -> (k: int)
    requires
        1 <= n <= palette.len(),
    ensures
        0 <= k < n,
        palette[k] == nearest_among(c, palette, n),
        forall|j: int| 0 <= j < k ==> color_distance(c, palette[k]) < color_distance(c, #[trigger] palette[j]),
        forall|j: int| 0 <= j < n ==> color_distance(c, palette[k]) <= color_distance(c, #[trigger] palette[j]),
    decreases n,
{
    if n == 1 {
        0
    } else {
        let k0 = lemma_nearest_first_index(c, palette, n - 1);
        if color_distance(c, palette[n - 1]) < color_distance(c, palette[k0]) {
            n - 1
        } else {
            k0
        }
    }
}

/// Colors with the same channels are equally far from any color.
proof fn lemma_zero_distance_same_channels(a: Rgba, b: Rgba)
    requires
        color_distance(a, b) == 0,
    ensures
        a.r == b.r,
        a.g == b.g,
        a.b == b.b,
        forall|c: Rgba| color_distance(c, a) == #[trigger] color_distance(c, b),
{
    assert((a.r - b.r) * (a.r - b.r) >= 0 && (a.g - b.g) * (a.g - b.g) >= 0 && (a.b - b.b) * (a.b - b.b)
        >= 0) by (nonlinear_arith);
    assert((a.r - b.r) * (a.r - b.r) == 0 ==> a.r == b.r) by (nonlinear_arith);
    assert((a.g - b.g) * (a.g - b.g) == 0 ==> a.g == b.g) by (nonlinear_arith);
    assert((a.b - b.b) * (a.b - b.b) == 0 ==> a.b == b.b) by (nonlinear_arith);
}

/// Quantizing a quantized color changes nothing: the chosen entry is the
/// first one at its distance, so it is also the first entry at distance zero
/// from itself.
pub proof fn lemma_nearest_is_stable(c: Rgba, palette: Seq<Rgba>)
    requires
        palette.len() > 0,
    ensures
        nearest_color(nearest_color(c, palette), palette) == nearest_color(c, palette),
{
    let n = palette.len() as int;
    let k = lemma_nearest_first_index(c, palette, n);
    let q = palette[k];
    let k2 = lemma_nearest_first_index(q, palette, n);
    assert(color_distance(q, q) == 0);
    assert(color_distance(q, palette[k2]) >= 0) by (nonlinear_arith);
    assert(color_distance(q, palette[k2]) == 0);
    if k2 < k {
        lemma_zero_distance_same_channels(q, palette[k2]);
        assert(color_distance(c, palette[k2]) == color_distance(c, q));
        assert(false);
    } else if k2 > k {
        assert(color_distance(q, palette[k]) == 0);
        assert(false);
    }
}

/// Quantizing a frame twice gives the same pixels as quantizing it once.
pub proof fn lemma_quantize_twice(original: Seq<Rgba>, once: Seq<Rgba>, twice: Seq<Rgba>, palette: Seq<Rgba>)
    requires
        palette.len() > 0,
        once.len() == original.len(),
        twice.len() == once.len(),
        forall|i: int| 0 <= i < once.len() ==> #[trigger] once[i] == nearest_color(original[i], palette),
        forall|i: int| 0 <= i < twice.len() ==> #[trigger] twice[i] == nearest_color(once[i], palette),
    ensures
        twice == once,
{
    assert forall|i: int| 0 <= i < twice.len() implies twice[i] == once[i] by {
        lemma_nearest_is_stable(original[i], palette);
    }
    assert(twice =~= once);
}

/// The sixteen CGA colors.
pub open spec fn cga16_colors() -> Seq<Rgba> {
    seq![
        rgba(0, 0, 0, 255),
        rgba(255, 0, 0, 255),
        rgba(0, 255, 0, 255),
        rgba(0, 0, 255, 255),
        rgba(255, 255, 0, 255),
        rgba(0, 255, 255, 255),
        rgba(255, 0, 255, 255),
        rgba(255, 255, 255, 255),
        rgba(128, 128, 128, 255),
        rgba(128, 0, 0, 255),
        rgba(0, 128, 0, 255),
        rgba(0, 0, 128, 255),
        rgba(128, 128, 0, 255),
        rgba(0, 128, 128, 255),
        rgba(128, 0, 128, 255),
        rgba(0, 0, 170, 255),
    ]
}

/// The four Game Boy grays, lightest first.
pub open spec fn gameboy_colors() -> Seq<Rgba> {
    seq![rgba(255, 255, 255, 255), rgba(170, 170, 170, 255), rgba(85, 85, 85, 255), rgba(0, 0, 0, 255)]
}

/// The two sunset colors, the same pair the sunset gradient runs between.
pub open spec fn sunset_colors() -> Seq<Rgba> {
    seq![rgba(255, 94, 77, 255), rgba(255, 200, 87, 255)]
}

/// The sunset palette quantizes to the two colors the sunset gradient runs
/// between, start first; a name that is no gradient palette makes a gradient
/// run from black to white.
pub proof fn lemma_sunset_matches_gradient(name: Seq<char>)
    ensures
        named_palette("sunset"@) == seq![gradient_palette("sunset"@).0, gradient_palette("sunset"@).1],
        !known_palette_names().contains(name) ==> gradient_palette(name) == (rgba(0, 0, 0, 255), rgba(255, 255, 255, 255)),
{
    reveal_strlit("sunset");
    reveal_strlit("gameboy");
    assert("sunset"@[0] != "gameboy"@[0]);
    assert(named_palette("sunset"@) == sunset_colors());
    assert(gradient_palette("sunset"@) == (rgba(255, 94, 77, 255), rgba(255, 200, 87, 255)));
    assert(named_palette("sunset"@) =~= seq![gradient_palette("sunset"@).0, gradient_palette("sunset"@).1]);
    let names = known_palette_names();
    if !names.contains(name) {
        assert(names[0] == "sunset"@);
        assert(names[1] == "ocean"@);
        assert(names[2] == "forest"@);
        assert(names[3] == "fire"@);
        assert(names[4] == "purple"@);
        assert(names[5] == "ice"@);
        assert(names[6] == "rose"@);
        assert(names[7] == "midnight"@);
    }
}

/// The palette a name selects: `"gameboy"`, `"sunset"`, otherwise CGA.
pub open spec fn named_palette(name: Seq<char>) -> Seq<Rgba> {
    if name == "gameboy"@ {
        gameboy_colors()
    } else if name == "sunset"@ {
        sunset_colors()
    } else {
        cga16_colors()
    }
}

pub fn cga_16_palette() -> (p: Vec<Rgba>)
    ensures
        p@ == cga16_colors(),
{
    let p = vec![
        Rgba::new(0, 0, 0, 255),
        Rgba::new(255, 0, 0, 255),
        Rgba::new(0, 255, 0, 255),
        Rgba::new(0, 0, 255, 255),
        Rgba::new(255, 255, 0, 255),
        Rgba::new(0, 255, 255, 255),
        Rgba::new(255, 0, 255, 255),
        Rgba::new(255, 255, 255, 255),
        Rgba::new(128, 128, 128, 255),
        Rgba::new(128, 0, 0, 255),
        Rgba::new(0, 128, 0, 255),
        Rgba::new(0, 0, 128, 255),
        Rgba::new(128, 128, 0, 255),
        Rgba::new(0, 128, 128, 255),
        Rgba::new(128, 0, 128, 255),
        Rgba::new(0, 0, 170, 255),
    ];
    assert(p@ =~= cga16_colors());
    p
}

pub fn gameboy_4_palette() -> (p: Vec<Rgba>)
    ensures
        p@ == gameboy_colors(),
{
    let p = vec![
        Rgba::new(255, 255, 255, 255),
        Rgba::new(170, 170, 170, 255),
        Rgba::new(85, 85, 85, 255),
        Rgba::new(0, 0, 0, 255),
    ];
    assert(p@ =~= gameboy_colors());
    p
}

/// The two colors of the sunset gradient, warm red first.
pub fn sunset_palette() -> (p: Vec<Rgba>)
    ensures
        p@ == sunset_colors(),
{
    let p = vec![Rgba::new(255, 94, 77, 255), Rgba::new(255, 200, 87, 255)];
    assert(p@ =~= sunset_colors());
    p
}

/// The palette for a name: `"gameboy"` the grays, `"sunset"` the sunset pair,
/// `"cga16"` and unknown names CGA.
pub fn palette_from_name(name: &str) -> (p: Vec<Rgba>)
    ensures
        p@ == named_palette(name@),
{
    if str_eq(name, "gameboy") {
        gameboy_4_palette()
    } else if str_eq(name, "sunset") {
        sunset_palette()
    } else {
        cga_16_palette()
    }
}

impl PaletteQuantizationEffect {
    pub fn new(palette: &[Rgba]) -> (e: Self)
        ensures
            e.palette@ == palette@,
    {
        let mut v: Vec<Rgba> = Vec::new();
        let mut i: usize = 0;
        while i < palette.len()
            invariant
                i <= palette@.len(),
                v@ == palette@.take(i as int),
            decreases palette@.len() - i,
        {
            v.push(palette[i]);
            i = i + 1;
            assert(v@ =~= palette@.take(i as int));
        }
        assert(palette@.take(palette@.len() as int) =~= palette@);
        PaletteQuantizationEffect { palette: v }
    }

    /// The effect for a named palette (see `palette_from_name`).
    pub fn from_name(name: &str) -> (e: Self)
        ensures
            e.palette@ == named_palette(name@),
    {
        let p = palette_from_name(name);
        Self::new(p.as_slice())
    }

    pub fn name(&self) -> (n: &'static str)
        ensures
            n@ == "palette"@,
    {
        "palette"
    }

    /// Replaces every pixel with its nearest palette color.
    pub fn apply(&self, frame: &mut Frame)
        requires
            self.palette@.len() > 0 || old(frame).pixels@.len() == 0,
        ensures
            same_shape(final(frame)@, old(frame)@),
            forall|i: int| 0 <= i < final(frame).pixels@.len()
                ==> #[trigger] final(frame).pixels@[i] == nearest_color(old(frame).pixels@[i], self.palette@),
    {
        let n = frame.pixels.len();
        let mut i: usize = 0;
        while i < n
            invariant
                self.palette@.len() > 0 || n == 0,
                frame.width == old(frame).width,
                frame.height == old(frame).height,
                n == frame.pixels@.len(),
                n == old(frame).pixels@.len(),
                i <= n,
                forall|j: int| 0 <= j < i ==> #[trigger] frame.pixels@[j] == nearest_color(old(frame).pixels@[j], self.palette@),
                forall|j: int| i <= j < n ==> #[trigger] frame.pixels@[j] == old(frame).pixels@[j],
            decreases n - i,
        {
            let q = nearest_palette_color(frame.pixels[i], self.palette.as_slice());
            frame.pixels.set(i, q);
            i = i + 1;
        }
    }
}

} // verus!
