//! Scene names, gradient palettes and particle kinds.

use vstd::prelude::*;
use crate::color::{Rgba, parse_hex_color, rgba};
use crate::text::str_eq;

verus! {

/// Scene names a configuration may select.
pub open spec fn known_scene_names() -> Seq<Seq<char>> {
    seq![
        "gradient"@,
        "noise_clouds"@,
        "conway"@,
        "particles"@,
        "flow_field"@,
        "sdf_shapes"@,
        "mandelbrot"@,
        "voronoi"@,
        "plasma"@,
        "lissajous"@,
        "sine_wave"@,
        "starfield"@,
        "tunnel"@,
    ]
}

/// The scene names a configuration may select, in listing order.
pub fn known_scenes() -> (names: Vec<&'static str>)
    ensures
        names@.map_values(|s: &str| s@) == known_scene_names(),
{
    let names = vec![
        "gradient",
        "noise_clouds",
        "conway",
        "particles",
        "flow_field",
        "sdf_shapes",
        "mandelbrot",
        "voronoi",
        "plasma",
        "lissajous",
        "sine_wave",
        "starfield",
        "tunnel",
    ];
    assert(names@.map_values(|s: &str| s@) =~= known_scene_names());
    names
}

/// Whether `name` is one of the known scene names.
pub fn is_known_scene(name: &str) -> (known: bool)
    ensures
        known == known_scene_names().contains(name@),
{
    let names = known_scenes();
    let ghost views = names@.map_values(|s: &str| s@);
    let mut i: usize = 0;
    while i < names.len()
        invariant
            views == names@.map_values(|s: &str| s@),
            views == known_scene_names(),
            i <= names@.len(),
            forall|j: int| 0 <= j < i ==> views[j] != name@,
        decreases names@.len() - i,
    {
        if str_eq(names[i], name) {
            assert(views[i as int] == name@);
            return true;
        }
        i = i + 1;
    }
    assert(!known_scene_names().contains(name@)) by {
        if known_scene_names().contains(name@) {
            let j = choose|j: int| 0 <= j < views.len() && views[j] == name@;
            assert(views[j] != name@);
        }
    }
    false
}

/// Gradient palettes by name: start and end colors. Unknown names give black to white.
pub open spec fn gradient_palette(name: Seq<char>) -> (Rgba, Rgba) {
    if name == "sunset"@ {
        (rgba(255, 94, 77, 255), rgba(255, 200, 87, 255))
    } else if name == "ocean"@ {
        (rgba(0, 32, 96, 255), rgba(32, 178, 170, 255))
    } else if name == "forest"@ {
        (rgba(10, 60, 10, 255), rgba(144, 238, 144, 255))
    } else if name == "fire"@ {
        (rgba(255, 69, 0, 255), rgba(255, 215, 0, 255))
    } else if name == "purple"@ {
        (rgba(75, 0, 130, 255), rgba(238, 130, 238, 255))
    } else if name == "ice"@ {
        (rgba(173, 216, 230, 255), rgba(255, 255, 255, 255))
    } else if name == "rose"@ {
        (rgba(255, 20, 147, 255), rgba(255, 182, 193, 255))
    } else if name == "midnight"@ {
        (rgba(0, 0, 50, 255), rgba(25, 25, 112, 255))
    } else {
        (rgba(0, 0, 0, 255), rgba(255, 255, 255, 255))
    }
}

/// Start and end colors of the named gradient palette.
pub fn palette_from_name(name: &str) -> (p: (Rgba, Rgba))
    ensures
        p == gradient_palette(name@),
{
    if str_eq(name, "sunset") {
        (Rgba::new(255, 94, 77, 255), Rgba::new(255, 200, 87, 255))
    } else if str_eq(name, "ocean") {
        (Rgba::new(0, 32, 96, 255), Rgba::new(32, 178, 170, 255))
    } else if str_eq(name, "forest") {
        (Rgba::new(10, 60, 10, 255), Rgba::new(144, 238, 144, 255))
    } else if str_eq(name, "fire") {
        (Rgba::new(255, 69, 0, 255), Rgba::new(255, 215, 0, 255))
    } else if str_eq(name, "purple") {
        (Rgba::new(75, 0, 130, 255), Rgba::new(238, 130, 238, 255))
    } else if str_eq(name, "ice") {
        (Rgba::new(173, 216, 230, 255), Rgba::new(255, 255, 255, 255))
    } else if str_eq(name, "rose") {
        (Rgba::new(255, 20, 147, 255), Rgba::new(255, 182, 193, 255))
    } else if str_eq(name, "midnight") {
        (Rgba::new(0, 0, 50, 255), Rgba::new(25, 25, 112, 255))
    } else {
        (Rgba::black(), Rgba::white())
    }
}

/// Names of the gradient palettes.
pub open spec fn known_palette_names() -> Seq<Seq<char>> {
    seq!["sunset"@, "ocean"@, "forest"@, "fire"@, "purple"@, "ice"@, "rose"@, "midnight"@]
}

/// The gradient palette names, in listing order.
pub fn known_palettes() -> (names: Vec<&'static str>)
    ensures
        names@.map_values(|s: &str| s@) == known_palette_names(),
{
    let names = vec!["sunset", "ocean", "forest", "fire", "purple", "ice", "rose", "midnight"];
    assert(names@.map_values(|s: &str| s@) =~= known_palette_names());
    names
}

/// How particles of the particle scene move.
#[derive(Debug, Clone, Copy, PartialEq, Eq, Structural)]
pub enum ParticleKind {
    Snow,
    Rain,
}

/// The particle kind when a configuration names none.
pub fn default_kind() -> (k: ParticleKind)
    ensures
        k == ParticleKind::Snow,
{
    ParticleKind::Snow
}

/// The scenes a configuration can select.
#[derive(Debug, Clone, Copy, PartialEq, Eq, Structural)]
pub enum SceneKind {
    Gradient,
    NoiseClouds,
    Conway,
    Particles,
    FlowField,
    SdfShapes,
    Mandelbrot,
    Voronoi,
    Plasma,
    Lissajous,
    SineWave,
    Starfield,
    Tunnel,
}

/// The scene a name selects.
pub open spec fn scene_named(name: Seq<char>) -> Option<SceneKind> {
    if name == "gradient"@ {
        Some(SceneKind::Gradient)
    } else if name == "noise_clouds"@ {
        Some(SceneKind::NoiseClouds)
    } else if name == "conway"@ {
        Some(SceneKind::Conway)
    } else if name == "particles"@ {
        Some(SceneKind::Particles)
    } else if name == "flow_field"@ {
        Some(SceneKind::FlowField)
    } else if name == "sdf_shapes"@ {
        Some(SceneKind::SdfShapes)
    } else if name == "mandelbrot"@ {
        Some(SceneKind::Mandelbrot)
    } else if name == "voronoi"@ {
        Some(SceneKind::Voronoi)
    } else if name == "plasma"@ {
        Some(SceneKind::Plasma)
    } else if name == "lissajous"@ {
        Some(SceneKind::Lissajous)
    } else if name == "sine_wave"@ {
        Some(SceneKind::SineWave)
    } else if name == "starfield"@ {
        Some(SceneKind::Starfield)
    } else if name == "tunnel"@ {
        Some(SceneKind::Tunnel)
    } else {
        None
    }
}

/// The name of a scene, as configurations write it.
pub open spec fn scene_kind_name(k: SceneKind) -> Seq<char> {
    match k {
        SceneKind::Gradient => "gradient"@,
        SceneKind::NoiseClouds => "noise_clouds"@,
        SceneKind::Conway => "conway"@,
        SceneKind::Particles => "particles"@,
        SceneKind::FlowField => "flow_field"@,
        SceneKind::SdfShapes => "sdf_shapes"@,
        SceneKind::Mandelbrot => "mandelbrot"@,
        SceneKind::Voronoi => "voronoi"@,
        SceneKind::Plasma => "plasma"@,
        SceneKind::Lissajous => "lissajous"@,
        SceneKind::SineWave => "sine_wave"@,
        SceneKind::Starfield => "starfield"@,
        SceneKind::Tunnel => "tunnel"@,
    }
}

impl SceneKind {
    /// The name of the scene, as configurations write it.
    pub fn name(self) -> (n: &'static str)
        ensures
            n@ == scene_kind_name(self),
    {
        match self {
            SceneKind::Gradient => "gradient",
            SceneKind::NoiseClouds => "noise_clouds",
            SceneKind::Conway => "conway",
            SceneKind::Particles => "particles",
            SceneKind::FlowField => "flow_field",
            SceneKind::SdfShapes => "sdf_shapes",
            SceneKind::Mandelbrot => "mandelbrot",
            SceneKind::Voronoi => "voronoi",
            SceneKind::Plasma => "plasma",
            SceneKind::Lissajous => "lissajous",
            SceneKind::SineWave => "sine_wave",
            SceneKind::Starfield => "starfield",
            SceneKind::Tunnel => "tunnel",
        }
    }
}

/// Names and scenes correspond one to one: a scene's own name selects it, a
/// name selects only the scene of that name, so no two names select the same
/// scene, and the known names, in order, are the names of the scenes.
pub proof fn lemma_scene_names_round_trip(name: Seq<char>, other: Seq<char>, k: SceneKind)
    ensures
        scene_named(scene_kind_name(k)) == Some(k),
        scene_named(name) == Some(k) ==> name == scene_kind_name(k),
        scene_named(name) is Some && scene_named(name) == scene_named(other) ==> name == other,
        known_scene_names().contains(scene_kind_name(k)),
{
    reveal_strlit("gradient");
    reveal_strlit("noise_clouds");
    reveal_strlit("conway");
    reveal_strlit("particles");
    reveal_strlit("flow_field");
    reveal_strlit("sdf_shapes");
    reveal_strlit("mandelbrot");
    reveal_strlit("voronoi");
    reveal_strlit("plasma");
    reveal_strlit("lissajous");
    reveal_strlit("sine_wave");
    reveal_strlit("starfield");
    reveal_strlit("tunnel");
    // Names of equal length differ at the character named below.
    assert("conway"@[0] != "plasma"@[0]);
    assert("conway"@[0] != "tunnel"@[0]);
    assert("particles"@[0] != "lissajous"@[0]);
    assert("particles"@[0] != "sine_wave"@[0]);
    assert("particles"@[0] != "starfield"@[0]);
    assert("flow_field"@[0] != "sdf_shapes"@[0]);
    assert("flow_field"@[0] != "mandelbrot"@[0]);
    assert("sdf_shapes"@[0] != "mandelbrot"@[0]);
    assert("plasma"@[0] != "tunnel"@[0]);
    assert("lissajous"@[0] != "sine_wave"@[0]);
    assert("lissajous"@[0] != "starfield"@[0]);
    assert("sine_wave"@[1] != "starfield"@[1]);
    let names = known_scene_names();
    match k {
        SceneKind::Gradient => assert(names[0] == scene_kind_name(k)),
        SceneKind::NoiseClouds => assert(names[1] == scene_kind_name(k)),
        SceneKind::Conway => assert(names[2] == scene_kind_name(k)),
        SceneKind::Particles => assert(names[3] == scene_kind_name(k)),
        SceneKind::FlowField => assert(names[4] == scene_kind_name(k)),
        SceneKind::SdfShapes => assert(names[5] == scene_kind_name(k)),
        SceneKind::Mandelbrot => assert(names[6] == scene_kind_name(k)),
        SceneKind::Voronoi => assert(names[7] == scene_kind_name(k)),
        SceneKind::Plasma => assert(names[8] == scene_kind_name(k)),
        SceneKind::Lissajous => assert(names[9] == scene_kind_name(k)),
        SceneKind::SineWave => assert(names[10] == scene_kind_name(k)),
        SceneKind::Starfield => assert(names[11] == scene_kind_name(k)),
        SceneKind::Tunnel => assert(names[12] == scene_kind_name(k)),
    }
}

/// The scene a name selects, if any.
pub fn scene_by_name(name: &str) -> (k: Option<SceneKind>)
    ensures
        k == scene_named(name@),
{
    if str_eq(name, "gradient") {
        Some(SceneKind::Gradient)
    } else if str_eq(name, "noise_clouds") {
        Some(SceneKind::NoiseClouds)
    } else if str_eq(name, "conway") {
        Some(SceneKind::Conway)
    } else if str_eq(name, "particles") {
        Some(SceneKind::Particles)
    } else if str_eq(name, "flow_field") {
        Some(SceneKind::FlowField)
    } else if str_eq(name, "sdf_shapes") {
        Some(SceneKind::SdfShapes)
    } else if str_eq(name, "mandelbrot") {
        Some(SceneKind::Mandelbrot)
    } else if str_eq(name, "voronoi") {
        Some(SceneKind::Voronoi)
    } else if str_eq(name, "plasma") {
        Some(SceneKind::Plasma)
    } else if str_eq(name, "lissajous") {
        Some(SceneKind::Lissajous)
    } else if str_eq(name, "sine_wave") {
        Some(SceneKind::SineWave)
    } else if str_eq(name, "starfield") {
        Some(SceneKind::Starfield)
    } else if str_eq(name, "tunnel") {
        Some(SceneKind::Tunnel)
    } else {
        None
    }
}

/// A name passes as a known scene exactly when it selects a scene: every name
/// that validation accepts can be rendered, and no other.
pub proof fn lemma_known_scenes_resolve(name: Seq<char>)
    ensures
        known_scene_names().contains(name) <==> scene_named(name) is Some,
{
    let names = known_scene_names();
    if scene_named(name) is Some {
        if name == "gradient"@ {
            assert(names[0] == name);
        } else if name == "noise_clouds"@ {
            assert(names[1] == name);
        } else if name == "conway"@ {
            assert(names[2] == name);
        } else if name == "particles"@ {
            assert(names[3] == name);
        } else if name == "flow_field"@ {
            assert(names[4] == name);
        } else if name == "sdf_shapes"@ {
            assert(names[5] == name);
        } else if name == "mandelbrot"@ {
            assert(names[6] == name);
        } else if name == "voronoi"@ {
            assert(names[7] == name);
        } else if name == "plasma"@ {
            assert(names[8] == name);
        } else if name == "lissajous"@ {
            assert(names[9] == name);
        } else if name == "sine_wave"@ {
            assert(names[10] == name);
        } else if name == "starfield"@ {
            assert(names[11] == name);
        } else {
            assert(names[12] == name);
        }
    }
}

/// The gradient's end colors: the named palette's, each replaced by the
/// given hex color where one is given and reads as a color.
pub open spec fn gradient_colors_spec(palette: Seq<char>, start: Option<Seq<char>>, end: Option<Seq<char>>) -> (Rgba, Rgba) {
    let (palette_start, palette_end) = gradient_palette(palette);
    (override_color(start, palette_start), override_color(end, palette_end))
}

/// Each given color that reads as a hex color replaces its end of the named
/// palette, whatever the palette; an end that is not given, or does not read
/// as a color, keeps the palette's color. The two ends are independent.
pub proof fn lemma_gradient_overrides(palette: Seq<char>, start: Option<Seq<char>>, end: Option<Seq<char>>)
    ensures
        start matches Some(h) && parse_hex_color(h) is Some ==> gradient_colors_spec(palette, start, end).0
            == parse_hex_color(start->0)->0,
        end matches Some(h) && parse_hex_color(h) is Some ==> gradient_colors_spec(palette, start, end).1
            == parse_hex_color(end->0)->0,
        !(start matches Some(h) && parse_hex_color(h) is Some) ==> gradient_colors_spec(palette, start, end).0
            == gradient_palette(palette).0,
        !(end matches Some(h) && parse_hex_color(h) is Some) ==> gradient_colors_spec(palette, start, end).1
            == gradient_palette(palette).1,
        gradient_colors_spec(palette, start, end).0 == gradient_colors_spec(palette, start, None).0,
        gradient_colors_spec(palette, start, end).1 == gradient_colors_spec(palette, None, end).1,
{
}

/// The color written in `hex` when it reads as one, else `fallback`.
pub open spec fn override_color(hex: Option<Seq<char>>, fallback: Rgba) -> Rgba {
    match hex {
        Some(h) => match parse_hex_color(h) {
            Some(c) => c,
            None => fallback,
        },
        None => fallback,
    }
}

fn color_or(hex: Option<&str>, fallback: Rgba) -> (c: Rgba)
    ensures
        c == override_color(
            match hex {
                Some(h) => Some(h@),
                None => None,
            },
            fallback,
        ),
{
    match hex {
        Some(h) => match Rgba::from_hex(h) {
            Some(c) => c,
            None => fallback,
        },
        None => fallback,
    }
}

/// Start and end colors of a gradient scene: the named palette, with explicit
/// hex colors taking precedence where they read as colors.
pub fn gradient_colors(palette: &str, start_color: Option<&str>, end_color: Option<&str>) -> (c: (Rgba, Rgba))
    ensures
        c == gradient_colors_spec(
            palette@,
            match start_color {
                Some(h) => Some(h@),
                None => None,
            },
            match end_color {
                Some(h) => Some(h@),
                None => None,
            },
        ),
{
    let (palette_start, palette_end) = palette_from_name(palette);
    (color_or(start_color, palette_start), color_or(end_color, palette_end))
}

} // verus!
