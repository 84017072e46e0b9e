//! The curated gallery of presets shown by the front ends.

use vstd::prelude::*;

verus! {

/// A gallery preset: its file slug, display title and one-line description.
pub struct GalleryEntry {
    pub slug: &'static str,
    pub title: &'static str,
    pub description: &'static str,
}

/// Slug, title and description of every gallery entry, in display order.
pub open spec fn gallery_spec() -> Seq<(Seq<char>, Seq<char>, Seq<char>)> {
    seq![
        ("gradient"@, "Gradient"@, "A gradient scene"@),
        ("noise_clouds"@, "Noise Clouds"@, "A noise clouds scene"@),
        ("nebula"@, "Particle Nebula"@, "high count, motion blur, dark bg"@),
        ("conway"@, "Cellular Automata"@, "conway's game of life"@),
        ("flow_field"@, "Flow Field"@, "A flow field scene"@),
        ("sdf_shapes"@, "SDF Shapes"@, "A sdf shapes scene"@),
        ("fractal_zoom"@, "Fractal Zoom"@, "A mandelbrot scene"@),
        ("voronoi"@, "Voronoi"@, "A voronoi scene"@),
        ("snow"@, "Snow"@, "A snow scene"@),
        ("rain"@, "Rain"@, "A rain scene"@),
        ("vhs_gradient"@, "VHS Grid"@, "A VHS grid scene"@),
        ("pixeled_sunset"@, "Pixelated Sunset"@, "A pixelated sunset scene"@),
        ("capstone"@, "Capstone — Drift"@, "45s flow-field short with blur, palette, and VHS"@),
        ("plasma"@, "Plasma"@, "classic demoscene plasma using layered sine waves"@),
        ("lissajous"@, "Lissajous"@, "animated Lissajous curves with phosphor trail"@),
        ("starfield"@, "Starfield"@, "3D starfield with depth-based brightness and size"@),
        ("plasma_neon"@, "Plasma Neon"@, "high-contrast plasma with boosted saturation"@),
        ("deep_space"@, "Deep Space"@, "dense starfield at high speed with darkened contrast"@),
        ("ocean_gradient"@, "Ocean Gradient"@, "diagonal ocean palette gradient with slow drift"@),
    ]
}

pub open spec fn entry_view(e: GalleryEntry) -> (Seq<char>, Seq<char>, Seq<char>) {
    (e.slug@, e.title@, e.description@)
}

/// The gallery entries, in display order.
pub fn gallery_entries() -> (entries: Vec<GalleryEntry>)
    ensures
        entries@.map_values(|e: GalleryEntry| entry_view(e)) == gallery_spec(),
{
    let entries = vec![
        GalleryEntry { slug: "gradient", title: "Gradient", description: "A gradient scene" },
        GalleryEntry { slug: "noise_clouds", title: "Noise Clouds", description: "A noise clouds scene" },
        GalleryEntry { slug: "nebula", title: "Particle Nebula", description: "high count, motion blur, dark bg" },
        GalleryEntry { slug: "conway", title: "Cellular Automata", description: "conway's game of life" },
        GalleryEntry { slug: "flow_field", title: "Flow Field", description: "A flow field scene" },
        GalleryEntry { slug: "sdf_shapes", title: "SDF Shapes", description: "A sdf shapes scene" },
        GalleryEntry { slug: "fractal_zoom", title: "Fractal Zoom", description: "A mandelbrot scene" },
        GalleryEntry { slug: "voronoi", title: "Voronoi", description: "A voronoi scene" },
        GalleryEntry { slug: "snow", title: "Snow", description: "A snow scene" },
        GalleryEntry { slug: "rain", title: "Rain", description: "A rain scene" },
        GalleryEntry { slug: "vhs_gradient", title: "VHS Grid", description: "A VHS grid scene" },
        GalleryEntry { slug: "pixeled_sunset", title: "Pixelated Sunset", description: "A pixelated sunset scene" },
        GalleryEntry { slug: "capstone", title: "Capstone — Drift", description: "45s flow-field short with blur, palette, and VHS" },
        GalleryEntry { slug: "plasma", title: "Plasma", description: "classic demoscene plasma using layered sine waves" },
        GalleryEntry { slug: "lissajous", title: "Lissajous", description: "animated Lissajous curves with phosphor trail" },
        GalleryEntry { slug: "starfield", title: "Starfield", description: "3D starfield with depth-based brightness and size" },
        GalleryEntry { slug: "plasma_neon", title: "Plasma Neon", description: "high-contrast plasma with boosted saturation" },
        GalleryEntry { slug: "deep_space", title: "Deep Space", description: "dense starfield at high speed with darkened contrast" },
        GalleryEntry { slug: "ocean_gradient", title: "Ocean Gradient", description: "diagonal ocean palette gradient with slow drift" },
    ];
    assert(entries@.map_values(|e: GalleryEntry| entry_view(e)) =~= gallery_spec());
    entries
}

/// No two gallery entries share a slug, so each slug names one preset.
pub proof fn lemma_gallery_slugs_distinct()
    ensures
        forall|i: int, j: int|
            0 <= i < j < gallery_spec().len() ==> #[trigger] gallery_spec()[i].0 != #[trigger] gallery_spec()[j].0,
{
    reveal_strlit("gradient");
    reveal_strlit("noise_clouds");
    reveal_strlit("nebula");
    reveal_strlit("conway");
    reveal_strlit("flow_field");
    reveal_strlit("sdf_shapes");
    reveal_strlit("fractal_zoom");
    reveal_strlit("voronoi");
    reveal_strlit("snow");
    reveal_strlit("rain");
    reveal_strlit("vhs_gradient");
    reveal_strlit("pixeled_sunset");
    reveal_strlit("capstone");
    reveal_strlit("plasma");
    reveal_strlit("lissajous");
    reveal_strlit("starfield");
    reveal_strlit("plasma_neon");
    reveal_strlit("deep_space");
    reveal_strlit("ocean_gradient");
    let g = gallery_spec();
    assert(g[0].0 == "gradient"@);
    assert(g[1].0 == "noise_clouds"@);
    assert(g[2].0 == "nebula"@);
    assert(g[3].0 == "conway"@);
    assert(g[4].0 == "flow_field"@);
    assert(g[5].0 == "sdf_shapes"@);
    assert(g[6].0 == "fractal_zoom"@);
    assert(g[7].0 == "voronoi"@);
    assert(g[8].0 == "snow"@);
    assert(g[9].0 == "rain"@);
    assert(g[10].0 == "vhs_gradient"@);
    assert(g[11].0 == "pixeled_sunset"@);
    assert(g[12].0 == "capstone"@);
    assert(g[13].0 == "plasma"@);
    assert(g[14].0 == "lissajous"@);
    assert(g[15].0 == "starfield"@);
    assert(g[16].0 == "plasma_neon"@);
    assert(g[17].0 == "deep_space"@);
    assert(g[18].0 == "ocean_gradient"@);
    // Slugs of equal length differ at the character named below.
    assert(g[0].0[0] != g[12].0[0]);
    assert(g[1].0[0] != g[6].0[0]);
    assert(g[1].0[0] != g[10].0[0]);
    assert(g[2].0[0] != g[3].0[0]);
    assert(g[2].0[0] != g[13].0[0]);
    assert(g[3].0[0] != g[13].0[0]);
    assert(g[4].0[0] != g[5].0[0]);
    assert(g[4].0[0] != g[17].0[0]);
    assert(g[5].0[0] != g[17].0[0]);
    assert(g[6].0[0] != g[10].0[0]);
    assert(g[8].0[0] != g[9].0[0]);
    assert(g[11].0[0] != g[18].0[0]);
    assert(g[14].0[0] != g[15].0[0]);
}

} // verus!
