# FrameSeed

FrameSeed renders short procedural videos: every pixel comes from a scene
algorithm, a configuration and a seed. This crate is its verified core, written
in Verus: the pixel model and frame operations, the integer-exact effects
(invert, pixelation, posterize, palette quantization, box blur, the Bayer
pattern and channel sampling), Conway's Game of Life, configuration checks,
scene and effect selection, file names, encoder arguments, contact sheets
(layout, labels, and thumbnails decoded, scaled and laid over their cells),
PNG bytes, Base64 previews and error messages. Each public function
states its result in its contract, and laws that relate several functions are
proved as proof functions.

Layout:

- `src/` — the verified library (`frameseed`).
- `tests/` — tests of the library on concrete values.
- `app/` — the `frameseed` command line: reading and writing files, TOML
  configurations, FFmpeg, the floating-point scenes and effects, and parallel
  rendering, all built on the library.
