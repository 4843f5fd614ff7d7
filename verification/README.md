# psfe

A pixel editor for PSF1 console fonts. The window shows the font's glyphs in
a grid of sixteen per row and, beside it, an enlarged editor for the selected
glyph. Clicking a glyph selects it (the right button clears it), clicking or
dragging in the editor sets bits (left button) or clears them (other
buttons), `c` clears glyphs 128 to 255, and `w` saves the font as
`saved_fontNNN.psf`. The editor also handles a `Minus` key, which removes
the top row of every glyph, but the SDL2 backend maps no key to it.

The library under `src/` is verified with Verus:

- `paint`: the drawing model; a frame is the result of painting a list of
  strokes (pixels, filled blocks, block outlines) in order.
- `framebuffer`: the RGBA framebuffer and its drawing operations, each
  proved to paint exactly its stroke.
- `bitmatrix`: glyph bitmaps, with a row-per-byte encoding.
- `font`: PSF1 parsing and storing, with proofs that storing a loaded font
  gives back its glyph table and that loading a stored font gives back its
  glyphs.
- `state`: the editor, as a model and a step function over input events,
  and the display list that a frame draws.
- `rendering_backend`: input events and the mapping from backend key and
  button codes.
- `text`, `layout`: decimal formatting and row-major index arithmetic.

`app/` holds the program: it reads `font.psf`, opens an SDL2 window, feeds
SDL events to the editor, draws its frames and writes saved fonts.
