# shui

The logic of a small immediate-mode GUI toolkit, verified with Verus.

- `src/layout.rs`: layouts that split a rectangle into children along an axis, route events
  to the children and track which child holds the focus; the order of children for `Y`
  layouts; the search for the child under a position.
- `src/handlers.rs`: the state of toggle buttons, push buttons and knobs, and what each event,
  or batch of events, does to them.
- `src/ui.rs`: the events the widgets see, and what a frame does with each report of the
  window system.
- `src/font.rs`: how text becomes glyphs and line breaks (after Unicode normalization), how
  text is centered, and the triangles that draw a glyph.
- `src/font_file.rs`: which font files rusttype can parse without reading past their end; the
  parse itself is rusttype's, called through a trusted wrapper.
- `src/util.rs`: `clamp` and taking the contents out of a vector.

Positions, sizes and weights are generic in the library; `app/` instantiates them with `f32`,
does the floating-point geometry, draws with `glium` and `rusttype`, and runs the event loop.
