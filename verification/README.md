# console_ui

A terminal UI library written in Verus.  Its functions carry contracts that
Verus proves, covering capability detection, colour downgrade, border styles, an off-screen cell
canvas with double-buffered rendering, anchor-constraint layout, split panes,
widgets (panel, table, menu, text block), serialisable screen definitions with
validation, and the screens of a demonstration program.

## Layout

- `src/` — the verified library.
  - `color/`, `border/`, `term/` — colours and their downgrade chain, border
    glyphs, terminal capabilities.
  - `canvas/` — the cell buffer, sub-canvases, and the renderer that decides
    which cells to redraw.
  - `layout/` — rectangles, the anchor-constraint resolver, split panes.
  - `widget/` — panel, table, menu, text block, and text wrapping.
  - `serial/` — screen definitions, their validation against a terminal
    class, and building widgets and layouts from them.
  - `event/`, `demo/` — keys, and the demonstration screens' rendering and
    key handling.
  - `text.rs` — string helpers and the calls into `unicode-width`.
- `tests/` — tests of the library on concrete values.
- `app/` — the demonstration program: terminal I/O through `crossterm`,
  JSON through `serde`, and the parts that work with floating-point ratios.

Run Verus on `src/` to check every contract.  The contracts say what each
function returns or draws; where a result rests on a call into
`unicode-width` or `std`, they speak of that call's result by name.  The
anchor resolver is specified pass by pass, and its placement laws (`fill`,
`below`, `right_of`, the alignments, an unconstrained widget) are stated for
layouts in which the widget's own constraints are the helper's and the edge
it is tied to is known before the last pass.  The public proof functions
state the library's laws (what a round trip through a screen definition keeps,
what a colour downgrade guarantees, what redrawing an unchanged frame emits, …)
and the canvas facts the widgets' contracts are proved from.
