use vstd::prelude::*;
use crate::canvas::cell::{blank_cell, Cell};
use crate::color::types::{Color, StyleFlags};
use crate::text::{advance_width, char_width, cw, unicode_char_width};

verus! {

/// Abstract contents of a canvas: its size and its cells, row-major.
pub struct CanvasModel {
    pub width: int,
    pub height: int,
    pub cells: Seq<Cell>,
}

impl CanvasModel {
    /// The size fits `u16` and there is exactly one cell per position.
    pub open spec fn wf(self) -> bool {
        &&& 0 <= self.width <= u16::MAX
        &&& 0 <= self.height <= u16::MAX
        &&& self.cells.len() == self.width * self.height
    }

    /// `(col, row)` is a position of the canvas.
    pub open spec fn in_bounds(self, col: int, row: int) -> bool {
        0 <= col < self.width && 0 <= row < self.height
    }

    /// The cell at `(col, row)`.
    pub open spec fn at(self, col: int, row: int) -> Cell {
        self.cells[row * self.width + col]
    }

    /// What `get` returns: the cell at `(col, row)`, or a blank cell off the canvas.
    pub open spec fn get(self, col: int, row: int) -> Cell {
        if self.in_bounds(col, row) {
            self.at(col, row)
        } else {
            blank_cell()
        }
    }
}

/// Positions of a `width × height` grid map to distinct indices inside the buffer.
pub proof fn lemma_cell_index(width: int, height: int, col: int, row: int)
    requires
        0 <= col < width,
        0 <= row < height,
    ensures
        0 <= row * width + col < width * height,
        forall|c2: int, r2: int| 0 <= c2 < width && 0 <= r2 < height && (c2 != col || r2 != row)
            ==> #[trigger] (r2 * width + c2) != row * width + col,
{
    assert(0 <= row * width + col < width * height) by (nonlinear_arith)
        requires 0 <= col < width, 0 <= row < height;
    assert forall|c2: int, r2: int| 0 <= c2 < width && 0 <= r2 < height && (c2 != col || r2 != row)
        implies #[trigger] (r2 * width + c2) != row * width + col by {
        if r2 == row {
        } else if r2 < row {
            assert(r2 * width + c2 < row * width + col) by (nonlinear_arith)
                requires r2 < row, 0 <= c2 < width, 0 <= col;
        } else {
            assert(r2 * width + c2 > row * width + col) by (nonlinear_arith)
                requires r2 > row, 0 <= c2, 0 <= col < width;
        }
    }
}

/// The continuation cell written after a wide character.
pub open spec fn continuation_of(cell: Cell) -> Cell {
    Cell { ch: ' ', fg: cell.fg, bg: cell.bg, style: cell.style, wide_continuation: true }
}

/// What `Canvas::set` does: write `cell` at `(col, row)` when it is on the
/// canvas, and when its character is two columns wide and another column
/// follows, mark that column as its continuation.
pub open spec fn set_spec(m: CanvasModel, col: int, row: int, cell: Cell) -> CanvasModel {
    set_within(m, col, row, cell, m.width)
}

/// A write of `cell` at `(col, row)` whose wide continuation is kept left of
/// column `limit`: the continuation column is marked only when it is on the
/// canvas and before `limit`.
pub open spec fn set_within(m: CanvasModel, col: int, row: int, cell: Cell, limit: int) -> CanvasModel {
    if m.in_bounds(col, row) {
        let i = row * m.width + col;
        let cells1 = m.cells.update(i, cell);
        let cells2 = if unicode_char_width(cell.ch) == Some(2usize) && col + 1 < m.width && col + 1 < limit {
            cells1.update(i + 1, continuation_of(cell))
        } else {
            cells1
        };
        CanvasModel { width: m.width, height: m.height, cells: cells2 }
    } else {
        m
    }
}

/// A write at local `(col, row)` of the region at `(oc, or)` of size `w × h`:
/// ignored outside the region, otherwise a write at the translated position
/// whose wide continuation is dropped at the region's right edge.
pub open spec fn region_set(m: CanvasModel, oc: int, or: int, w: int, h: int, col: int, row: int, cell: Cell) -> CanvasModel {
    if 0 <= col < w && 0 <= row < h {
        set_within(m, oc + col, or + row, cell, oc + w)
    } else {
        m
    }
}

/// The cell that `print` writes for `ch`.
pub open spec fn text_cell(ch: char, fg: Color, bg: Color, style: StyleFlags) -> Cell {
    Cell { ch, fg, bg, style, wide_continuation: false }
}

/// The cell that `fill_h` / `fill_v` write for `ch`.
pub open spec fn line_cell(ch: char, fg: Color, bg: Color) -> Cell {
    Cell { ch, fg, bg, style: StyleFlags { bits: 0 }, wide_continuation: false }
}

/// What printing `chars` from local column `col` of a region does: each
/// character is written at the cursor, which then advances by the
/// character's width; printing stops at the region's right edge.
pub open spec fn print_spec(
    m: CanvasModel, oc: int, or: int, w: int, h: int,
    col: int, row: int, chars: Seq<char>, fg: Color, bg: Color, style: StyleFlags,
) -> CanvasModel
    decreases chars.len(),
{
    if chars.len() == 0 || col >= w {
        m
    } else {
        print_spec(
            region_set(m, oc, or, w, h, col, row, text_cell(chars[0], fg, bg, style)),
            oc, or, w, h, col + cw(chars[0]), row, chars.drop_first(), fg, bg, style,
        )
    }
}

/// The cursor of a print starting at `col` never passes `u16::MAX` while it
/// is still inside a region `w` columns wide.
pub open spec fn print_fits(w: int, col: int, chars: Seq<char>) -> bool
    decreases chars.len(),
{
    chars.len() == 0 || col >= w || (col + cw(chars[0]) <= u16::MAX && print_fits(w, col + cw(chars[0]), chars.drop_first()))
}

/// What `fill_h` does: write `cell` at local columns `col .. end` of row `row`,
/// stopping at the region's right edge.
pub open spec fn fill_h_spec(m: CanvasModel, oc: int, or: int, w: int, h: int, col: int, row: int, end: int, cell: Cell) -> CanvasModel
    decreases end - col,
{
    if col >= end || col >= w {
        m
    } else {
        fill_h_spec(region_set(m, oc, or, w, h, col, row, cell), oc, or, w, h, col + 1, row, end, cell)
    }
}

/// What `fill_v` does: write `cell` at local rows `row .. end` of column `col`,
/// stopping at the region's bottom edge.
pub open spec fn fill_v_spec(m: CanvasModel, oc: int, or: int, w: int, h: int, col: int, row: int, end: int, cell: Cell) -> CanvasModel
    decreases end - row,
{
    if row >= end || row >= h {
        m
    } else {
        fill_v_spec(region_set(m, oc, or, w, h, col, row, cell), oc, or, w, h, col, row + 1, end, cell)
    }
}

/// `after` differs from `before` only inside the rows `or .. or + h` and the
/// columns `oc .. oc + w`.
pub open spec fn unchanged_outside(before: CanvasModel, after: CanvasModel, oc: int, or: int, w: int, h: int) -> bool {
    &&& after.width == before.width
    &&& after.height == before.height
    &&& after.cells.len() == before.cells.len()
    &&& forall|c: int, r: int| #![trigger after.at(c, r)]
        before.in_bounds(c, r) && !(oc <= c < oc + w && or <= r < or + h) ==> after.at(c, r) == before.at(c, r)
}

/// Nothing changed is a change confined to any region.
pub proof fn lemma_unchanged_outside_refl(m: CanvasModel, oc: int, or: int, w: int, h: int)
    ensures
        unchanged_outside(m, m, oc, or, w, h),
{
}

/// Two changes confined to a region make a change confined to it.
pub proof fn lemma_unchanged_outside_trans(a: CanvasModel, b: CanvasModel, c: CanvasModel, oc: int, or: int, w: int, h: int)
    requires
        unchanged_outside(a, b, oc, or, w, h),
        unchanged_outside(b, c, oc, or, w, h),
    ensures
        unchanged_outside(a, c, oc, or, w, h),
{
    assert forall|x: int, y: int| a.in_bounds(x, y) && !(oc <= x < oc + w && or <= y < or + h)
        implies #[trigger] c.at(x, y) == a.at(x, y) by {
        assert(b.at(x, y) == a.at(x, y));
    }
}

/// A region inside a larger one: writes confined to the inner region are
/// confined to the outer one.
pub proof fn lemma_unchanged_outside_widen(
    a: CanvasModel, b: CanvasModel, oc: int, or: int, w: int, h: int, oc2: int, or2: int, w2: int, h2: int,
)
    requires
        unchanged_outside(a, b, oc, or, w, h),
        oc2 <= oc,
        oc + w <= oc2 + w2,
        or2 <= or,
        or + h <= or2 + h2,
    ensures
        unchanged_outside(a, b, oc2, or2, w2, h2),
{
    assert forall|x: int, y: int| a.in_bounds(x, y) && !(oc2 <= x < oc2 + w2 && or2 <= y < or2 + h2)
        implies #[trigger] b.at(x, y) == a.at(x, y) by {
    }
}

/// Changes confined to two regions are confined to where they overlap.
pub proof fn lemma_unchanged_outside_meet(
    a: CanvasModel, b: CanvasModel, oc1: int, or1: int, w1: int, h1: int, oc2: int, or2: int, w2: int, h2: int,
    oc: int, or: int, w: int, h: int,
)
    requires
        unchanged_outside(a, b, oc1, or1, w1, h1),
        unchanged_outside(a, b, oc2, or2, w2, h2),
        oc == (if oc1 < oc2 { oc2 } else { oc1 }),
        or == (if or1 < or2 { or2 } else { or1 }),
        oc + w == (if oc1 + w1 < oc2 + w2 { oc1 + w1 } else { oc2 + w2 }),
        or + h == (if or1 + h1 < or2 + h2 { or1 + h1 } else { or2 + h2 }),
    ensures
        unchanged_outside(a, b, oc, or, w, h),
{
    assert forall|x: int, y: int| a.in_bounds(x, y) && !(oc <= x < oc + w && or <= y < or + h)
        implies #[trigger] b.at(x, y) == a.at(x, y) by {
    }
}

/// A change confined to one row and to a region is confined to that row of
/// the region.
pub proof fn lemma_row_change_in_region(
    a: CanvasModel, b: CanvasModel, row: int, lo: int, hi: int, oc: int, or: int, w: int, h: int,
)
    requires
        changed_only_in_row(a, b, row, lo, hi),
        unchanged_outside(a, b, oc, or, w, h),
    ensures
        unchanged_outside(a, b, oc, row, w, 1),
{
    assert forall|x: int, y: int| a.in_bounds(x, y) && !(oc <= x < oc + w && row <= y < row + 1)
        implies #[trigger] b.at(x, y) == a.at(x, y) by {
        if y != row {
            assert(b.at(x, y) == a.at(x, y));
        }
    }
}

/// A region with no rows changes nothing, so it is confined to any region.
pub proof fn lemma_unchanged_outside_no_rows(
    a: CanvasModel, b: CanvasModel, oc: int, or: int, w: int, oc2: int, or2: int, w2: int, h2: int,
)
    requires
        unchanged_outside(a, b, oc, or, w, 0),
    ensures
        unchanged_outside(a, b, oc2, or2, w2, h2),
{
    assert forall|x: int, y: int| a.in_bounds(x, y) && !(oc2 <= x < oc2 + w2 && or2 <= y < or2 + h2)
        implies #[trigger] b.at(x, y) == a.at(x, y) by {
    }
}

proof fn lemma_set_spec(m: CanvasModel, col: int, row: int, cell: Cell)
    requires
        m.wf(),
    ensures
        set_spec(m, col, row, cell).wf(),
        set_spec(m, col, row, cell).width == m.width,
        set_spec(m, col, row, cell).height == m.height,
        m.in_bounds(col, row) ==> set_spec(m, col, row, cell).at(col, row) == cell,
        forall|c: int, r: int| #![trigger set_spec(m, col, row, cell).at(c, r)]
            m.in_bounds(c, r) && !(r == row && (c == col || c == col + 1))
            ==> set_spec(m, col, row, cell).at(c, r) == m.at(c, r),
        unicode_char_width(cell.ch) != Some(2usize) ==> forall|c: int, r: int| #![trigger set_spec(m, col, row, cell).at(c, r)]
            m.in_bounds(c, r) && !(r == row && c == col) ==> set_spec(m, col, row, cell).at(c, r) == m.at(c, r),
{
    lemma_set_within(m, col, row, cell, m.width);
}

proof fn lemma_set_within(m: CanvasModel, col: int, row: int, cell: Cell, limit: int)
    requires
        m.wf(),
    ensures
        set_within(m, col, row, cell, limit).wf(),
        set_within(m, col, row, cell, limit).width == m.width,
        set_within(m, col, row, cell, limit).height == m.height,
        m.in_bounds(col, row) ==> set_within(m, col, row, cell, limit).at(col, row) == cell,
        forall|c: int, r: int| #![trigger set_within(m, col, row, cell, limit).at(c, r)]
            m.in_bounds(c, r) && !(r == row && (c == col || (c == col + 1 && c < limit)))
            ==> set_within(m, col, row, cell, limit).at(c, r) == m.at(c, r),
        unicode_char_width(cell.ch) != Some(2usize) ==> forall|c: int, r: int| #![trigger set_within(m, col, row, cell, limit).at(c, r)]
            m.in_bounds(c, r) && !(r == row && c == col) ==> set_within(m, col, row, cell, limit).at(c, r) == m.at(c, r),
{
    if m.in_bounds(col, row) {
        lemma_cell_index(m.width, m.height, col, row);
        if col + 1 < m.width {
            lemma_cell_index(m.width, m.height, col + 1, row);
        }
        let s = set_within(m, col, row, cell, limit);
        assert forall|c: int, r: int| #![trigger s.at(c, r)]
            m.in_bounds(c, r) && !(r == row && (c == col || (c == col + 1 && c < limit))) implies s.at(c, r) == m.at(c, r) by {
            lemma_cell_index(m.width, m.height, c, r);
        }
        if unicode_char_width(cell.ch) != Some(2usize) {
            assert forall|c: int, r: int| #![trigger s.at(c, r)]
                m.in_bounds(c, r) && !(r == row && c == col) implies s.at(c, r) == m.at(c, r) by {
                lemma_cell_index(m.width, m.height, c, r);
            }
        }
    }
}

/// A region write changes nothing outside the region (plus the continuation column).
pub proof fn lemma_region_set(m: CanvasModel, oc: int, or: int, w: int, h: int, col: int, row: int, cell: Cell)
    requires
        m.wf(),
        w > 0 ==> 0 <= oc && oc + w <= m.width,
        h > 0 ==> 0 <= or && or + h <= m.height,
    ensures
        region_set(m, oc, or, w, h, col, row, cell).wf(),
        unchanged_outside(m, region_set(m, oc, or, w, h, col, row, cell), oc, or, w, h),
{
    lemma_set_within(m, oc + col, or + row, cell, oc + w);
}

/// An off-screen rectangular cell buffer.
///
/// Coordinates are zero-based: (0, 0) is the top-left corner.
/// The buffer is stored row-major: `index = row * width + col`.
pub struct Canvas {
    width: u16,
    height: u16,
    cells: Vec<Cell>,
}

impl View for Canvas {
    type V = CanvasModel;

    closed spec fn view(&self) -> CanvasModel {
        CanvasModel { width: self.width as int, height: self.height as int, cells: self.cells@ }
    }
}

fn blank_cells(n: usize) -> (v: Vec<Cell>)
    ensures
        v@ == Seq::new(n as nat, |i: int| blank_cell()),
{
    let mut v: Vec<Cell> = Vec::new();
    let mut i: usize = 0;
    while i < n
        invariant
            i <= n,
            v@ == Seq::new(i as nat, |k: int| blank_cell()),
        decreases n - i,
    {
        v.push(Cell::blank());
        i += 1;
        assert(v@ =~= Seq::new(i as nat, |k: int| blank_cell()));
    }
    v
}

impl Canvas {
    /// Create a new canvas filled with blank cells.
    pub fn new(width: u16, height: u16) -> (c: Self)
        ensures
            c@.wf(),
            c@.width == width,
            c@.height == height,
            c@.cells == Seq::new((width * height) as nat, |i: int| blank_cell()),
    {
        assert(width as int * height as int <= 4294836225) by (nonlinear_arith)
            requires width <= 65535, height <= 65535;
        let n = width as usize * height as usize;
        Canvas { width, height, cells: blank_cells(n) }
    }

    /// Resize the canvas, discarding existing content.
    pub fn resize(&mut self, width: u16, height: u16)
        ensures
            final(self)@.wf(),
            final(self)@.width == width,
            final(self)@.height == height,
            final(self)@.cells == Seq::new((width * height) as nat, |i: int| blank_cell()),
    {
        assert(width as int * height as int <= 4294836225) by (nonlinear_arith)
            requires width <= 65535, height <= 65535;
        let n = width as usize * height as usize;
        *self = Canvas { width, height, cells: blank_cells(n) };
    }

    /// Fill the entire canvas with blank cells.
    pub fn clear(&mut self)
        requires
            old(self)@.wf(),
        ensures
            final(self)@.wf(),
            final(self)@.width == old(self)@.width,
            final(self)@.height == old(self)@.height,
            final(self)@.cells == Seq::new(old(self)@.cells.len(), |i: int| blank_cell()),
    {
        let n = self.cells.len();
        self.cells = blank_cells(n);
    }

    pub fn width(&self) -> (w: u16)
        ensures
            w == self@.width,
    {
        self.width
    }

    pub fn height(&self) -> (h: u16)
        ensures
            h == self@.height,
    {
        self.height
    }

    /// All cells, row-major.
    pub fn cells(&self) -> (c: &[Cell])
        ensures
            c@ == self@.cells,
    {
        self.cells.as_slice()
    }

    fn idx(&self, col: u16, row: u16) -> (r: Option<usize>)
        requires
            self@.wf(),
        ensures
            self@.in_bounds(col as int, row as int) <==> r is Some,
            r matches Some(i) ==> i == row * self@.width + col && i < self@.cells.len(),
    {
        if col < self.width && row < self.height {
            proof {
                lemma_cell_index(self.width as int, self.height as int, col as int, row as int);
                assert(row as int * self.width as int <= 4294836225) by (nonlinear_arith)
                    requires row <= 65535, self.width <= 65535;
            }
            Some(row as usize * self.width as usize + col as usize)
        } else {
            None
        }
    }

    /// Write a single cell.  Out-of-bounds writes are silently ignored.
    pub fn set(&mut self, col: u16, row: u16, cell: Cell)
        requires
            old(self)@.wf(),
        ensures
            final(self)@ == set_spec(old(self)@, col as int, row as int, cell),
            final(self)@.wf(),
    {
        let w = self.width;
        self.set_within(col, row, cell, w);
    }

    /// Write a single cell whose wide continuation is kept left of column
    /// `limit`; out-of-bounds writes are silently ignored.
    pub fn set_within(&mut self, col: u16, row: u16, cell: Cell, limit: u16)
        requires
            old(self)@.wf(),
        ensures
            final(self)@ == set_within(old(self)@, col as int, row as int, cell, limit as int),
            final(self)@.wf(),
    {
        proof {
            lemma_set_within(self@, col as int, row as int, cell, limit as int);
        }
        let ghost m0 = self@;
        if let Some(i) = self.idx(col, row) {
            // Handle wide characters: mark the next column as a continuation.
            let w = match char_width(cell.ch) {
                Some(w) => w,
                None => 1,
            };
            self.cells.set(i, cell);
            if w == 2 && (col as u32) + 1 < limit as u32 {
                if let Some(j) = self.idx(col + 1, row) {
                    proof {
                        lemma_cell_index(self.width as int, self.height as int, col as int + 1, row as int);
                    }
                    self.cells.set(j, Cell {
                        ch: ' ',
                        fg: cell.fg,
                        bg: cell.bg,
                        style: cell.style,
                        wide_continuation: true,
                    });
                }
            }
            assert(self@ =~= set_within(m0, col as int, row as int, cell, limit as int));
        }
    }

    /// The cell at `(col, row)`, or a blank cell off the canvas.
    pub fn get(&self, col: u16, row: u16) -> (c: Cell)
        requires
            self@.wf(),
        ensures
            c == self@.get(col as int, row as int),
    {
        match self.idx(col, row) {
            Some(i) => self.cells[i],
            None => Cell::blank(),
        }
    }
}


/// On a full canvas a region write is a plain `set_spec`.
proof fn lemma_region_set_full(m: CanvasModel, col: int, row: int, cell: Cell)
    ensures
        region_set(m, 0, 0, m.width, m.height, col, row, cell) == set_spec(m, col, row, cell),
{
}

/// Printing on a row below the region changes nothing.
proof fn lemma_print_off_rows(
    m: CanvasModel, oc: int, or: int, w: int, h: int,
    col: int, row: int, chars: Seq<char>, fg: Color, bg: Color, style: StyleFlags,
)
    requires
        !(0 <= row < h),
    ensures
        print_spec(m, oc, or, w, h, col, row, chars, fg, bg, style) == m,
    decreases chars.len(),
{
    if chars.len() > 0 && col < w {
        lemma_print_off_rows(m, oc, or, w, h, col + cw(chars[0]), row, chars.drop_first(), fg, bg, style);
    }
}

/// A print stays in its region and keeps the canvas well formed.
pub proof fn lemma_print_spec(
    m: CanvasModel, oc: int, or: int, w: int, h: int,
    col: int, row: int, chars: Seq<char>, fg: Color, bg: Color, style: StyleFlags,
)
    requires
        m.wf(),
        w > 0 ==> 0 <= oc && oc + w <= m.width,
        h > 0 ==> 0 <= or && or + h <= m.height,
    ensures
        print_spec(m, oc, or, w, h, col, row, chars, fg, bg, style).wf(),
        unchanged_outside(m, print_spec(m, oc, or, w, h, col, row, chars, fg, bg, style), oc, or, w, h),
    decreases chars.len(),
{
    if chars.len() == 0 || col >= w {
    } else {
        let m1 = region_set(m, oc, or, w, h, col, row, text_cell(chars[0], fg, bg, style));
        lemma_region_set(m, oc, or, w, h, col, row, text_cell(chars[0], fg, bg, style));
        lemma_print_spec(m1, oc, or, w, h, col + cw(chars[0]), row, chars.drop_first(), fg, bg, style);
        lemma_unchanged_outside_trans(m, m1, print_spec(m1, oc, or, w, h, col + cw(chars[0]), row, chars.drop_first(), fg, bg, style), oc, or, w, h);
    }
}

/// A horizontal fill stays in its region and keeps the canvas well formed.
pub proof fn lemma_fill_h_spec(m: CanvasModel, oc: int, or: int, w: int, h: int, col: int, row: int, end: int, cell: Cell)
    requires
        m.wf(),
        w > 0 ==> 0 <= oc && oc + w <= m.width,
        h > 0 ==> 0 <= or && or + h <= m.height,
    ensures
        fill_h_spec(m, oc, or, w, h, col, row, end, cell).wf(),
        unchanged_outside(m, fill_h_spec(m, oc, or, w, h, col, row, end, cell), oc, or, w, h),
    decreases end - col,
{
    if col >= end || col >= w {
    } else {
        let m1 = region_set(m, oc, or, w, h, col, row, cell);
        lemma_region_set(m, oc, or, w, h, col, row, cell);
        lemma_fill_h_spec(m1, oc, or, w, h, col + 1, row, end, cell);
        lemma_unchanged_outside_trans(m, m1, fill_h_spec(m1, oc, or, w, h, col + 1, row, end, cell), oc, or, w, h);
    }
}

/// A vertical fill stays in its region and keeps the canvas well formed.
pub proof fn lemma_fill_v_spec(m: CanvasModel, oc: int, or: int, w: int, h: int, col: int, row: int, end: int, cell: Cell)
    requires
        m.wf(),
        w > 0 ==> 0 <= oc && oc + w <= m.width,
        h > 0 ==> 0 <= or && or + h <= m.height,
    ensures
        fill_v_spec(m, oc, or, w, h, col, row, end, cell).wf(),
        unchanged_outside(m, fill_v_spec(m, oc, or, w, h, col, row, end, cell), oc, or, w, h),
    decreases end - row,
{
    if row >= end || row >= h {
    } else {
        let m1 = region_set(m, oc, or, w, h, col, row, cell);
        lemma_region_set(m, oc, or, w, h, col, row, cell);
        lemma_fill_v_spec(m1, oc, or, w, h, col, row + 1, end, cell);
        lemma_unchanged_outside_trans(m, m1, fill_v_spec(m1, oc, or, w, h, col, row + 1, end, cell), oc, or, w, h);
    }
}

/// `after` is `before` but on row `row`, where it may differ at columns
/// `lo ..= hi`.
pub open spec fn changed_only_in_row(before: CanvasModel, after: CanvasModel, row: int, lo: int, hi: int) -> bool {
    &&& after.width == before.width
    &&& after.height == before.height
    &&& after.cells.len() == before.cells.len()
    &&& forall|c: int, r: int| #![trigger after.at(c, r)]
        before.in_bounds(c, r) && !(r == row && lo <= c <= hi) ==> after.at(c, r) == before.at(c, r)
}

/// A region write changes at most its cell and the one after it, and puts
/// `cell` in its place when that is inside the region.
pub proof fn lemma_region_set_row(m: CanvasModel, oc: int, or: int, w: int, h: int, col: int, row: int, cell: Cell)
    requires
        m.wf(),
        w > 0 ==> 0 <= oc && oc + w <= m.width,
        h > 0 ==> 0 <= or && or + h <= m.height,
    ensures
        changed_only_in_row(m, region_set(m, oc, or, w, h, col, row, cell), or + row, oc + col, oc + col + 1),
        0 <= col < w && 0 <= row < h ==> region_set(m, oc, or, w, h, col, row, cell).at(oc + col, or + row) == cell,
{
    lemma_set_within(m, oc + col, or + row, cell, oc + w);
}

/// A horizontal fill from `col` writes `cell` at every column it reaches,
/// and changes nothing but that stretch of its row and the column after it.
pub proof fn lemma_fill_h_content(m: CanvasModel, oc: int, or: int, w: int, h: int, col: int, row: int, end: int, cell: Cell)
    requires
        m.wf(),
        w > 0 ==> 0 <= oc && oc + w <= m.width,
        h > 0 ==> 0 <= or && or + h <= m.height,
        0 <= col,
    ensures
        changed_only_in_row(m, fill_h_spec(m, oc, or, w, h, col, row, end, cell), or + row, oc + col,
            oc + (if end < w { end } else { w })),
        0 <= row < h ==> forall|c: int| col <= c < end && c < w ==>
            #[trigger] fill_h_spec(m, oc, or, w, h, col, row, end, cell).at(oc + c, or + row) == cell,
    decreases end - col,
{
    if col >= end || col >= w {
    } else {
        let m1 = region_set(m, oc, or, w, h, col, row, cell);
        lemma_region_set_row(m, oc, or, w, h, col, row, cell);
        lemma_region_set(m, oc, or, w, h, col, row, cell);
        lemma_fill_h_content(m1, oc, or, w, h, col + 1, row, end, cell);
        let m2 = fill_h_spec(m1, oc, or, w, h, col + 1, row, end, cell);
        if 0 <= row < h {
            assert forall|c: int| col <= c < end && c < w implies #[trigger] m2.at(oc + c, or + row) == cell by {
                if c == col {
                    assert(m2.at(oc + c, or + row) == m1.at(oc + c, or + row));
                }
            }
        }
    }
}

/// A print changes nothing but its own row, from its starting column on.
pub proof fn lemma_print_row(
    m: CanvasModel, oc: int, or: int, w: int, h: int,
    col: int, row: int, chars: Seq<char>, fg: Color, bg: Color, style: StyleFlags,
)
    requires
        m.wf(),
        w > 0 ==> 0 <= oc && oc + w <= m.width,
        h > 0 ==> 0 <= or && or + h <= m.height,
        0 <= col,
    ensures
        changed_only_in_row(m, print_spec(m, oc, or, w, h, col, row, chars, fg, bg, style), or + row, oc + col, oc + w),
    decreases chars.len(),
{
    if chars.len() == 0 || col >= w {
    } else {
        let m1 = region_set(m, oc, or, w, h, col, row, text_cell(chars[0], fg, bg, style));
        lemma_region_set_row(m, oc, or, w, h, col, row, text_cell(chars[0], fg, bg, style));
        lemma_region_set(m, oc, or, w, h, col, row, text_cell(chars[0], fg, bg, style));
        lemma_print_row(m1, oc, or, w, h, col + cw(chars[0]), row, chars.drop_first(), fg, bg, style);
    }
}

/// Two changes confined to stretches of one row are confined to a stretch
/// that covers both.
pub proof fn lemma_changed_only_in_row_trans(
    a: CanvasModel, b: CanvasModel, c: CanvasModel, row: int, lo1: int, hi1: int, lo2: int, hi2: int, lo: int, hi: int,
)
    requires
        changed_only_in_row(a, b, row, lo1, hi1),
        changed_only_in_row(b, c, row, lo2, hi2),
        lo <= lo1,
        lo <= lo2,
        hi1 <= hi,
        hi2 <= hi,
    ensures
        changed_only_in_row(a, c, row, lo, hi),
{
    assert forall|x: int, y: int| a.in_bounds(x, y) && !(y == row && lo <= x <= hi)
        implies #[trigger] c.at(x, y) == a.at(x, y) by {
        assert(b.at(x, y) == a.at(x, y));
    }
}

/// A change confined to a stretch of one row is confined to the one-row
/// region that starts there.
pub proof fn lemma_row_change_region(a: CanvasModel, b: CanvasModel, row: int, lo: int, hi: int)
    requires
        changed_only_in_row(a, b, row, lo, hi),
    ensures
        unchanged_outside(a, b, lo, row, hi - lo + 1, 1),
{
}

/// The columns a write at local column `col` of a region `w` wide can touch:
/// its own and, inside the region, the one after it (a wide character's
/// continuation).
pub open spec fn write_span(col: int, w: int) -> int {
    if col + 1 < w { 2 } else { 1 }
}

/// A vertical fill changes nothing but its column (and the one after it,
/// for a wide character, when that is inside the region) on the rows it covers.
pub proof fn lemma_fill_v_column(
    m: CanvasModel, oc: int, or: int, w: int, h: int, col: int, row0: int, row: int, end: int, cell: Cell,
)
    requires
        m.wf(),
        w > 0 ==> 0 <= oc && oc + w <= m.width,
        h > 0 ==> 0 <= or && or + h <= m.height,
        row0 <= row,
    ensures
        unchanged_outside(m, fill_v_spec(m, oc, or, w, h, col, row, end, cell), oc + col, or + row0, write_span(col, w),
            end - row0),
    decreases end - row,
{
    if row >= end || row >= h {
    } else {
        let m1 = region_set(m, oc, or, w, h, col, row, cell);
        lemma_region_set_row(m, oc, or, w, h, col, row, cell);
        lemma_region_set(m, oc, or, w, h, col, row, cell);
        lemma_fill_v_column(m1, oc, or, w, h, col, row0, row + 1, end, cell);
        assert(unchanged_outside(m, m1, oc + col, or + row0, write_span(col, w), end - row0));
        lemma_unchanged_outside_trans(m, m1, fill_v_spec(m1, oc, or, w, h, col, row + 1, end, cell),
            oc + col, or + row0, write_span(col, w), end - row0);
    }
}

/// A vertical fill inside the region writes `cell` on every row it reaches.
pub proof fn lemma_fill_v_content(m: CanvasModel, oc: int, or: int, w: int, h: int, col: int, row: int, end: int, cell: Cell)
    requires
        m.wf(),
        w > 0 ==> 0 <= oc && oc + w <= m.width,
        h > 0 ==> 0 <= or && or + h <= m.height,
        0 <= row,
        0 <= col < w,
    ensures
        forall|r: int| row <= r < end && r < h ==>
            #[trigger] fill_v_spec(m, oc, or, w, h, col, row, end, cell).at(oc + col, or + r) == cell,
    decreases end - row,
{
    if row >= end || row >= h {
    } else {
        let m1 = region_set(m, oc, or, w, h, col, row, cell);
        lemma_region_set_row(m, oc, or, w, h, col, row, cell);
        lemma_region_set(m, oc, or, w, h, col, row, cell);
        lemma_fill_v_content(m1, oc, or, w, h, col, row + 1, end, cell);
        lemma_fill_v_column(m1, oc, or, w, h, col, row + 1, row + 1, end, cell);
        let m2 = fill_v_spec(m1, oc, or, w, h, col, row + 1, end, cell);
        assert forall|r: int| row <= r < end && r < h implies #[trigger] m2.at(oc + col, or + r) == cell by {
            if r == row {
                assert(m1.in_bounds(oc + col, or + r));
            }
        }
    }
}

/// `after` is `before` on every row but `row`.
pub open spec fn only_row_changed(before: CanvasModel, after: CanvasModel, row: int) -> bool {
    &&& after.width == before.width
    &&& after.height == before.height
    &&& after.cells.len() == before.cells.len()
    &&& forall|c: int, r: int| #![trigger after.at(c, r)]
        before.in_bounds(c, r) && r != row ==> after.at(c, r) == before.at(c, r)
}

/// Row `row` reads the same in `after` as in `before`.
pub open spec fn row_kept(before: CanvasModel, after: CanvasModel, row: int) -> bool {
    forall|c: int| 0 <= c < before.width ==> #[trigger] after.at(c, row) == before.at(c, row)
}

/// A change confined to a stretch of a row is confined to that row.
pub proof fn lemma_only_row_changed(a: CanvasModel, b: CanvasModel, row: int, lo: int, hi: int)
    requires
        changed_only_in_row(a, b, row, lo, hi),
    ensures
        only_row_changed(a, b, row),
{
}

/// Two changes confined to one row make a change confined to it.
pub proof fn lemma_only_row_changed_trans(a: CanvasModel, b: CanvasModel, c: CanvasModel, row: int)
    requires
        only_row_changed(a, b, row),
        only_row_changed(b, c, row),
    ensures
        only_row_changed(a, c, row),
{
    assert forall|x: int, y: int| a.in_bounds(x, y) && y != row implies #[trigger] c.at(x, y) == a.at(x, y) by {
        assert(b.at(x, y) == a.at(x, y));
    }
}

/// A write keeps every other row of the canvas as it was.
pub proof fn lemma_row_kept_elsewhere(a: CanvasModel, b: CanvasModel, row: int, other: int)
    requires
        only_row_changed(a, b, row),
        other != row,
        0 <= other < a.height,
    ensures
        row_kept(a, b, other),
{
    assert forall|c: int| 0 <= c < a.width implies #[trigger] b.at(c, other) == a.at(c, other) by {
        assert(a.in_bounds(c, other));
    }
}

/// A row kept by two changes in turn is kept by both together.
pub proof fn lemma_row_kept_trans(a: CanvasModel, b: CanvasModel, c: CanvasModel, row: int)
    requires
        row_kept(a, b, row),
        row_kept(b, c, row),
        a.width == b.width,
    ensures
        row_kept(a, c, row),
{
    assert forall|x: int| 0 <= x < a.width implies #[trigger] c.at(x, row) == a.at(x, row) by {
        assert(b.at(x, row) == a.at(x, row));
    }
}

/// What a write leaves on its row depends only on that row.
proof fn lemma_set_row_local(a: CanvasModel, b: CanvasModel, col: int, row: int, cell: Cell, limit: int)
    requires
        a.wf(),
        b.wf(),
        a.width == b.width,
        a.height == b.height,
        0 <= row < a.height,
        row_kept(a, b, row),
    ensures
        row_kept(set_within(a, col, row, cell, limit), set_within(b, col, row, cell, limit), row),
{
    let sa = set_within(a, col, row, cell, limit);
    let sb = set_within(b, col, row, cell, limit);
    assert forall|c: int| 0 <= c < sa.width implies #[trigger] sb.at(c, row) == sa.at(c, row) by {
        lemma_cell_index(a.width, a.height, c, row);
        assert(b.at(c, row) == a.at(c, row));
        let j = row * a.width + c;
        assert(b.cells[j] == a.cells[j]);
        if a.in_bounds(col, row) {
            lemma_cell_index(a.width, a.height, col, row);
            let i = row * a.width + col;
            assert(j - i == c - col);
            let ca1 = a.cells.update(i, cell);
            let cb1 = b.cells.update(i, cell);
            assert(ca1[j] == cb1[j]);
            if unicode_char_width(cell.ch) == Some(2usize) && col + 1 < a.width && col + 1 < limit {
                lemma_cell_index(a.width, a.height, col + 1, row);
                assert(ca1.update(i + 1, continuation_of(cell))[j] == cb1.update(i + 1, continuation_of(cell))[j]);
            }
        }
    }
}

/// What a region write leaves on its row depends only on that row.
pub proof fn lemma_region_set_row_local(
    a: CanvasModel, b: CanvasModel, oc: int, or: int, w: int, h: int, col: int, row: int, cell: Cell,
)
    requires
        a.wf(),
        b.wf(),
        a.width == b.width,
        a.height == b.height,
        0 <= or + row < a.height,
        w > 0 ==> 0 <= oc && oc + w <= a.width,
        h > 0 ==> 0 <= or && or + h <= a.height,
        row_kept(a, b, or + row),
    ensures
        row_kept(region_set(a, oc, or, w, h, col, row, cell), region_set(b, oc, or, w, h, col, row, cell), or + row),
{
    if 0 <= col < w && 0 <= row < h {
        lemma_set_row_local(a, b, oc + col, or + row, cell, oc + w);
    }
}

/// What a horizontal fill leaves on its row depends only on that row.
pub proof fn lemma_fill_h_row_local(
    a: CanvasModel, b: CanvasModel, oc: int, or: int, w: int, h: int, col: int, row: int, end: int, cell: Cell,
)
    requires
        a.wf(),
        b.wf(),
        a.width == b.width,
        a.height == b.height,
        0 <= or + row < a.height,
        w > 0 ==> 0 <= oc && oc + w <= a.width,
        h > 0 ==> 0 <= or && or + h <= a.height,
        row_kept(a, b, or + row),
    ensures
        row_kept(fill_h_spec(a, oc, or, w, h, col, row, end, cell), fill_h_spec(b, oc, or, w, h, col, row, end, cell),
            or + row),
    decreases end - col,
{
    if col >= end || col >= w {
    } else {
        lemma_region_set_row_local(a, b, oc, or, w, h, col, row, cell);
        lemma_region_set(a, oc, or, w, h, col, row, cell);
        lemma_region_set(b, oc, or, w, h, col, row, cell);
        lemma_fill_h_row_local(region_set(a, oc, or, w, h, col, row, cell), region_set(b, oc, or, w, h, col, row, cell),
            oc, or, w, h, col + 1, row, end, cell);
    }
}

/// What a print leaves on its row depends only on that row.
pub proof fn lemma_print_row_local(
    a: CanvasModel, b: CanvasModel, oc: int, or: int, w: int, h: int,
    col: int, row: int, chars: Seq<char>, fg: Color, bg: Color, style: StyleFlags,
)
    requires
        a.wf(),
        b.wf(),
        a.width == b.width,
        a.height == b.height,
        0 <= or + row < a.height,
        w > 0 ==> 0 <= oc && oc + w <= a.width,
        h > 0 ==> 0 <= or && or + h <= a.height,
        row_kept(a, b, or + row),
    ensures
        row_kept(print_spec(a, oc, or, w, h, col, row, chars, fg, bg, style),
            print_spec(b, oc, or, w, h, col, row, chars, fg, bg, style), or + row),
    decreases chars.len(),
{
    if chars.len() == 0 || col >= w {
    } else {
        let cell = text_cell(chars[0], fg, bg, style);
        let a1 = region_set(a, oc, or, w, h, col, row, cell);
        let b1 = region_set(b, oc, or, w, h, col, row, cell);
        if 0 <= col < w && 0 <= row < h {
            lemma_set_row_local(a, b, oc + col, or + row, cell, oc + w);
        }
        lemma_region_set(a, oc, or, w, h, col, row, cell);
        lemma_region_set(b, oc, or, w, h, col, row, cell);
        lemma_print_row_local(a1, b1, oc, or, w, h, col + cw(chars[0]), row, chars.drop_first(), fg, bg, style);
    }
}

impl Canvas {
    /// Write a string starting at `(col, row)`.  Wide characters automatically
    /// advance the cursor by 2 columns.  Text is clipped at the canvas edge.
    pub fn print(&mut self, col: u16, row: u16, s: &str, fg: Color, bg: Color, style: StyleFlags)
        requires
            old(self)@.wf(),
            old(self)@.width + 2 <= u16::MAX || print_fits(old(self)@.width, col as int, s@),
        ensures
            final(self)@ == print_spec(old(self)@, 0, 0, old(self)@.width, old(self)@.height, col as int, row as int, s@, fg, bg, style),
            final(self)@.wf(),
    {
        let ghost m0 = self@;
        let ghost w0 = self@.width;
        let ghost h0 = self@.height;
        let n = s.unicode_len();
        let mut c: u16 = col;
        let mut i: usize = 0;
        assert(s@.subrange(0, n as int) =~= s@);
        while i < n && c < self.width
            invariant
                self@.wf(),
                self@.width == w0,
                self@.height == h0,
                i <= n,
                n == s@.len(),
                print_spec(self@, 0, 0, w0, h0, c as int, row as int, s@.subrange(i as int, n as int), fg, bg, style)
                    == print_spec(m0, 0, 0, w0, h0, col as int, row as int, s@, fg, bg, style),
                w0 + 2 <= u16::MAX || print_fits(w0, c as int, s@.subrange(i as int, n as int)),
            decreases n - i,
        {
            let ch = s.get_char(i);
            let w = advance_width(ch) as u16;
            let ghost rest = s@.subrange(i as int, n as int);
            assert(rest[0] == ch);
            assert(rest.drop_first() =~= s@.subrange(i + 1, n as int));
            proof {
                lemma_region_set_full(self@, c as int, row as int, text_cell(ch, fg, bg, style));
            }
            self.set(c, row, Cell { ch, fg, bg, style, wide_continuation: false });
            c = c + w;
            i += 1;
        }
    }

    /// Fill a horizontal span with a single character (e.g. border lines).
    pub fn fill_h(&mut self, col: u16, row: u16, len: u16, ch: char, fg: Color, bg: Color)
        requires
            old(self)@.wf(),
        ensures
            final(self)@ == fill_h_spec(old(self)@, 0, 0, old(self)@.width, old(self)@.height, col as int, row as int,
                if col + len > u16::MAX { u16::MAX as int } else { col + len }, line_cell(ch, fg, bg)),
            final(self)@.wf(),
    {
        let ghost m0 = self@;
        let ghost w0 = self@.width;
        let ghost h0 = self@.height;
        let end = col.saturating_add(len);
        let mut c: u16 = col;
        while c < end && c < self.width
            invariant
                self@.wf(),
                self@.width == w0,
                self@.height == h0,
                col <= c,
                fill_h_spec(self@, 0, 0, w0, h0, c as int, row as int, end as int, line_cell(ch, fg, bg))
                    == fill_h_spec(m0, 0, 0, w0, h0, col as int, row as int, end as int, line_cell(ch, fg, bg)),
            decreases end - c,
        {
            proof {
                lemma_region_set_full(self@, c as int, row as int, line_cell(ch, fg, bg));
            }
            self.set(c, row, Cell { ch, fg, bg, style: StyleFlags::empty(), wide_continuation: false });
            c += 1;
        }
    }

    /// Fill a vertical span with a single character.
    pub fn fill_v(&mut self, col: u16, row: u16, len: u16, ch: char, fg: Color, bg: Color)
        requires
            old(self)@.wf(),
        ensures
            final(self)@ == fill_v_spec(old(self)@, 0, 0, old(self)@.width, old(self)@.height, col as int, row as int,
                if row + len > u16::MAX { u16::MAX as int } else { row + len }, line_cell(ch, fg, bg)),
            final(self)@.wf(),
    {
        let ghost m0 = self@;
        let ghost w0 = self@.width;
        let ghost h0 = self@.height;
        let end = row.saturating_add(len);
        let mut r: u16 = row;
        while r < end && r < self.height
            invariant
                self@.wf(),
                self@.width == w0,
                self@.height == h0,
                row <= r,
                fill_v_spec(self@, 0, 0, w0, h0, col as int, r as int, end as int, line_cell(ch, fg, bg))
                    == fill_v_spec(m0, 0, 0, w0, h0, col as int, row as int, end as int, line_cell(ch, fg, bg)),
            decreases end - r,
        {
            proof {
                lemma_region_set_full(self@, col as int, r as int, line_cell(ch, fg, bg));
            }
            self.set(col, r, Cell { ch, fg, bg, style: StyleFlags::empty(), wide_continuation: false });
            r += 1;
        }
    }

    /// Return a `SubCanvas` view into a sub-rectangle of this canvas, clamped
    /// to fit.  Writes to the `SubCanvas` are translated into the parent's
    /// coordinate space.
    pub fn sub(&mut self, col: u16, row: u16, width: u16, height: u16) -> (r: SubCanvas<'_>)
        requires
            old(self)@.wf(),
        ensures
            *r.parent == *old(self),
            *final(self) == *final(r.parent),
            r.origin_col == col,
            r.origin_row == row,
            r.width == min_sat(width as int, old(self)@.width, col as int),
            r.height == min_sat(height as int, old(self)@.height, row as int),
            r.wf(),
    {
        let w = if width < self.width.saturating_sub(col) { width } else { self.width.saturating_sub(col) };
        let h = if height < self.height.saturating_sub(row) { height } else { self.height.saturating_sub(row) };
        SubCanvas { parent: self, origin_col: col, origin_row: row, width: w, height: h }
    }
}

/// `after` is `before` with every cell of the region blanked and every other cell kept.
pub open spec fn region_cleared(before: CanvasModel, after: CanvasModel, oc: int, or: int, w: int, h: int) -> bool {
    &&& after.width == before.width
    &&& after.height == before.height
    &&& forall|c: int, r: int| #![trigger after.at(c, r)] before.in_bounds(c, r) ==>
        if oc <= c < oc + w && or <= r < or + h { after.at(c, r) == blank_cell() }
        else { after.at(c, r) == before.at(c, r) }
}

/// `min(want, avail - start)`, where a negative difference counts as zero.
pub open spec fn min_sat(want: int, avail: int, start: int) -> int {
    let room = if avail - start < 0 { 0 } else { avail - start };
    if want < room { want } else { room }
}

// ---------------------------------------------------------------------------
// SubCanvas — a borrowed rectangular view into a parent Canvas
// ---------------------------------------------------------------------------

/// A borrowed view into a rectangular sub-region of a `Canvas`.
/// All coordinates are local (0, 0 = top-left of the sub-region).
pub struct SubCanvas<'a> {
    pub parent: &'a mut Canvas,
    pub origin_col: u16,
    pub origin_row: u16,
    pub width: u16,
    pub height: u16,
}

impl<'a> SubCanvas<'a> {
    /// The parent is well formed and a non-empty region lies inside it.
    pub open spec fn wf(&self) -> bool {
        &&& self.parent@.wf()
        &&& self.width > 0 ==> self.origin_col + self.width <= self.parent@.width
        &&& self.height > 0 ==> self.origin_row + self.height <= self.parent@.height
    }

    /// Same origin and size as `other`.
    pub open spec fn same_frame(&self, other: &SubCanvas) -> bool {
        &&& self.origin_col == other.origin_col
        &&& self.origin_row == other.origin_row
        &&& self.width == other.width
        &&& self.height == other.height
    }

    /// What `get` returns for local `(col, row)`.
    pub open spec fn get_spec(&self, col: int, row: int) -> Cell {
        if 0 <= col < self.width && 0 <= row < self.height {
            self.parent@.get(self.origin_col + col, self.origin_row + row)
        } else {
            blank_cell()
        }
    }

    pub fn width(&self) -> (w: u16)
        ensures
            w == self.width,
    {
        self.width
    }

    pub fn height(&self) -> (h: u16)
        ensures
            h == self.height,
    {
        self.height
    }

    /// Write a cell at local `(col, row)`; writes outside the region are
    /// ignored, and a wide character's continuation is dropped at the
    /// region's right edge.
    pub fn set(&mut self, col: u16, row: u16, cell: Cell)
        requires
            old(self).wf(),
        ensures
            final(self).same_frame(old(self)),
            final(self).wf(),
            final(self).parent@ == region_set(old(self).parent@, old(self).origin_col as int, old(self).origin_row as int,
                old(self).width as int, old(self).height as int, col as int, row as int, cell),
            unchanged_outside(old(self).parent@, final(self).parent@, old(self).origin_col as int,
                old(self).origin_row as int, old(self).width as int, old(self).height as int),
            *final(final(self).parent) == *final(old(self).parent),
    {
        proof {
            lemma_region_set(self.parent@, self.origin_col as int, self.origin_row as int, self.width as int,
                self.height as int, col as int, row as int, cell);
        }
        if col < self.width && row < self.height {
            let limit = self.origin_col + self.width;
            self.parent.set_within(self.origin_col + col, self.origin_row + row, cell, limit);
        }
    }

    /// The cell at local `(col, row)`, or a blank cell outside the region.
    pub fn get(&self, col: u16, row: u16) -> (c: Cell)
        requires
            self.wf(),
        ensures
            c == self.get_spec(col as int, row as int),
    {
        if col < self.width && row < self.height {
            self.parent.get(self.origin_col + col, self.origin_row + row)
        } else {
            Cell::blank()
        }
    }

    /// Write a string starting at local `(col, row)`, clipped at the region's edge.
    pub fn print(&mut self, col: u16, row: u16, s: &str, fg: Color, bg: Color, style: StyleFlags)
        requires
            old(self).wf(),
            row < old(self).height ==> (old(self).width + 2 <= u16::MAX || print_fits(old(self).width as int, col as int, s@)),
        ensures
            final(self).same_frame(old(self)),
            final(self).wf(),
            final(self).parent@ == print_spec(old(self).parent@, old(self).origin_col as int, old(self).origin_row as int,
                old(self).width as int, old(self).height as int, col as int, row as int, s@, fg, bg, style),
            unchanged_outside(old(self).parent@, final(self).parent@, old(self).origin_col as int,
                old(self).origin_row as int, old(self).width as int, old(self).height as int),
            *final(final(self).parent) == *final(old(self).parent),
    {
        let ghost m0 = self.parent@;
        let ghost oc = self.origin_col as int;
        let ghost or = self.origin_row as int;
        let ghost w0 = self.width as int;
        let ghost h0 = self.height as int;
        proof {
            lemma_print_spec(m0, oc, or, w0, h0, col as int, row as int, s@, fg, bg, style);
        }
        if row >= self.height {
            proof {
                lemma_print_off_rows(m0, oc, or, w0, h0, col as int, row as int, s@, fg, bg, style);
            }
            return;
        }
        let n = s.unicode_len();
        let mut c: u16 = col;
        let mut i: usize = 0;
        assert(s@.subrange(0, n as int) =~= s@);
        while i < n && c < self.width
            invariant
                self.wf(),
                self.origin_col == oc,
                self.origin_row == or,
                self.width == w0,
                self.height == h0,
                i <= n,
                n == s@.len(),
                print_spec(self.parent@, oc, or, w0, h0, c as int, row as int, s@.subrange(i as int, n as int), fg, bg, style)
                    == print_spec(m0, oc, or, w0, h0, col as int, row as int, s@, fg, bg, style),
                w0 + 2 <= u16::MAX || print_fits(w0, c as int, s@.subrange(i as int, n as int)),
                *final(self.parent) == *final(old(self).parent),
            decreases n - i,
        {
            let ch = s.get_char(i);
            let w = advance_width(ch) as u16;
            let ghost rest = s@.subrange(i as int, n as int);
            assert(rest[0] == ch);
            assert(rest.drop_first() =~= s@.subrange(i + 1, n as int));
            self.set(c, row, Cell { ch, fg, bg, style, wide_continuation: false });
            c = c + w;
            i += 1;
        }
    }

    /// Fill local columns `col .. col + len` of `row` with `ch`.
    pub fn fill_h(&mut self, col: u16, row: u16, len: u16, ch: char, fg: Color, bg: Color)
        requires
            old(self).wf(),
        ensures
            final(self).same_frame(old(self)),
            final(self).wf(),
            final(self).parent@ == fill_h_spec(old(self).parent@, old(self).origin_col as int, old(self).origin_row as int,
                old(self).width as int, old(self).height as int, col as int, row as int,
                if col + len > u16::MAX { u16::MAX as int } else { col + len }, line_cell(ch, fg, bg)),
            unchanged_outside(old(self).parent@, final(self).parent@, old(self).origin_col as int,
                old(self).origin_row as int, old(self).width as int, old(self).height as int),
            *final(final(self).parent) == *final(old(self).parent),
    {
        let ghost m0 = self.parent@;
        let ghost oc = self.origin_col as int;
        let ghost or = self.origin_row as int;
        let ghost w0 = self.width as int;
        let ghost h0 = self.height as int;
        let end = col.saturating_add(len);
        proof {
            lemma_fill_h_spec(m0, oc, or, w0, h0, col as int, row as int, end as int, line_cell(ch, fg, bg));
        }
        let mut c: u16 = col;
        while c < end && c < self.width
            invariant
                self.wf(),
                self.origin_col == oc,
                self.origin_row == or,
                self.width == w0,
                self.height == h0,
                col <= c,
                fill_h_spec(self.parent@, oc, or, w0, h0, c as int, row as int, end as int, line_cell(ch, fg, bg))
                    == fill_h_spec(m0, oc, or, w0, h0, col as int, row as int, end as int, line_cell(ch, fg, bg)),
                *final(self.parent) == *final(old(self).parent),
            decreases end - c,
        {
            self.set(c, row, Cell { ch, fg, bg, style: StyleFlags::empty(), wide_continuation: false });
            c += 1;
        }
    }

    /// Fill local rows `row .. row + len` of `col` with `ch`.
    pub fn fill_v(&mut self, col: u16, row: u16, len: u16, ch: char, fg: Color, bg: Color)
        requires
            old(self).wf(),
        ensures
            final(self).same_frame(old(self)),
            final(self).wf(),
            final(self).parent@ == fill_v_spec(old(self).parent@, old(self).origin_col as int, old(self).origin_row as int,
                old(self).width as int, old(self).height as int, col as int, row as int,
                if row + len > u16::MAX { u16::MAX as int } else { row + len }, line_cell(ch, fg, bg)),
            unchanged_outside(old(self).parent@, final(self).parent@, old(self).origin_col as int,
                old(self).origin_row as int, old(self).width as int, old(self).height as int),
            *final(final(self).parent) == *final(old(self).parent),
    {
        let ghost m0 = self.parent@;
        let ghost oc = self.origin_col as int;
        let ghost or = self.origin_row as int;
        let ghost w0 = self.width as int;
        let ghost h0 = self.height as int;
        let end = row.saturating_add(len);
        proof {
            lemma_fill_v_spec(m0, oc, or, w0, h0, col as int, row as int, end as int, line_cell(ch, fg, bg));
        }
        let mut r: u16 = row;
        while r < end && r < self.height
            invariant
                self.wf(),
                self.origin_col == oc,
                self.origin_row == or,
                self.width == w0,
                self.height == h0,
                row <= r,
                fill_v_spec(self.parent@, oc, or, w0, h0, col as int, r as int, end as int, line_cell(ch, fg, bg))
                    == fill_v_spec(m0, oc, or, w0, h0, col as int, row as int, end as int, line_cell(ch, fg, bg)),
                *final(self.parent) == *final(old(self).parent),
            decreases end - r,
        {
            self.set(col, r, Cell { ch, fg, bg, style: StyleFlags::empty(), wide_continuation: false });
            r += 1;
        }
    }

    /// Blank every cell of the region.
    pub fn clear(&mut self)
        requires
            old(self).wf(),
        ensures
            final(self).same_frame(old(self)),
            final(self).wf(),
            region_cleared(old(self).parent@, final(self).parent@, old(self).origin_col as int,
                old(self).origin_row as int, old(self).width as int, old(self).height as int),
            unchanged_outside(old(self).parent@, final(self).parent@, old(self).origin_col as int,
                old(self).origin_row as int, old(self).width as int, old(self).height as int),
            *final(final(self).parent) == *final(old(self).parent),
    {
        let ghost m0 = self.parent@;
        let ghost oc = self.origin_col as int;
        let ghost or = self.origin_row as int;
        let ghost w0 = self.width as int;
        let ghost h0 = self.height as int;
        assert(unchanged_outside(m0, m0, oc, or, w0, h0));
        // A space is one column wide, so blanking never writes a continuation cell.
        let space_width = char_width(' ');
        assert(space_width == Some(1usize));
        let mut r: u16 = 0;
        while r < self.height
            invariant
                self.wf(),
                self.origin_col == oc,
                self.origin_row == or,
                self.width == w0,
                self.height == h0,
                r <= h0,
                unicode_char_width(' ') == Some(1usize),
                self.parent@.width == m0.width,
                self.parent@.height == m0.height,
                forall|c: int, y: int| #![trigger self.parent@.at(c, y)] m0.in_bounds(c, y) ==>
                    if oc <= c < oc + w0 && or <= y < or + r { self.parent@.at(c, y) == blank_cell() }
                    else { self.parent@.at(c, y) == m0.at(c, y) },
                *final(self.parent) == *final(old(self).parent),
            decreases h0 - r,
        {
            let mut c: u16 = 0;
            while c < self.width
                invariant
                    self.wf(),
                    self.origin_col == oc,
                    self.origin_row == or,
                    self.width == w0,
                    self.height == h0,
                    r < h0,
                    c <= w0,
                    unicode_char_width(' ') == Some(1usize),
                    self.parent@.width == m0.width,
                    self.parent@.height == m0.height,
                    forall|x: int, y: int| #![trigger self.parent@.at(x, y)] m0.in_bounds(x, y) ==>
                        if oc <= x < oc + w0 && or <= y < or + r { self.parent@.at(x, y) == blank_cell() }
                        else if oc <= x < oc + c && y == or + r { self.parent@.at(x, y) == blank_cell() }
                        else { self.parent@.at(x, y) == m0.at(x, y) },
                    *final(self.parent) == *final(old(self).parent),
                decreases w0 - c,
            {
                proof {
                    lemma_set_within(self.parent@, oc + c, or + r, blank_cell(), oc + w0);
                }
                self.set(c, r, Cell::blank());
                c += 1;
            }
            r += 1;
        }
    }

    /// Create a nested sub-canvas within this sub-canvas, clamped to fit.
    pub fn sub(&mut self, col: u16, row: u16, width: u16, height: u16) -> (r: SubCanvas<'_>)
        requires
            old(self).wf(),
            old(self).origin_col + col <= u16::MAX,
            old(self).origin_row + row <= u16::MAX,
        ensures
            *r.parent == *old(self).parent,
            *final(r.parent) == *final(self).parent,
            *final(final(self).parent) == *final(old(self).parent),
            final(self).same_frame(old(self)),
            r.origin_col == old(self).origin_col + col,
            r.origin_row == old(self).origin_row + row,
            r.width == min_sat(width as int, old(self).width as int, col as int),
            r.height == min_sat(height as int, old(self).height as int, row as int),
            r.wf(),
    {
        let w = if width < self.width.saturating_sub(col) { width } else { self.width.saturating_sub(col) };
        let h = if height < self.height.saturating_sub(row) { height } else { self.height.saturating_sub(row) };
        SubCanvas {
            parent: self.parent,
            origin_col: self.origin_col + col,
            origin_row: self.origin_row + row,
            width: w,
            height: h,
        }
    }
}

} // verus!
