//! Double-buffered rendering: what to redraw when a new frame replaces the
//! previous one.

use vstd::prelude::*;
use crate::canvas::canvas::{lemma_cell_index, Canvas, CanvasModel};
use crate::canvas::cell::Cell;
use crate::color::downgrade::downgrade_spec;
use crate::color::types::{Color, StyleFlags};
use crate::term::caps::{ColorLevel, TermCaps};

verus! {

/// One cell to draw: its position, its character, its colors as the
/// terminal can show them, and its attributes.
#[derive(Debug, Clone, Copy, PartialEq, Eq, Structural)]
pub struct CellDraw {
    pub col: u16,
    pub row: u16,
    pub ch: char,
    pub fg: Color,
    pub bg: Color,
    pub style: StyleFlags,
}

/// Two canvases show the same picture: same size, same cell everywhere.
pub open spec fn same_picture(a: CanvasModel, b: CanvasModel) -> bool {
    &&& a.width == b.width
    &&& a.height == b.height
    &&& forall|c: int, r: int| #[trigger] a.get(c, r) == b.get(c, r)
}

/// The cell at `(col, row)` must be drawn: it is not the right half of a
/// wide character (drawn with its left half), and it differs from the
/// previous frame or the redraw is `forced`.
pub open spec fn cell_changed(prev: CanvasModel, next: CanvasModel, col: int, row: int, forced: bool) -> bool {
    (forced || next.get(col, row) != prev.get(col, row)) && !next.get(col, row).wide_continuation
}

/// How the cell at `(col, row)` of `next` is drawn on a terminal of color
/// depth `level`.
pub open spec fn cell_draw(next: CanvasModel, level: ColorLevel, col: int, row: int) -> CellDraw {
    let cell = next.get(col, row);
    CellDraw {
        col: col as u16,
        row: row as u16,
        ch: cell.ch,
        fg: downgrade_spec(cell.fg, level),
        bg: downgrade_spec(cell.bg, level),
        style: cell.style,
    }
}

/// The draws for the first `upto` columns of `row`, left to right.
pub open spec fn row_draws(
    prev: CanvasModel, next: CanvasModel, level: ColorLevel, row: int, upto: int, forced: bool,
) -> Seq<CellDraw>
    decreases upto,
{
    if upto <= 0 {
        Seq::empty()
    } else {
        let rest = row_draws(prev, next, level, row, upto - 1, forced);
        if cell_changed(prev, next, upto - 1, row, forced) {
            rest.push(cell_draw(next, level, upto - 1, row))
        } else {
            rest
        }
    }
}

/// The draws for the first `rows` rows of `next`, top to bottom.
pub open spec fn frame_draws(
    prev: CanvasModel, next: CanvasModel, level: ColorLevel, rows: int, forced: bool,
) -> Seq<CellDraw>
    decreases rows,
{
    if rows <= 0 {
        Seq::empty()
    } else {
        frame_draws(prev, next, level, rows - 1, forced) + row_draws(prev, next, level, rows - 1, next.width, forced)
    }
}

/// Stateful double-buffer renderer.
///
/// Keeps the previous frame.  On each call to `render()`, only the cells
/// that differ from the previous frame are handed out to be drawn.
pub struct Renderer {
    prev: Canvas,
    caps: TermCaps,
}

/// The state of a renderer: the last frame drawn and the terminal drawn on.
pub struct RendererModel {
    pub prev: CanvasModel,
    pub caps: TermCaps,
}

impl View for Renderer {
    type V = RendererModel;

    closed spec fn view(&self) -> RendererModel {
        RendererModel { prev: self.prev@, caps: self.caps }
    }
}

impl Renderer {
    /// The previous frame is a well-formed canvas.
    pub closed spec fn wf(&self) -> bool {
        self.prev@.wf()
    }

    /// A renderer for a terminal with `caps`, whose screen is taken to be blank.
    pub fn new(caps: TermCaps) -> (r: Self)
        ensures
            r.wf(),
            r@.caps == caps,
            r@.prev.width == caps.cols,
            r@.prev.height == caps.rows,
            forall|c: int, row: int| #[trigger] r@.prev.get(c, row) == crate::canvas::cell::blank_cell(),
    {
        let prev = Canvas::new(caps.cols, caps.rows);
        let r = Renderer { prev, caps };
        proof {
            assert forall|c: int, row: int| #[trigger] r@.prev.get(c, row) == crate::canvas::cell::blank_cell() by {
                if r@.prev.in_bounds(c, row) {
                    lemma_cell_index(r@.prev.width, r@.prev.height, c, row);
                }
            }
        }
        r
    }

    /// The cells of `next` to draw, row by row, with colors downgraded for
    /// the terminal: those that differ from the previous frame, or every
    /// cell when `forced`, wide continuations apart.  The previous frame is
    /// kept.
    fn draws_for(&self, next: &Canvas, forced: bool) -> (draws: Vec<CellDraw>)
        requires
            self.wf(),
            next@.wf(),
        ensures
            draws@ == frame_draws(self@.prev, next@, self@.caps.color_level, next@.height, forced),
    {
        let width = next.width();
        let height = next.height();
        let level = self.caps.color_level;
        let ghost prev0 = self.prev@;
        let mut draws: Vec<CellDraw> = Vec::new();
        let mut row: u16 = 0;
        while row < height
            invariant
                row <= height,
                height == next@.height,
                width == next@.width,
                next@.wf(),
                self.prev@ == prev0,
                prev0.wf(),
                self.caps.color_level == level,
                draws@ == frame_draws(prev0, next@, level, row as int, forced),
            decreases height - row,
        {
            let ghost before = draws@;
            let mut col: u16 = 0;
            while col < width
                invariant
                    col <= width,
                    row < height,
                    height == next@.height,
                    width == next@.width,
                    next@.wf(),
                    self.prev@ == prev0,
                    prev0.wf(),
                    self.caps.color_level == level,
                    draws@ == before + row_draws(prev0, next@, level, row as int, col as int, forced),
                decreases width - col,
            {
                let cell = next.get(col, row);
                let prev = self.prev.get(col, row);
                if (forced || cell != prev) && !cell.wide_continuation {
                    draws.push(CellDraw {
                        col,
                        row,
                        ch: cell.ch,
                        fg: cell.fg.downgrade(level),
                        bg: cell.bg.downgrade(level),
                        style: cell.style,
                    });
                }
                col += 1;
            }
            row += 1;
        }
        draws
    }

    /// Diff `next` against the previous frame: the cells to draw, row by
    /// row, with colors downgraded for the terminal.  Nothing is committed:
    /// call `commit` once the draws have reached the terminal.
    pub fn diff(&self, next: &Canvas) -> (draws: Vec<CellDraw>)
        requires
            self.wf(),
            next@.wf(),
        ensures
            draws@ == frame_draws(self@.prev, next@, self@.caps.color_level, next@.height, false),
    {
        self.draws_for(next, false)
    }

    /// Every cell of `next` to draw, without diffing (wide continuations
    /// apart), for a full redraw.  Nothing is committed.
    pub fn full_draws(&self, next: &Canvas) -> (draws: Vec<CellDraw>)
        requires
            self.wf(),
            next@.wf(),
        ensures
            draws@ == frame_draws(self@.prev, next@, self@.caps.color_level, next@.height, true),
    {
        self.draws_for(next, true)
    }

    /// Record `next` as the frame the terminal now shows.
    pub fn commit(&mut self, next: &Canvas)
        requires
            old(self).wf(),
            next@.wf(),
        ensures
            final(self).wf(),
            final(self)@.caps == old(self)@.caps,
            same_picture(final(self)@.prev, next@),
    {
        let width = next.width();
        let height = next.height();
        if self.prev.width() != width || self.prev.height() != height {
            self.prev = Canvas::new(width, height);
        }
        copy_frame(&mut self.prev, next);
    }

    /// Diff `next` against the previous frame and take it as shown: the
    /// cells to draw, row by row, with colors downgraded for the terminal.
    pub fn render(&mut self, next: &Canvas) -> (draws: Vec<CellDraw>)
        requires
            old(self).wf(),
            next@.wf(),
        ensures
            final(self).wf(),
            draws@ == frame_draws(old(self)@.prev, next@, old(self)@.caps.color_level, next@.height, false),
            final(self)@.caps == old(self)@.caps,
            same_picture(final(self)@.prev, next@),
    {
        let draws = self.diff(next);
        self.commit(next);
        draws
    }

    /// Full redraw without diffing — used after a terminal resize: every
    /// cell is drawn (wide continuations apart, drawn with their left half),
    /// and `next` is taken as shown.
    pub fn force_render(&mut self, next: &Canvas) -> (draws: Vec<CellDraw>)
        requires
            old(self).wf(),
            next@.wf(),
        ensures
            final(self).wf(),
            draws@ == frame_draws(old(self)@.prev, next@, old(self)@.caps.color_level, next@.height, true),
            final(self)@.caps == old(self)@.caps,
            same_picture(final(self)@.prev, next@),
    {
        let draws = self.full_draws(next);
        self.commit(next);
        draws
    }

    /// Forget the previous frame, as when the physical screen has been
    /// cleared: the next render compares with an empty frame.
    pub fn clear_screen(&mut self)
        requires
            old(self).wf(),
        ensures
            final(self).wf(),
            final(self)@.caps == old(self)@.caps,
            final(self)@.prev == (CanvasModel { width: 0, height: 0, cells: Seq::empty() }),
    {
        self.prev = Canvas::new(0, 0);
        assert(self.prev@.cells =~= Seq::<Cell>::empty());
        assert(self.prev@ == CanvasModel { width: 0, height: 0, cells: Seq::empty() });
    }
}

/// Copy every cell of `src` into `dst`, which has its size.
fn copy_frame(dst: &mut Canvas, src: &Canvas)
    requires
        old(dst)@.wf(),
        src@.wf(),
        old(dst)@.width == src@.width,
        old(dst)@.height == src@.height,
    ensures
        final(dst)@.wf(),
        same_picture(final(dst)@, src@),
{
    let width = src.width();
    let height = src.height();
    let mut row: u16 = 0;
    while row < height
        invariant
            row <= height,
            width == src@.width,
            height == src@.height,
            src@.wf(),
            dst@.wf(),
            dst@.width == width,
            dst@.height == height,
            forall|c: int, r: int| 0 <= c < width && 0 <= r < row ==> #[trigger] dst@.at(c, r) == src@.at(c, r),
        decreases height - row,
    {
        let mut col: u16 = 0;
        while col < width
            invariant
                col <= width,
                row < height,
                width == src@.width,
                height == src@.height,
                src@.wf(),
                dst@.wf(),
                dst@.width == width,
                dst@.height == height,
                forall|c: int, r: int| 0 <= c < width && 0 <= r < row ==> #[trigger] dst@.at(c, r) == src@.at(c, r),
                forall|c: int| 0 <= c < col ==> #[trigger] dst@.at(c, row as int) == src@.at(c, row as int),
            decreases width - col,
        {
            let ghost m = dst@;
            let cell = src.get(col, row);
            dst.set(col, row, cell);
            proof {
                lemma_cell_index(width as int, height as int, col as int, row as int);
                if col + 1 < width {
                    lemma_cell_index(width as int, height as int, col as int + 1, row as int);
                }
                assert forall|c: int, r: int| 0 <= c < width && 0 <= r < row implies #[trigger] dst@.at(c, r) == src@.at(c, r) by {
                    lemma_cell_index(width as int, height as int, c, r);
                    assert(dst@.at(c, r) == m.at(c, r));
                }
                assert forall|c: int| 0 <= c < col + 1 implies #[trigger] dst@.at(c, row as int) == src@.at(c, row as int) by {
                    lemma_cell_index(width as int, height as int, c, row as int);
                    if c < col {
                        assert(dst@.at(c, row as int) == m.at(c, row as int));
                    }
                }
            }
            col += 1;
        }
        row += 1;
    }
    proof {
        assert forall|c: int, r: int| #[trigger] dst@.get(c, r) == src@.get(c, r) by {
            if dst@.in_bounds(c, r) {
                assert(dst@.at(c, r) == src@.at(c, r));
            }
        }
    }
}

/// Rendering a frame right after it was rendered draws nothing: only
/// changed cells are ever re-emitted.
pub proof fn lemma_render_same_frame_draws_nothing(prev: CanvasModel, next: CanvasModel, level: ColorLevel, rows: int)
    requires
        same_picture(prev, next),
    ensures
        frame_draws(prev, next, level, rows, false).len() == 0,
    decreases rows,
{
    if rows > 0 {
        lemma_render_same_frame_draws_nothing(prev, next, level, rows - 1);
        lemma_row_same(prev, next, level, rows - 1, next.width);
    }
}

proof fn lemma_row_same(prev: CanvasModel, next: CanvasModel, level: ColorLevel, row: int, upto: int)
    requires
        same_picture(prev, next),
    ensures
        row_draws(prev, next, level, row, upto, false).len() == 0,
    decreases upto,
{
    if upto > 0 {
        lemma_row_same(prev, next, level, row, upto - 1);
        assert(prev.get(upto - 1, row) == next.get(upto - 1, row));
    }
}

/// The draws of a row are the changed cells of its first `upto` columns:
/// each draw is one of them, and each of them is drawn.
proof fn lemma_row_draws_members(
    prev: CanvasModel, next: CanvasModel, level: ColorLevel, row: int, upto: int, forced: bool,
)
    ensures
        forall|i: int| #![trigger row_draws(prev, next, level, row, upto, forced)[i]]
            0 <= i < row_draws(prev, next, level, row, upto, forced).len() ==> exists|c: int|
            0 <= c < upto && cell_changed(prev, next, c, row, forced)
            && row_draws(prev, next, level, row, upto, forced)[i] == #[trigger] cell_draw(next, level, c, row),
        forall|c: int| 0 <= c < upto && cell_changed(prev, next, c, row, forced) ==>
            row_draws(prev, next, level, row, upto, forced).contains(#[trigger] cell_draw(next, level, c, row)),
    decreases upto,
{
    if upto > 0 {
        lemma_row_draws_members(prev, next, level, row, upto - 1, forced);
        let rest = row_draws(prev, next, level, row, upto - 1, forced);
        let rd = row_draws(prev, next, level, row, upto, forced);
        let d = cell_draw(next, level, upto - 1, row);
        if cell_changed(prev, next, upto - 1, row, forced) {
            assert(rd == rest.push(d));
            assert forall|i: int| #![trigger rd[i]] 0 <= i < rd.len() implies exists|c: int| 0 <= c < upto
                && cell_changed(prev, next, c, row, forced) && rd[i] == #[trigger] cell_draw(next, level, c, row) by {
                if i < rest.len() {
                    assert(rd[i] == rest[i]);
                } else {
                    assert(rd[i] == cell_draw(next, level, upto - 1, row));
                }
            }
            assert forall|c: int| 0 <= c < upto && cell_changed(prev, next, c, row, forced) implies
                rd.contains(#[trigger] cell_draw(next, level, c, row)) by {
                if c < upto - 1 {
                    let j = choose|j: int| 0 <= j < rest.len() && rest[j] == cell_draw(next, level, c, row);
                    assert(rd[j] == rest[j]);
                } else {
                    assert(rd[rest.len() as int] == d);
                }
            }
        }
    }
}

/// The renderer draws exactly the changed cells: every draw of the frame
/// is a cell of its first `rows` rows that differs from the previous frame
/// (or any cell, on a forced redraw) and is not the right half of a wide
/// character, and every such cell is drawn.
pub proof fn lemma_frame_draws_exactly(prev: CanvasModel, next: CanvasModel, level: ColorLevel, rows: int, forced: bool)
    ensures
        forall|i: int| #![trigger frame_draws(prev, next, level, rows, forced)[i]]
            0 <= i < frame_draws(prev, next, level, rows, forced).len() ==> exists|c: int, r: int|
            0 <= c < next.width && 0 <= r < rows && cell_changed(prev, next, c, r, forced)
            && frame_draws(prev, next, level, rows, forced)[i] == #[trigger] cell_draw(next, level, c, r),
        forall|c: int, r: int| 0 <= c < next.width && 0 <= r < rows && cell_changed(prev, next, c, r, forced) ==>
            frame_draws(prev, next, level, rows, forced).contains(#[trigger] cell_draw(next, level, c, r)),
    decreases rows,
{
    if rows > 0 {
        lemma_frame_draws_exactly(prev, next, level, rows - 1, forced);
        lemma_row_draws_members(prev, next, level, rows - 1, next.width as int, forced);
        let head = frame_draws(prev, next, level, rows - 1, forced);
        let tail = row_draws(prev, next, level, rows - 1, next.width as int, forced);
        let fd = frame_draws(prev, next, level, rows, forced);
        assert(fd == head + tail);
        assert forall|i: int| #![trigger fd[i]] 0 <= i < fd.len() implies exists|c: int, r: int| 0 <= c < next.width && 0 <= r < rows
            && cell_changed(prev, next, c, r, forced) && fd[i] == #[trigger] cell_draw(next, level, c, r) by {
            if i < head.len() {
                assert(fd[i] == head[i]);
            } else {
                assert(fd[i] == tail[i - head.len()]);
                let c = choose|c: int| 0 <= c < next.width && cell_changed(prev, next, c, rows - 1, forced)
                    && tail[i - head.len()] == #[trigger] cell_draw(next, level, c, rows - 1);
                assert(fd[i] == cell_draw(next, level, c, rows - 1));
            }
        }
        assert forall|c: int, r: int| 0 <= c < next.width && 0 <= r < rows && cell_changed(prev, next, c, r, forced)
            implies fd.contains(#[trigger] cell_draw(next, level, c, r)) by {
            if r < rows - 1 {
                let j = choose|j: int| 0 <= j < head.len() && head[j] == cell_draw(next, level, c, r);
                assert(fd[j] == head[j]);
            } else {
                let j = choose|j: int| 0 <= j < tail.len() && tail[j] == cell_draw(next, level, c, r);
                assert(fd[head.len() + j] == tail[j]);
            }
        }
    }
}

/// What the renderer emits for a frame, cell by cell: every draw puts the
/// character and style of a cell of `next`, with its colors downgraded for
/// `level`, at that cell's position, where the cell differs in any way
/// (character, colors, style or width) from the one at that position of
/// `prev`, or the redraw is `forced`, and the cell is not the right half of
/// a wide character; and every such cell of the first `rows` rows is drawn.
pub proof fn lemma_render_draws_changed_cells(prev: CanvasModel, next: CanvasModel, level: ColorLevel, rows: int,
    forced: bool)
    requires
        next.wf(),
        rows <= next.height,
    ensures
        forall|i: int| #![trigger frame_draws(prev, next, level, rows, forced)[i]]
            0 <= i < frame_draws(prev, next, level, rows, forced).len() ==> exists|c: int, r: int|
            0 <= c < next.width && 0 <= r < rows && (forced || next.get(c, r) != prev.get(c, r))
            && !(#[trigger] next.get(c, r)).wide_continuation
            && frame_draws(prev, next, level, rows, forced)[i].col == c
            && frame_draws(prev, next, level, rows, forced)[i].row == r
            && frame_draws(prev, next, level, rows, forced)[i].ch == next.get(c, r).ch
            && frame_draws(prev, next, level, rows, forced)[i].fg == downgrade_spec(next.get(c, r).fg, level)
            && frame_draws(prev, next, level, rows, forced)[i].bg == downgrade_spec(next.get(c, r).bg, level)
            && frame_draws(prev, next, level, rows, forced)[i].style == next.get(c, r).style,
        forall|c: int, r: int| 0 <= c < next.width && 0 <= r < rows
            && (forced || next.get(c, r) != prev.get(c, r)) && !(#[trigger] next.get(c, r)).wide_continuation
            ==> exists|i: int| 0 <= i < frame_draws(prev, next, level, rows, forced).len()
            && #[trigger] frame_draws(prev, next, level, rows, forced)[i] == (CellDraw {
                col: c as u16,
                row: r as u16,
                ch: next.get(c, r).ch,
                fg: downgrade_spec(next.get(c, r).fg, level),
                bg: downgrade_spec(next.get(c, r).bg, level),
                style: next.get(c, r).style,
            }),
{
    lemma_frame_draws_exactly(prev, next, level, rows, forced);
    let fd = frame_draws(prev, next, level, rows, forced);
    assert forall|i: int| #![trigger fd[i]] 0 <= i < fd.len() implies exists|c: int, r: int|
        0 <= c < next.width && 0 <= r < rows && (forced || next.get(c, r) != prev.get(c, r))
        && !(#[trigger] next.get(c, r)).wide_continuation && fd[i].col == c && fd[i].row == r
        && fd[i].ch == next.get(c, r).ch && fd[i].fg == downgrade_spec(next.get(c, r).fg, level)
        && fd[i].bg == downgrade_spec(next.get(c, r).bg, level) && fd[i].style == next.get(c, r).style by {
        let (c, r) = choose|c: int, r: int| 0 <= c < next.width && 0 <= r < rows
            && cell_changed(prev, next, c, r, forced) && fd[i] == #[trigger] cell_draw(next, level, c, r);
        assert(fd[i].col == c && fd[i].row == r);
        assert(next.get(c, r) == next.get(c, r));
    }
    assert forall|c: int, r: int| 0 <= c < next.width && 0 <= r < rows
        && (forced || next.get(c, r) != prev.get(c, r)) && !(#[trigger] next.get(c, r)).wide_continuation
        implies exists|i: int| 0 <= i < fd.len() && #[trigger] fd[i] == (CellDraw {
            col: c as u16,
            row: r as u16,
            ch: next.get(c, r).ch,
            fg: downgrade_spec(next.get(c, r).fg, level),
            bg: downgrade_spec(next.get(c, r).bg, level),
            style: next.get(c, r).style,
        }) by {
        assert(cell_changed(prev, next, c, r, forced));
        assert(fd.contains(cell_draw(next, level, c, r)));
    }
}

} // verus!
