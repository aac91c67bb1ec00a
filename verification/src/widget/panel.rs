use vstd::prelude::*;
use crate::border::style::{border_glyphs, style_for_caps, BorderGlyphs, BorderStyle};
use crate::canvas::canvas::{changed_only_in_row, fill_h_spec, lemma_changed_only_in_row_trans, lemma_fill_h_content,
    lemma_fill_h_row_local, lemma_fill_h_spec, lemma_only_row_changed, lemma_print_row, lemma_region_set,
    lemma_region_set_row, lemma_region_set_row_local, lemma_row_kept_elsewhere, lemma_row_kept_trans,
    lemma_unchanged_outside_refl, lemma_unchanged_outside_trans, only_row_changed, row_kept,
    lemma_unchanged_outside_widen, line_cell, print_spec, region_set, unchanged_outside, CanvasModel, SubCanvas};
use crate::canvas::cell::Cell;
use crate::color::types::{Color, StyleFlags};
use crate::term::caps::TermCaps;
use crate::text::{pad_one_space, take_chars, to_owned_string};
use crate::widget::traits::Widget;

verus! {

/// Horizontal alignment for the panel title.
#[derive(Debug, Clone, Copy, PartialEq, Eq, Structural)]
pub enum Align {
    Left,
    Center,
    Right,
}

impl Default for Align {
    fn default() -> (a: Align)
        ensures
            a == Align::Left,
    {
        Align::Left
    }
}

/// A bordered box with an optional title.
///
/// The panel draws its border, positions the title, then delegates rendering
/// of its interior to an optional child widget.
pub struct Panel {
    pub title: Option<String>,
    pub title_align: Align,
    pub border_style: BorderStyle,
    pub border_fg: Color,
    pub border_bg: Color,
    pub title_fg: Color,
    pub title_bg: Color,
    pub title_style: StyleFlags,
    pub inner_bg: Color,
    pub child: Option<Box<dyn Widget>>,
}

impl Default for Panel {
    fn default() -> (p: Self)
        ensures
            p.title is None,
            p.title_align == Align::Left,
            p.border_style == BorderStyle::Single,
            p.border_fg == Color::Default,
            p.border_bg == Color::Default,
            p.title_fg == Color::Default,
            p.title_bg == Color::Default,
            p.title_style == StyleFlags::bold_spec(),
            p.inner_bg == Color::Default,
            p.child is None,
    {
        Panel {
            title: None,
            title_align: Align::Left,
            border_style: BorderStyle::Single,
            border_fg: Color::Default,
            border_bg: Color::Default,
            title_fg: Color::Default,
            title_bg: Color::Default,
            title_style: StyleFlags::bold(),
            inner_bg: Color::Default,
            child: None,
        }
    }
}

/// The column where a title of `title_len` cells (separators' padding
/// included) starts on a top edge `w` columns wide.
pub open spec fn title_col(align: Align, w: int, title_len: int) -> int {
    match align {
        Align::Left => 1,
        Align::Center => {
            let c = (if w >= title_len { w - title_len } else { 0 }) / 2;
            if c > 1 { c } else { 1 }
        },
        Align::Right => {
            let c = if w >= title_len + 1 { w - (title_len + 1) } else { 0 };
            if c > 1 { c } else { 1 }
        },
    }
}

/// `x` as a present option.  (Built through a generic function so that
/// Verus keeps the boxed widget's identity when it is stored in a field.)
fn some_of<T>(x: T) -> (r: Option<T>)
    ensures
        r == Some(x),
{
    Some(x)
}

impl Panel {
    pub fn new() -> (p: Self)
        ensures
            p.title is None,
            p.title_align == Align::Left,
            p.border_style == BorderStyle::Single,
            p.border_fg == Color::Default,
            p.border_bg == Color::Default,
            p.title_fg == Color::Default,
            p.title_bg == Color::Default,
            p.title_style == StyleFlags::bold_spec(),
            p.inner_bg == Color::Default,
            p.child is None,
    {
        Self::default()
    }

    pub fn title(self, t: &str) -> (p: Self)
        ensures
            p.child == self.child,
            p.title matches Some(s) && s@ == t@,
            p.title_align == self.title_align,
            p.border_style == self.border_style,
            p.border_fg == self.border_fg,
            p.border_bg == self.border_bg,
            p.title_fg == self.title_fg,
            p.title_bg == self.title_bg,
            p.title_style == self.title_style,
            p.inner_bg == self.inner_bg,
    {
        let mut p = self;
        p.title = Some(to_owned_string(t));
        p
    }

    pub fn title_align(self, a: Align) -> (p: Self)
        ensures
            p.child == self.child,
            p.title_align == a,
            p.title == self.title,
            p.border_style == self.border_style,
            p.border_fg == self.border_fg,
            p.border_bg == self.border_bg,
            p.title_fg == self.title_fg,
            p.title_bg == self.title_bg,
            p.title_style == self.title_style,
            p.inner_bg == self.inner_bg,
    {
        let mut p = self;
        p.title_align = a;
        p
    }

    pub fn border_style(self, s: BorderStyle) -> (p: Self)
        ensures
            p.child == self.child,
            p.border_style == s,
            p.title == self.title,
            p.title_align == self.title_align,
            p.border_fg == self.border_fg,
            p.border_bg == self.border_bg,
            p.title_fg == self.title_fg,
            p.title_bg == self.title_bg,
            p.title_style == self.title_style,
            p.inner_bg == self.inner_bg,
    {
        let mut p = self;
        p.border_style = s;
        p
    }

    pub fn border_fg(self, c: Color) -> (p: Self)
        ensures
            p.child == self.child,
            p.border_fg == c,
            p.title == self.title,
            p.title_align == self.title_align,
            p.border_style == self.border_style,
            p.border_bg == self.border_bg,
            p.title_fg == self.title_fg,
            p.title_bg == self.title_bg,
            p.title_style == self.title_style,
            p.inner_bg == self.inner_bg,
    {
        let mut p = self;
        p.border_fg = c;
        p
    }

    pub fn border_bg(self, c: Color) -> (p: Self)
        ensures
            p.child == self.child,
            p.border_bg == c,
            p.title == self.title,
            p.title_align == self.title_align,
            p.border_style == self.border_style,
            p.border_fg == self.border_fg,
            p.title_fg == self.title_fg,
            p.title_bg == self.title_bg,
            p.title_style == self.title_style,
            p.inner_bg == self.inner_bg,
    {
        let mut p = self;
        p.border_bg = c;
        p
    }

    pub fn title_fg(self, c: Color) -> (p: Self)
        ensures
            p.child == self.child,
            p.title_fg == c,
            p.title == self.title,
            p.title_align == self.title_align,
            p.border_style == self.border_style,
            p.border_fg == self.border_fg,
            p.border_bg == self.border_bg,
            p.title_bg == self.title_bg,
            p.title_style == self.title_style,
            p.inner_bg == self.inner_bg,
    {
        let mut p = self;
        p.title_fg = c;
        p
    }

    pub fn inner_bg(self, c: Color) -> (p: Self)
        ensures
            p.child == self.child,
            p.inner_bg == c,
            p.title == self.title,
            p.title_align == self.title_align,
            p.border_style == self.border_style,
            p.border_fg == self.border_fg,
            p.border_bg == self.border_bg,
            p.title_fg == self.title_fg,
            p.title_bg == self.title_bg,
            p.title_style == self.title_style,
    {
        let mut p = self;
        p.inner_bg = c;
        p
    }

    pub fn child(self, w: Box<dyn Widget>) -> (p: Self)
        ensures
            p.child == Some(w),
            p.title == self.title,
            p.title_align == self.title_align,
            p.border_style == self.border_style,
            p.border_fg == self.border_fg,
            p.border_bg == self.border_bg,
            p.title_fg == self.title_fg,
            p.title_bg == self.title_bg,
            p.title_style == self.title_style,
            p.inner_bg == self.inner_bg,
    {
        let ghost g = w;
        let c = some_of(w);
        let mut p = self;
        p.child = c;
        assert(g == w);
        p
    }

    /// The glyphs this panel draws its border with on a terminal with `caps`.
    pub open spec fn drawn_glyphs(&self, caps: &TermCaps) -> BorderGlyphs {
        border_glyphs(style_for_caps(self.border_style, caps.unicode))
    }
}

/// A border cell: `ch` in the border colors, no style.
pub open spec fn border_cell_spec(ch: char, fg: Color, bg: Color) -> Cell {
    Cell { ch, fg, bg, style: StyleFlags { bits: 0 }, wide_continuation: false }
}

pub(crate) fn border_cell(ch: char, fg: Color, bg: Color) -> (c: Cell)
    ensures
        c == border_cell_spec(ch, fg, bg),
{
    Cell { ch, fg, bg, style: StyleFlags::empty(), wide_continuation: false }
}

/// Row `row` of `m`, from column `oc` and `w` columns wide, holds `left`,
/// then `mid` repeated, then `right`, all as border cells.
pub open spec fn edge_row(m: CanvasModel, oc: int, row: int, w: int, left: char, mid: char, right: char, fg: Color, bg: Color) -> bool {
    &&& m.at(oc, row) == border_cell_spec(left, fg, bg)
    &&& forall|c: int| 1 <= c < w - 1 ==> #[trigger] m.at(oc + c, row) == border_cell_spec(mid, fg, bg)
    &&& m.at(oc + w - 1, row) == border_cell_spec(right, fg, bg)
}

impl Panel {
    /// Every row between the top and bottom edges of `m` reads as drawing
    /// the sides over `before` leaves it: the vertical glyph at both ends,
    /// and the interior filled on `inner_bg` unless that is the default.
    #[verifier::opaque]
    pub open spec fn sides_under(&self, caps: &TermCaps, before: CanvasModel, m: CanvasModel, oc: int, or: int, w: int,
        h: int) -> bool {
        forall|y: int| 1 <= y < h - 1 ==> row_kept(#[trigger] side_written(before, oc, or, w, h, y,
            border_cell_spec(self.drawn_glyphs(caps).vertical, self.border_fg, self.border_bg), self.inner_bg), m, or + y)
    }

    /// What a render leaves of the frame in `m`, for a region at `(oc, or)` of
    /// size `w × h`: the top-left corner, the left side and the bottom edge;
    /// the whole top edge when there is no title; the right side when there is
    /// no child; and the interior filled with `inner_bg` when there is no child
    /// and that color is not the default.
    pub open spec fn frame_drawn(&self, caps: &TermCaps, m: CanvasModel, oc: int, or: int, w: int, h: int) -> bool {
        let g = self.drawn_glyphs(caps);
        let fg = self.border_fg;
        let bg = self.border_bg;
        &&& m.at(oc, or) == border_cell_spec(g.top_left, fg, bg)
        &&& forall|y: int| 1 <= y < h - 1 ==> #[trigger] m.at(oc, or + y) == border_cell_spec(g.vertical, fg, bg)
        &&& edge_row(m, oc, or + h - 1, w, g.bottom_left, g.horizontal, g.bottom_right, fg, bg)
        &&& self.title is None ==> edge_row(m, oc, or, w, g.top_left, g.horizontal, g.top_right, fg, bg)
        &&& self.child is None ==> forall|y: int| 1 <= y < h - 1
            ==> #[trigger] m.at(oc + w - 1, or + y) == border_cell_spec(g.vertical, fg, bg)
        &&& self.child is None && self.inner_bg != Color::Default ==> forall|c: int, y: int|
            1 <= c < w - 1 && 1 <= y < h - 1 ==> #[trigger] m.at(oc + c, or + y) == line_cell(' ', Color::Default, self.inner_bg)
    }
}

impl Panel {
    /// Where the title's separators go on the top edge of a region `w`
    /// columns wide: the title is cut to `w - 4` characters and padded with a
    /// space on each side; the left separator stands at the title column and
    /// the right one just after the padded title, or in the last column when
    /// that comes first.
    pub open spec fn title_separators(&self, w: int) -> (int, int) {
        let len = match self.title { Some(t) => t@.len() as int, None => 0 };
        let room = if w >= 4 { w - 4 } else { 0 };
        let shown = if room < len { room } else { len };
        let padded = shown + 2;
        let left = title_col(self.title_align, w, padded);
        let right = if left + 1 + padded < w - 1 { left + 1 + padded } else { w - 1 };
        (left, right)
    }

    /// The title's separators, in the border colors, on the top edge of the
    /// region at `(oc, or)`, `w` columns wide.
    pub open spec fn title_marked(&self, caps: &TermCaps, m: CanvasModel, oc: int, or: int, w: int) -> bool {
        let g = self.drawn_glyphs(caps);
        let (left, right) = self.title_separators(w);
        &&& m.at(oc + left, or) == border_cell_spec(g.title_left, self.border_fg, self.border_bg)
        &&& m.at(oc + right, or) == border_cell_spec(g.title_right, self.border_fg, self.border_bg)
    }
}

/// What drawing a horizontal edge on local row `row` does: `left` in the
/// first column, `mid` across, `right` in the last column.
pub open spec fn edge_written(m: CanvasModel, oc: int, or: int, w: int, h: int, row: int, left: char, mid: char,
    right: char, fg: Color, bg: Color) -> CanvasModel {
    region_set(fill_h_spec(region_set(m, oc, or, w, h, 0, row, border_cell_spec(left, fg, bg)), oc, or, w, h, 1, row,
        w - 1, line_cell(mid, fg, bg)), oc, or, w, h, w - 1, row, border_cell_spec(right, fg, bg))
}

/// What drawing one row of the sides does on local row `row`: the vertical
/// glyph `v` at both ends, and the interior filled with spaces on
/// `inner_bg` unless that is the default color.
pub open spec fn side_written(m: CanvasModel, oc: int, or: int, w: int, h: int, row: int, v: Cell, inner_bg: Color)
    -> CanvasModel {
    let m1 = region_set(m, oc, or, w, h, 0, row, v);
    let m2 = if inner_bg != Color::Default {
        fill_h_spec(m1, oc, or, w, h, 1, row, w - 1, line_cell(' ', Color::Default, inner_bg))
    } else {
        m1
    };
    region_set(m2, oc, or, w, h, w - 1, row, v)
}

/// What drawing an edge leaves on its row depends only on that row.
proof fn lemma_edge_written_local(a: CanvasModel, b: CanvasModel, oc: int, or: int, w: int, h: int, row: int,
    left: char, mid: char, right: char, fg: Color, bg: Color)
    requires
        a.wf(),
        b.wf(),
        a.width == b.width,
        a.height == b.height,
        0 <= or + row < a.height,
        w > 0 ==> 0 <= oc && oc + w <= a.width,
        h > 0 ==> 0 <= or && or + h <= a.height,
        row_kept(a, b, or + row),
    ensures
        row_kept(edge_written(a, oc, or, w, h, row, left, mid, right, fg, bg),
            edge_written(b, oc, or, w, h, row, left, mid, right, fg, bg), or + row),
        edge_written(a, oc, or, w, h, row, left, mid, right, fg, bg).wf(),
        edge_written(a, oc, or, w, h, row, left, mid, right, fg, bg).width == a.width,
{
    let lc = border_cell_spec(left, fg, bg);
    let rc = border_cell_spec(right, fg, bg);
    let mc = line_cell(mid, fg, bg);
    let a1 = region_set(a, oc, or, w, h, 0, row, lc);
    let b1 = region_set(b, oc, or, w, h, 0, row, lc);
    lemma_region_set_row_local(a, b, oc, or, w, h, 0, row, lc);
    lemma_region_set(a, oc, or, w, h, 0, row, lc);
    lemma_region_set(b, oc, or, w, h, 0, row, lc);
    lemma_fill_h_row_local(a1, b1, oc, or, w, h, 1, row, w - 1, mc);
    lemma_fill_h_spec(a1, oc, or, w, h, 1, row, w - 1, mc);
    lemma_fill_h_spec(b1, oc, or, w, h, 1, row, w - 1, mc);
    let a2 = fill_h_spec(a1, oc, or, w, h, 1, row, w - 1, mc);
    let b2 = fill_h_spec(b1, oc, or, w, h, 1, row, w - 1, mc);
    lemma_region_set_row_local(a2, b2, oc, or, w, h, w - 1, row, rc);
    lemma_region_set(a2, oc, or, w, h, w - 1, row, rc);
}

/// What drawing a row of the sides leaves on it depends only on that row.
proof fn lemma_side_written_local(a: CanvasModel, b: CanvasModel, oc: int, or: int, w: int, h: int, row: int, v: Cell,
    inner_bg: Color)
    requires
        a.wf(),
        b.wf(),
        a.width == b.width,
        a.height == b.height,
        0 <= or + row < a.height,
        w > 0 ==> 0 <= oc && oc + w <= a.width,
        h > 0 ==> 0 <= or && or + h <= a.height,
        row_kept(a, b, or + row),
    ensures
        row_kept(side_written(a, oc, or, w, h, row, v, inner_bg), side_written(b, oc, or, w, h, row, v, inner_bg),
            or + row),
        side_written(a, oc, or, w, h, row, v, inner_bg).wf(),
        side_written(a, oc, or, w, h, row, v, inner_bg).width == a.width,
{
    let a1 = region_set(a, oc, or, w, h, 0, row, v);
    let b1 = region_set(b, oc, or, w, h, 0, row, v);
    lemma_region_set_row_local(a, b, oc, or, w, h, 0, row, v);
    lemma_region_set(a, oc, or, w, h, 0, row, v);
    lemma_region_set(b, oc, or, w, h, 0, row, v);
    let fill = line_cell(' ', Color::Default, inner_bg);
    if inner_bg != Color::Default {
        lemma_fill_h_row_local(a1, b1, oc, or, w, h, 1, row, w - 1, fill);
        lemma_fill_h_spec(a1, oc, or, w, h, 1, row, w - 1, fill);
        lemma_fill_h_spec(b1, oc, or, w, h, 1, row, w - 1, fill);
        let a2 = fill_h_spec(a1, oc, or, w, h, 1, row, w - 1, fill);
        let b2 = fill_h_spec(b1, oc, or, w, h, 1, row, w - 1, fill);
        lemma_region_set_row_local(a2, b2, oc, or, w, h, w - 1, row, v);
        lemma_region_set(a2, oc, or, w, h, w - 1, row, v);
    } else {
        lemma_region_set_row_local(a1, b1, oc, or, w, h, w - 1, row, v);
        lemma_region_set(a1, oc, or, w, h, w - 1, row, v);
    }
}

impl Panel {
    /// What drawing the title does on the top edge of a region `w` columns
    /// wide: the left separator, the title cut to `w - 4` characters and
    /// padded with a space on each side, then the right separator.
    pub open spec fn title_written(&self, g: BorderGlyphs, m: CanvasModel, oc: int, or: int, w: int, h: int)
        -> CanvasModel {
        let t = match self.title { Some(t) => t@, None => Seq::empty() };
        let room = if w >= 4 { w - 4 } else { 0 };
        let shown = if room < t.len() { room } else { t.len() as int };
        let label = seq![' '] + t.take(shown) + seq![' '];
        let (left, right) = self.title_separators(w);
        region_set(print_spec(region_set(m, oc, or, w, h, left, 0,
            border_cell_spec(g.title_left, self.border_fg, self.border_bg)), oc, or, w, h, left + 1, 0, label,
            self.title_fg, self.title_bg, self.title_style), oc, or, w, h, right, 0,
            border_cell_spec(g.title_right, self.border_fg, self.border_bg))
    }

    /// What the top edge of a render shows, drawn over `m`: the edge, and the
    /// title on it when there is one.
    pub open spec fn top_edge(&self, caps: &TermCaps, m: CanvasModel, oc: int, or: int, w: int, h: int) -> CanvasModel {
        let g = self.drawn_glyphs(caps);
        let e = edge_written(m, oc, or, w, h, 0, g.top_left, g.horizontal, g.top_right, self.border_fg, self.border_bg);
        if self.title is Some { self.title_written(g, e, oc, or, w, h) } else { e }
    }
}

/// Draw a horizontal edge on local row `row`: `left`, `mid` across, `right`.
fn draw_edge(canvas: &mut SubCanvas<'_>, row: u16, left: char, mid: char, right: char, fg: Color, bg: Color)
    requires
        old(canvas).wf(),
        old(canvas).width >= 2,
        row < old(canvas).height,
    ensures
        final(canvas).same_frame(old(canvas)),
        final(canvas).wf(),
        unchanged_outside(old(canvas).parent@, final(canvas).parent@, old(canvas).origin_col as int,
            old(canvas).origin_row as int, old(canvas).width as int, old(canvas).height as int),
        changed_only_in_row(old(canvas).parent@, final(canvas).parent@, old(canvas).origin_row + row,
            old(canvas).origin_col as int, old(canvas).origin_col + old(canvas).width),
        edge_row(final(canvas).parent@, old(canvas).origin_col as int, old(canvas).origin_row + row,
            old(canvas).width as int, left, mid, right, fg, bg),
        final(canvas).parent@ == edge_written(old(canvas).parent@, old(canvas).origin_col as int,
            old(canvas).origin_row as int, old(canvas).width as int, old(canvas).height as int, row as int, left, mid,
            right, fg, bg),
        *final(final(canvas).parent) == *final(old(canvas).parent),
{
    let w = canvas.width();
    let ghost h = canvas.height as int;
    let ghost oc = canvas.origin_col as int;
    let ghost or = canvas.origin_row as int;
    let ghost m0 = canvas.parent@;
    proof { lemma_region_set_row(m0, oc, or, w as int, h, 0, row as int, border_cell_spec(left, fg, bg)); }
    canvas.set(0, row, border_cell(left, fg, bg));
    let ghost m1 = canvas.parent@;
    proof { lemma_fill_h_content(m1, oc, or, w as int, h, 1, row as int, w - 1, line_cell(mid, fg, bg)); }
    canvas.fill_h(1, row, w - 2, mid, fg, bg);
    let ghost m2 = canvas.parent@;
    proof { lemma_region_set_row(m2, oc, or, w as int, h, w - 1, row as int, border_cell_spec(right, fg, bg)); }
    canvas.set(w - 1, row, border_cell(right, fg, bg));
    proof {
        lemma_unchanged_outside_trans(m0, m1, m2, oc, or, w as int, h);
        lemma_unchanged_outside_trans(m0, m2, canvas.parent@, oc, or, w as int, h);
        lemma_changed_only_in_row_trans(m0, m1, m2, or + row, oc, oc + 1, oc + 1, oc + w - 1, oc, oc + w);
        lemma_changed_only_in_row_trans(m0, m2, canvas.parent@, or + row, oc, oc + w, oc + w - 1, oc + w, oc, oc + w);
    }
}

/// Draw one row of the sides: the vertical glyph at both ends, and the
/// interior filled with `inner_bg` unless that is the default color.
fn draw_side_row(canvas: &mut SubCanvas<'_>, row: u16, v: char, inner_bg: Color, fg: Color, bg: Color)
    requires
        old(canvas).wf(),
        old(canvas).width >= 2,
        row < old(canvas).height,
    ensures
        final(canvas).same_frame(old(canvas)),
        final(canvas).wf(),
        unchanged_outside(old(canvas).parent@, final(canvas).parent@, old(canvas).origin_col as int,
            old(canvas).origin_row as int, old(canvas).width as int, old(canvas).height as int),
        changed_only_in_row(old(canvas).parent@, final(canvas).parent@, old(canvas).origin_row + row,
            old(canvas).origin_col as int, old(canvas).origin_col + old(canvas).width),
        final(canvas).parent@.at(old(canvas).origin_col as int, old(canvas).origin_row + row)
            == border_cell_spec(v, fg, bg),
        final(canvas).parent@.at(old(canvas).origin_col + old(canvas).width - 1, old(canvas).origin_row + row)
            == border_cell_spec(v, fg, bg),
        inner_bg != Color::Default ==> forall|c: int| 1 <= c < old(canvas).width - 1
            ==> #[trigger] final(canvas).parent@.at(old(canvas).origin_col + c, old(canvas).origin_row + row)
                == line_cell(' ', Color::Default, inner_bg),
        final(canvas).parent@ == side_written(old(canvas).parent@, old(canvas).origin_col as int,
            old(canvas).origin_row as int, old(canvas).width as int, old(canvas).height as int, row as int,
            border_cell_spec(v, fg, bg), inner_bg),
        *final(final(canvas).parent) == *final(old(canvas).parent),
{
    let w = canvas.width();
    let ghost h = canvas.height as int;
    let ghost oc = canvas.origin_col as int;
    let ghost or = canvas.origin_row as int;
    let ghost m0 = canvas.parent@;
    proof { lemma_region_set_row(m0, oc, or, w as int, h, 0, row as int, border_cell_spec(v, fg, bg)); }
    canvas.set(0, row, border_cell(v, fg, bg));
    let ghost m1 = canvas.parent@;
    if inner_bg != Color::Default {
        proof { lemma_fill_h_content(m1, oc, or, w as int, h, 1, row as int, w - 1, line_cell(' ', Color::Default, inner_bg)); }
        canvas.fill_h(1, row, w - 2, ' ', Color::Default, inner_bg);
        proof {
            lemma_unchanged_outside_trans(m0, m1, canvas.parent@, oc, or, w as int, h);
            lemma_changed_only_in_row_trans(m0, m1, canvas.parent@, or + row, oc, oc + 1, oc + 1, oc + w - 1, oc, oc + w);
        }
    }
    let ghost m2 = canvas.parent@;
    proof { lemma_region_set_row(m2, oc, or, w as int, h, w - 1, row as int, border_cell_spec(v, fg, bg)); }
    canvas.set(w - 1, row, border_cell(v, fg, bg));
    proof {
        lemma_unchanged_outside_trans(m0, m2, canvas.parent@, oc, or, w as int, h);
        lemma_changed_only_in_row_trans(m0, m2, canvas.parent@, or + row, oc, oc + w, oc + w - 1, oc + w, oc, oc + w);
    }
}

impl Panel {
    /// Draw the title on the top edge: the left separator at the title
    /// column, the title cut to fit and padded with a space on each side, and
    /// the right separator after it.
    fn draw_title(&self, canvas: &mut SubCanvas<'_>, g: &BorderGlyphs)
        requires
            old(canvas).wf(),
            old(canvas).width >= 2,
            old(canvas).height >= 1,
            old(canvas).width + 2 <= u16::MAX,
            self.title is Some,
        ensures
            final(canvas).same_frame(old(canvas)),
            final(canvas).wf(),
            unchanged_outside(old(canvas).parent@, final(canvas).parent@, old(canvas).origin_col as int,
                old(canvas).origin_row as int, old(canvas).width as int, old(canvas).height as int),
            changed_only_in_row(old(canvas).parent@, final(canvas).parent@, old(canvas).origin_row as int,
                old(canvas).origin_col + 1, old(canvas).origin_col + old(canvas).width),
            old(canvas).width >= 3 ==> {
                let (left, right) = self.title_separators(old(canvas).width as int);
                &&& final(canvas).parent@.at(old(canvas).origin_col + left, old(canvas).origin_row as int)
                    == border_cell_spec(g.title_left, self.border_fg, self.border_bg)
                &&& final(canvas).parent@.at(old(canvas).origin_col + right, old(canvas).origin_row as int)
                    == border_cell_spec(g.title_right, self.border_fg, self.border_bg)
            },
            final(canvas).parent@ == self.title_written(*g, old(canvas).parent@, old(canvas).origin_col as int,
                old(canvas).origin_row as int, old(canvas).width as int, old(canvas).height as int),
            *final(final(canvas).parent) == *final(old(canvas).parent),
    {
        let w = canvas.width();
        let ghost h = canvas.height as int;
        let ghost oc = canvas.origin_col as int;
        let ghost or = canvas.origin_row as int;
        let ghost m0 = canvas.parent@;
        let fg = self.border_fg;
        let bg = self.border_bg;
        let title = match &self.title { Some(t) => t.as_str(), None => "" };
        // Room for the separators and one space of padding on each side.
        let inner_w: usize = if w >= 4 { (w - 4) as usize } else { 0 };
        let display = take_chars(title, inner_w);
        let title_len: u16 = display.unicode_len() as u16 + 2;
        let title_col: u16 = match self.title_align {
            Align::Left => 1,
            Align::Center => {
                let c = w.saturating_sub(title_len) / 2;
                if c > 1 { c } else { 1 }
            },
            Align::Right => {
                let c = w.saturating_sub(title_len + 1);
                if c > 1 { c } else { 1 }
            },
        };
        assert(1 <= title_col < w);
        // Left separator
        proof { lemma_region_set_row(m0, oc, or, w as int, h, title_col as int, 0, border_cell_spec(g.title_left, fg, bg)); }
        canvas.set(title_col, 0, border_cell(g.title_left, fg, bg));
        let ghost m1 = canvas.parent@;
        // Space + title + space
        let label = pad_one_space(display.as_str());
        proof { lemma_print_row(m1, oc, or, w as int, h, title_col + 1, 0, label@, self.title_fg, self.title_bg, self.title_style); }
        canvas.print(title_col + 1, 0, label.as_str(), self.title_fg, self.title_bg, self.title_style);
        let ghost m2 = canvas.parent@;
        proof {
            lemma_unchanged_outside_trans(m0, m1, m2, oc, or, w as int, h);
            lemma_changed_only_in_row_trans(m0, m1, m2, or, oc + title_col, oc + title_col + 1, oc + title_col + 1,
                oc + w, oc + 1, oc + w);
        }
        // Right separator
        let label_len = label.unicode_len() as u16;
        let right_sep = if title_col + 1 + label_len < w - 1 { title_col + 1 + label_len } else { w - 1 };
        proof { lemma_region_set_row(m2, oc, or, w as int, h, right_sep as int, 0, border_cell_spec(g.title_right, fg, bg)); }
        canvas.set(right_sep, 0, border_cell(g.title_right, fg, bg));
        proof {
            lemma_unchanged_outside_trans(m0, m2, canvas.parent@, oc, or, w as int, h);
            lemma_changed_only_in_row_trans(m0, m2, canvas.parent@, or, oc + 1, oc + w, oc + right_sep,
                oc + right_sep + 1, oc + 1, oc + w);
            assert((title_col as int, right_sep as int) == self.title_separators(w as int));
            if w >= 3 {
                assert(title_col < right_sep);
                assert(m1.in_bounds(oc + title_col, or));
                assert(m2.at(oc + title_col, or) == border_cell_spec(g.title_left, fg, bg));
                assert(m2.in_bounds(oc + title_col, or));
            }
        }
    }
}

impl Widget for Panel {
    /// Nothing on a region under 2 × 2; otherwise the top edge with the
    /// title, the sides, the bottom edge, and the child drawn last in the
    /// interior.
    open spec fn drawn(&self, caps: &TermCaps, before: CanvasModel, after: CanvasModel, oc: int, or: int, w: int,
        h: int) -> bool {
        let g = self.drawn_glyphs(caps);
        &&& (w < 2 || h < 2) ==> after == before
        &&& (w >= 2 && h >= 2) ==> self.frame_drawn(caps, after, oc, or, w, h)
        &&& (w >= 3 && h >= 2 && self.title is Some) ==> self.title_marked(caps, after, oc, or, w)
        &&& (w >= 2 && h >= 2) ==> row_kept(edge_written(before, oc, or, w, h, h - 1, g.bottom_left, g.horizontal,
            g.bottom_right, self.border_fg, self.border_bg), after, or + h - 1)
        &&& (w >= 2 && h >= 2 && self.child is None) ==> forall|y: int| 1 <= y < h - 1 ==>
            row_kept(#[trigger] side_written(before, oc, or, w, h, y, border_cell_spec(g.vertical, self.border_fg,
            self.border_bg), self.inner_bg), after, or + y)
        &&& (w >= 2 && h >= 2) ==> forall|c: int| 0 <= c < w ==> #[trigger] after.at(oc + c, or)
            == self.top_edge(caps, before, oc, or, w, h).at(oc + c, or)
        &&& (w >= 2 && h >= 2) ==> (self.child matches Some(c) ==> exists|m: CanvasModel|
            #[trigger] c.drawn(caps, m, after, oc + 1, or + 1, w - 2, h - 2) && self.sides_under(caps, before, m, oc, or,
            w, h))
    }

    fn render(&self, canvas: &mut SubCanvas<'_>, caps: &TermCaps)
        ensures
            (old(canvas).width < 2 || old(canvas).height < 2) ==> final(canvas).parent@ == old(canvas).parent@,
            (old(canvas).width >= 2 && old(canvas).height >= 2) ==> self.frame_drawn(caps, final(canvas).parent@,
                old(canvas).origin_col as int, old(canvas).origin_row as int, old(canvas).width as int,
                old(canvas).height as int),
            (old(canvas).width >= 3 && old(canvas).height >= 2 && self.title is Some) ==> self.title_marked(caps,
                final(canvas).parent@, old(canvas).origin_col as int, old(canvas).origin_row as int,
                old(canvas).width as int),
            (old(canvas).width >= 2 && old(canvas).height >= 2) ==> row_kept(edge_written(old(canvas).parent@,
                old(canvas).origin_col as int, old(canvas).origin_row as int, old(canvas).width as int,
                old(canvas).height as int, old(canvas).height - 1, self.drawn_glyphs(caps).bottom_left,
                self.drawn_glyphs(caps).horizontal, self.drawn_glyphs(caps).bottom_right, self.border_fg,
                self.border_bg), final(canvas).parent@, old(canvas).origin_row + old(canvas).height - 1),
            (old(canvas).width >= 2 && old(canvas).height >= 2 && self.child is None) ==> forall|y: int|
                1 <= y < old(canvas).height - 1 ==> row_kept(#[trigger] side_written(old(canvas).parent@,
                old(canvas).origin_col as int, old(canvas).origin_row as int, old(canvas).width as int,
                old(canvas).height as int, y, border_cell_spec(self.drawn_glyphs(caps).vertical, self.border_fg,
                self.border_bg), self.inner_bg), final(canvas).parent@, old(canvas).origin_row + y),
            (old(canvas).width >= 2 && old(canvas).height >= 2) ==> forall|c: int| 0 <= c < old(canvas).width ==>
                #[trigger] final(canvas).parent@.at(old(canvas).origin_col + c, old(canvas).origin_row as int)
                == self.top_edge(caps, old(canvas).parent@, old(canvas).origin_col as int, old(canvas).origin_row as int,
                    old(canvas).width as int, old(canvas).height as int).at(old(canvas).origin_col + c,
                    old(canvas).origin_row as int),
    {
        let w = canvas.width();
        let h = canvas.height();
        if w < 2 || h < 2 {
            return;
        }
        let ghost m0 = canvas.parent@;
        let ghost oc = canvas.origin_col as int;
        let ghost or = canvas.origin_row as int;
        proof {
            lemma_unchanged_outside_refl(m0, oc, or, w as int, h as int);
        }
        let style = self.border_style.with_caps(caps);
        let g = style.glyphs();
        let fg = self.border_fg;
        let bg = self.border_bg;
        let ghost vcell = border_cell_spec(g.vertical, fg, bg);
        let ghost inner_cell = line_cell(' ', Color::Default, self.inner_bg);

        // ── Top edge ──────────────────────────────────────────────────────────
        draw_edge(canvas, 0, g.top_left, g.horizontal, g.top_right, fg, bg);
        let ghost mt = canvas.parent@;
        proof { lemma_unchanged_outside_trans(m0, m0, mt, oc, or, w as int, h as int); }

        // ── Title on top edge ─────────────────────────────────────────────────
        if self.title.is_some() {
            let ghost m = canvas.parent@;
            self.draw_title(canvas, &g);
            proof {
                lemma_unchanged_outside_trans(m0, m, canvas.parent@, oc, or, w as int, h as int);
            }
        }
        let ghost mtt = canvas.parent@;
        assert(mtt == self.top_edge(caps, m0, oc, or, w as int, h as int));
        proof {
            lemma_only_row_changed(m0, mt, or, oc, oc + w);
            lemma_only_row_changed(mt, mtt, or, oc + 1, oc + w);
            assert forall|y: int| 1 <= y < h implies #[trigger] row_kept(m0, mtt, or + y) by {
                lemma_row_kept_elsewhere(m0, mt, or, or + y);
                lemma_row_kept_elsewhere(mt, mtt, or, or + y);
                lemma_row_kept_trans(m0, mt, mtt, or + y);
            }
        }
        assert(changed_only_in_row(mt, mtt, or, oc + 1, oc + w));
        assert(mtt.at(oc, or) == border_cell_spec(g.top_left, fg, bg));
        let ghost title_ok = w >= 3 && self.title is Some ==> self.title_marked(caps, mtt, oc, or, w as int);
        assert(title_ok);

        // ── Sides and inner fill ───────────────────────────────────────────────
        let mut r: u16 = 1;
        while r < h - 1
            invariant
                1 <= r <= h - 1,
                canvas.wf(),
                canvas.origin_col == oc,
                canvas.origin_row == or,
                canvas.width == w,
                canvas.height == h,
                w >= 2,
                w + 2 <= u16::MAX,
                unchanged_outside(m0, canvas.parent@, oc, or, w as int, h as int),
                canvas.parent@.at(oc, or) == border_cell_spec(g.top_left, fg, bg),
                self.title is None ==> edge_row(canvas.parent@, oc, or, w as int, g.top_left, g.horizontal, g.top_right, fg, bg),
                forall|c: int| 0 <= c < w ==> #[trigger] canvas.parent@.at(oc + c, or) == mtt.at(oc + c, or),
                mtt.width == m0.width,
                forall|y: int| 1 <= y < r ==> #[trigger] canvas.parent@.at(oc, or + y) == vcell,
                forall|y: int| 1 <= y < r ==> #[trigger] canvas.parent@.at(oc + w - 1, or + y) == vcell,
                self.inner_bg != Color::Default ==> forall|c: int, y: int| 1 <= c < w - 1 && 1 <= y < r
                    ==> #[trigger] canvas.parent@.at(oc + c, or + y) == inner_cell,
                vcell == border_cell_spec(g.vertical, fg, bg),
                inner_cell == line_cell(' ', Color::Default, self.inner_bg),
                forall|y: int| r <= y < h ==> #[trigger] row_kept(m0, canvas.parent@, or + y),
                forall|y: int| 1 <= y < r ==> row_kept(#[trigger] side_written(m0, oc, or, w as int, h as int, y, vcell,
                    self.inner_bg), canvas.parent@, or + y),
                *final(canvas.parent) == *final(old(canvas).parent),
            decreases h - 1 - r,
        {
            let ghost m = canvas.parent@;
            let ghost y0 = r as int;
            draw_side_row(canvas, r, g.vertical, self.inner_bg, fg, bg);
            proof {
                let m1 = canvas.parent@;
                lemma_unchanged_outside_trans(m0, m, m1, oc, or, w as int, h as int);
                lemma_only_row_changed(m, m1, or + y0, oc, oc + w);
                lemma_side_written_local(m0, m, oc, or, w as int, h as int, y0, vcell, self.inner_bg);
                assert forall|y: int| y0 + 1 <= y < h implies #[trigger] row_kept(m0, m1, or + y) by {
                    lemma_row_kept_elsewhere(m, m1, or + y0, or + y);
                    lemma_row_kept_trans(m0, m, m1, or + y);
                }
                assert forall|y: int| 1 <= y < y0 + 1 implies row_kept(#[trigger] side_written(m0, oc, or, w as int,
                    h as int, y, vcell, self.inner_bg), m1, or + y) by {
                    if y < y0 {
                        lemma_side_written_local(m0, m0, oc, or, w as int, h as int, y, vcell, self.inner_bg);
                        lemma_row_kept_elsewhere(m, m1, or + y0, or + y);
                        lemma_row_kept_trans(side_written(m0, oc, or, w as int, h as int, y, vcell, self.inner_bg), m,
                            m1, or + y);
                    }
                }
            }
            r += 1;
        }

        // ── Bottom edge ───────────────────────────────────────────────────────
        let ghost m = canvas.parent@;
        draw_edge(canvas, h - 1, g.bottom_left, g.horizontal, g.bottom_right, fg, bg);
        proof { lemma_unchanged_outside_trans(m0, m, canvas.parent@, oc, or, w as int, h as int); }
        let ghost mb = canvas.parent@;
        proof {
            lemma_only_row_changed(m, mb, or + h - 1, oc, oc + w);
            lemma_edge_written_local(m0, m, oc, or, w as int, h as int, h - 1, g.bottom_left, g.horizontal,
                g.bottom_right, fg, bg);
            assert forall|y: int| 1 <= y < h - 1 implies row_kept(#[trigger] side_written(m0, oc, or, w as int,
                h as int, y, vcell, self.inner_bg), mb, or + y) by {
                lemma_side_written_local(m0, m0, oc, or, w as int, h as int, y, vcell, self.inner_bg);
                lemma_row_kept_elsewhere(m, mb, or + h - 1, or + y);
                lemma_row_kept_trans(side_written(m0, oc, or, w as int, h as int, y, vcell, self.inner_bg), m, mb, or + y);
            }
        }
        assert(self.frame_drawn(caps, mb, oc, or, w as int, h as int));
        assert forall|c: int| 0 <= c < w implies #[trigger] mb.at(oc + c, or) == mtt.at(oc + c, or) by {
            assert(m.at(oc + c, or) == mtt.at(oc + c, or));
            assert(m.in_bounds(oc + c, or));
        }
        proof {
            if w >= 3 && self.title is Some {
                let (tl, tr) = self.title_separators(w as int);
                assert(0 <= tl < w && 0 <= tr < w);
                assert(mb.at(oc + tl, or) == mtt.at(oc + tl, or));
                assert(mb.at(oc + tr, or) == mtt.at(oc + tr, or));
                assert(self.title_marked(caps, mb, oc, or, w as int));
            }
        }

        // ── Child widget in inner area ────────────────────────────────────────
        match &self.child {
            Some(child) => {
                let ghost m = canvas.parent@;
                let mut inner = canvas.sub(1, 1, w - 2, h - 2);
                child.render(&mut inner, caps);
                proof {
                    assert(child.drawn(caps, m, inner.parent@, oc + 1, or + 1, (w - 2) as int, (h - 2) as int));
                    lemma_unchanged_outside_widen(m, inner.parent@, oc + 1, or + 1, (w - 2) as int, (h - 2) as int,
                        oc, or, w as int, h as int);
                    lemma_unchanged_outside_trans(m0, m, inner.parent@, oc, or, w as int, h as int);
                    let mf = inner.parent@;
                    assert(mf.at(oc, or) == mb.at(oc, or));
                    assert forall|y: int| 1 <= y < h - 1 implies #[trigger] mf.at(oc, or + y) == vcell by {
                        assert(mb.at(oc, or + y) == vcell);
                    }
                    assert forall|c: int| 0 <= c < w implies #[trigger] mf.at(oc + c, or + h - 1) == mb.at(oc + c, or + h - 1) by {}
                    lemma_edge_written_local(m0, m0, oc, or, w as int, h as int, h - 1, g.bottom_left, g.horizontal,
                        g.bottom_right, fg, bg);
                    assert forall|c: int| 0 <= c < mb.width implies #[trigger] mf.at(c, or + h - 1) == mb.at(c, or + h - 1) by {
                        assert(mb.in_bounds(c, or + h - 1));
                    }
                    lemma_row_kept_trans(edge_written(m0, oc, or, w as int, h as int, h - 1, g.bottom_left, g.horizontal,
                        g.bottom_right, fg, bg), mb, mf, or + h - 1);
                    assert forall|c: int| 0 <= c < w implies #[trigger] mf.at(oc + c, or) == mb.at(oc + c, or) by {}
                    assert(self.frame_drawn(caps, mf, oc, or, w as int, h as int));
                    if w >= 3 && self.title is Some {
                        let (tl, tr) = self.title_separators(w as int);
                        assert(mf.at(oc + tl, or) == mb.at(oc + tl, or));
                        assert(mf.at(oc + tr, or) == mb.at(oc + tr, or));
                    }
                    assert(m == mb);
                    assert(self.sides_under(caps, m0, mb, oc, or, w as int, h as int)) by {
                        reveal(Panel::sides_under);
                    }
                    assert(child.drawn(caps, mb, mf, oc + 1, or + 1, (w - 2) as int, (h - 2) as int));
                }
            },
            None => {},
        }
    }

    /// The child's minimum plus the border, in wrapping `u16` arithmetic;
    /// just the border without a child.
    open spec fn min_size_spec(&self) -> (u16, u16) {
        match self.child {
            Some(c) => (c.min_size_spec().0.wrapping_add(2), c.min_size_spec().1.wrapping_add(2)),
            None => (2u16, 2u16),
        }
    }

    fn min_size(&self) -> (r: (u16, u16))
        ensures
            self.child is None ==> r == (2u16, 2u16),
    {
        let (cw, ch) = match &self.child {
            Some(c) => c.min_size(),
            None => (0, 0),
        };
        (cw.wrapping_add(2), ch.wrapping_add(2))
    }

    /// The child's preferred size plus the border, in wrapping `u16`
    /// arithmetic; 20 × 10 inside the border without a child.
    open spec fn preferred_size_spec(&self) -> (u16, u16) {
        match self.child {
            Some(c) => (c.preferred_size_spec().0.wrapping_add(2), c.preferred_size_spec().1.wrapping_add(2)),
            None => (22u16, 12u16),
        }
    }

    /// The child's preferred size plus the border, in wrapping `u16`
    /// arithmetic; 20 × 10 inside the border without a child.
    fn preferred_size(&self) -> (r: (u16, u16))
        ensures
            self.child is None ==> r == (22u16, 12u16),
    {
        let (cw, ch) = match &self.child {
            Some(c) => c.preferred_size(),
            None => (20, 10),
        };
        (cw.wrapping_add(2), ch.wrapping_add(2))
    }
}

} // verus!
