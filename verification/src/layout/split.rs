//! Split-pane layouts: which pane has focus, what a key does to a split,
//! and how panes are laid out and drawn once the split position is known.
//!
//! Split positions come from fractional ratios; the fraction of a size is
//! taken by the caller, and everything from that desired position on is
//! decided here.

use vstd::prelude::*;
use crate::border::style::{border_glyphs, style_for_caps, BorderStyle};
use crate::canvas::canvas::{fill_h_spec, fill_v_spec, lemma_fill_h_content, lemma_fill_v_content,
    lemma_region_set_row, lemma_unchanged_outside_refl, lemma_unchanged_outside_trans, lemma_unchanged_outside_widen,
    line_cell, min_sat, region_set, unchanged_outside, CanvasModel, SubCanvas};
use crate::canvas::cell::Cell;
use crate::color::types::{BasicColor, Color, StyleFlags};
use crate::event::keys::Key;
use crate::term::caps::TermCaps;
use crate::widget::traits::Widget;

verus! {

/// Which pane of a two-pane split is focused.
#[derive(Debug, Clone, Copy, PartialEq, Eq, Structural)]
pub enum Pane2 {
    First,
    Second,
}

impl Default for Pane2 {
    fn default() -> (p: Pane2)
        ensures
            p == Pane2::First,
    {
        Pane2::First
    }
}

/// Which pane of a four-quadrant layout is active.
#[derive(Debug, Clone, Copy, PartialEq, Eq, Structural)]
pub enum Pane4 {
    TopLeft,
    TopRight,
    BottomLeft,
    BottomRight,
}

impl Default for Pane4 {
    fn default() -> (p: Pane4)
        ensures
            p == Pane4::TopLeft,
    {
        Pane4::TopLeft
    }
}

/// The other pane of a two-pane split.
pub open spec fn other_pane(p: Pane2) -> Pane2 {
    match p {
        Pane2::First => Pane2::Second,
        Pane2::Second => Pane2::First,
    }
}

/// The next pane clockwise: top-left, top-right, bottom-right, bottom-left.
pub open spec fn next_pane4(p: Pane4) -> Pane4 {
    match p {
        Pane4::TopLeft => Pane4::TopRight,
        Pane4::TopRight => Pane4::BottomRight,
        Pane4::BottomRight => Pane4::BottomLeft,
        Pane4::BottomLeft => Pane4::TopLeft,
    }
}

/// The previous pane clockwise.
pub open spec fn prev_pane4(p: Pane4) -> Pane4 {
    match p {
        Pane4::TopLeft => Pane4::BottomLeft,
        Pane4::BottomLeft => Pane4::BottomRight,
        Pane4::BottomRight => Pane4::TopRight,
        Pane4::TopRight => Pane4::TopLeft,
    }
}

// ---------------------------------------------------------------------------
// Keys
// ---------------------------------------------------------------------------

/// What a key does to a two-pane split: the new focus and resize mode, the
/// direction to move the divider (-1 towards the first pane, +1 away from
/// it, 0 not at all), and whether the key was consumed.
#[derive(Debug, Clone, Copy, PartialEq, Eq, Structural)]
pub struct Split2Step {
    pub focused: Pane2,
    pub resize_mode: bool,
    pub step: i8,
    pub consumed: bool,
}

/// In resize mode the arrows along the split (Left/Right for a horizontal
/// split, Up/Down for a vertical one) move the divider and `Esc` or `r`
/// leave the mode; otherwise `Tab` switches panes and `r` toggles the mode.
pub open spec fn split2_key_spec(focused: Pane2, resize_mode: bool, key: Key, horizontal: bool) -> Split2Step {
    let shrink = if horizontal { key == Key::Left } else { key == Key::Up };
    let grow = if horizontal { key == Key::Right } else { key == Key::Down };
    if resize_mode && shrink {
        Split2Step { focused, resize_mode, step: -1i8, consumed: true }
    } else if resize_mode && grow {
        Split2Step { focused, resize_mode, step: 1, consumed: true }
    } else if resize_mode && (key == Key::Escape || key == Key::Char('r')) {
        Split2Step { focused, resize_mode: false, step: 0, consumed: true }
    } else if key == Key::Tab {
        Split2Step { focused: other_pane(focused), resize_mode, step: 0, consumed: true }
    } else if key == Key::Char('r') {
        Split2Step { focused, resize_mode: !resize_mode, step: 0, consumed: true }
    } else {
        Split2Step { focused, resize_mode, step: 0, consumed: false }
    }
}

/// What `key` does to a two-pane split (see `split2_key_spec`).
pub fn split2_key(focused: Pane2, resize_mode: bool, key: Key, horizontal: bool) -> (s: Split2Step)
    ensures
        s == split2_key_spec(focused, resize_mode, key, horizontal),
{
    if resize_mode {
        let shrink = if horizontal { key == Key::Left } else { key == Key::Up };
        let grow = if horizontal { key == Key::Right } else { key == Key::Down };
        if shrink {
            return Split2Step { focused, resize_mode, step: -1, consumed: true };
        }
        if grow {
            return Split2Step { focused, resize_mode, step: 1, consumed: true };
        }
        if key == Key::Escape || key == Key::Char('r') {
            return Split2Step { focused, resize_mode: false, step: 0, consumed: true };
        }
    }
    if key == Key::Tab {
        let other = match focused {
            Pane2::First => Pane2::Second,
            Pane2::Second => Pane2::First,
        };
        Split2Step { focused: other, resize_mode, step: 0, consumed: true }
    } else if key == Key::Char('r') {
        Split2Step { focused, resize_mode: !resize_mode, step: 0, consumed: true }
    } else {
        Split2Step { focused, resize_mode, step: 0, consumed: false }
    }
}

/// What a key does to a four-pane grid: the new focus and resize mode, the
/// directions to move the vertical divider (`h_step`) and the horizontal one
/// (`v_step`), and whether the key was consumed.
#[derive(Debug, Clone, Copy, PartialEq, Eq, Structural)]
pub struct Split4Step {
    pub focused: Pane4,
    pub resize_mode: bool,
    pub h_step: i8,
    pub v_step: i8,
    pub consumed: bool,
}

/// In resize mode the arrows move the dividers and `Esc` or `r` leave the
/// mode; otherwise `Tab` / `Shift-Tab` cycle the focus clockwise / back and
/// `r` toggles the mode.
pub open spec fn split4_key_spec(focused: Pane4, resize_mode: bool, key: Key) -> Split4Step {
    if resize_mode && key == Key::Left {
        Split4Step { focused, resize_mode, h_step: -1i8, v_step: 0, consumed: true }
    } else if resize_mode && key == Key::Right {
        Split4Step { focused, resize_mode, h_step: 1, v_step: 0, consumed: true }
    } else if resize_mode && key == Key::Up {
        Split4Step { focused, resize_mode, h_step: 0, v_step: -1i8, consumed: true }
    } else if resize_mode && key == Key::Down {
        Split4Step { focused, resize_mode, h_step: 0, v_step: 1, consumed: true }
    } else if resize_mode && (key == Key::Escape || key == Key::Char('r')) {
        Split4Step { focused, resize_mode: false, h_step: 0, v_step: 0, consumed: true }
    } else if key == Key::Tab {
        Split4Step { focused: next_pane4(focused), resize_mode, h_step: 0, v_step: 0, consumed: true }
    } else if key == Key::BackTab {
        Split4Step { focused: prev_pane4(focused), resize_mode, h_step: 0, v_step: 0, consumed: true }
    } else if key == Key::Char('r') {
        Split4Step { focused, resize_mode: !resize_mode, h_step: 0, v_step: 0, consumed: true }
    } else {
        Split4Step { focused, resize_mode, h_step: 0, v_step: 0, consumed: false }
    }
}

/// What `key` does to a four-pane grid (see `split4_key_spec`).
pub fn split4_key(focused: Pane4, resize_mode: bool, key: Key) -> (s: Split4Step)
    ensures
        s == split4_key_spec(focused, resize_mode, key),
{
    if resize_mode {
        match key {
            Key::Left => return Split4Step { focused, resize_mode, h_step: -1, v_step: 0, consumed: true },
            Key::Right => return Split4Step { focused, resize_mode, h_step: 1, v_step: 0, consumed: true },
            Key::Up => return Split4Step { focused, resize_mode, h_step: 0, v_step: -1, consumed: true },
            Key::Down => return Split4Step { focused, resize_mode, h_step: 0, v_step: 1, consumed: true },
            Key::Escape => return Split4Step { focused, resize_mode: false, h_step: 0, v_step: 0, consumed: true },
            Key::Char(c) => {
                if c == 'r' {
                    return Split4Step { focused, resize_mode: false, h_step: 0, v_step: 0, consumed: true };
                }
            },
            _ => {},
        }
    }
    match key {
        Key::Tab => {
            let next = match focused {
                Pane4::TopLeft => Pane4::TopRight,
                Pane4::TopRight => Pane4::BottomRight,
                Pane4::BottomRight => Pane4::BottomLeft,
                Pane4::BottomLeft => Pane4::TopLeft,
            };
            Split4Step { focused: next, resize_mode, h_step: 0, v_step: 0, consumed: true }
        },
        Key::BackTab => {
            let prev = match focused {
                Pane4::TopLeft => Pane4::BottomLeft,
                Pane4::BottomLeft => Pane4::BottomRight,
                Pane4::BottomRight => Pane4::TopRight,
                Pane4::TopRight => Pane4::TopLeft,
            };
            Split4Step { focused: prev, resize_mode, h_step: 0, v_step: 0, consumed: true }
        },
        Key::Char(c) => {
            if c == 'r' {
                Split4Step { focused, resize_mode: !resize_mode, h_step: 0, v_step: 0, consumed: true }
            } else {
                Split4Step { focused, resize_mode, h_step: 0, v_step: 0, consumed: false }
            }
        },
        _ => Split4Step { focused, resize_mode, h_step: 0, v_step: 0, consumed: false },
    }
}

/// Four `Tab`s bring the focus back where it started, and `Shift-Tab`
/// undoes `Tab`.
pub proof fn lemma_pane4_cycle(p: Pane4)
    ensures
        next_pane4(next_pane4(next_pane4(next_pane4(p)))) == p,
        prev_pane4(next_pane4(p)) == p,
        next_pane4(prev_pane4(p)) == p,
{
}

/// Two `Tab`s bring the focus of a two-pane split back.
pub proof fn lemma_pane2_cycle(p: Pane2)
    ensures
        other_pane(other_pane(p)) == p,
        other_pane(p) != p,
{
}

// ---------------------------------------------------------------------------
// Geometry
// ---------------------------------------------------------------------------

/// `x` held to `lo ..= hi` (`u16::clamp`, which needs `lo <= hi`).
pub open spec fn clamp_spec(x: int, lo: int, hi: int) -> int {
    if x < lo { lo } else if x > hi { hi } else { x }
}

/// `x` held to `lo ..= hi`.
pub fn clamp_u16(x: u16, lo: u16, hi: u16) -> (r: u16)
    requires
        lo <= hi,
    ensures
        r == clamp_spec(x as int, lo as int, hi as int),
{
    if x < lo {
        lo
    } else if x > hi {
        hi
    } else {
        x
    }
}

/// `a - b`, or 0 when `b` is larger.
pub open spec fn sat_minus(a: int, b: int) -> int {
    if a >= b { a - b } else { 0 }
}

/// The divider position of a two-pane split of `total` cells: the desired
/// position, kept `min_first` cells from the start and `min_second` cells
/// plus the divider from the end (`u16::clamp`, which needs the lower bound
/// under the upper one).
pub fn clamp_div(desired: u16, total: u16, min_first: u16, min_second: u16) -> (d: u16)
    requires
        min_second < u16::MAX,
        min_first <= sat_minus(total as int, min_second + 1),
    ensures
        d == clamp_spec(desired as int, min_first as int, sat_minus(total as int, min_second + 1)),
{
    clamp_u16(desired, min_first, total.saturating_sub(min_second + 1))
}

/// Draws `child` in the part of `canvas` at local `(col, row)`, `width ×
/// height` cells (clamped to the canvas).
fn render_child(canvas: &mut SubCanvas<'_>, caps: &TermCaps, child: &Box<dyn Widget>, col: u16, row: u16,
    width: u16, height: u16)
    requires
        old(canvas).wf(),
        old(canvas).width + 2 <= u16::MAX,
        col <= old(canvas).width,
        row <= old(canvas).height,
        old(canvas).origin_col + col <= u16::MAX,
        old(canvas).origin_row + row <= u16::MAX,
    ensures
        final(canvas).same_frame(old(canvas)),
        final(canvas).wf(),
        unchanged_outside(old(canvas).parent@, final(canvas).parent@, old(canvas).origin_col as int,
            old(canvas).origin_row as int, old(canvas).width as int, old(canvas).height as int),
        unchanged_outside(old(canvas).parent@, final(canvas).parent@, old(canvas).origin_col + col,
            old(canvas).origin_row + row, width as int, height as int),
        child.drawn(caps, old(canvas).parent@, final(canvas).parent@, old(canvas).origin_col + col,
            old(canvas).origin_row + row, min_sat(width as int, old(canvas).width as int, col as int),
            min_sat(height as int, old(canvas).height as int, row as int)),
        *final(final(canvas).parent) == *final(old(canvas).parent),
{
    let ghost oc = canvas.origin_col as int;
    let ghost or = canvas.origin_row as int;
    let ghost w0 = canvas.width as int;
    let ghost h0 = canvas.height as int;
    let ghost before = canvas.parent@;
    let mut sub = canvas.sub(col, row, width, height);
    child.render(&mut sub, caps);
    proof {
        lemma_unchanged_outside_widen(before, sub.parent@, oc + col, or + row, sub.width as int, sub.height as int,
            oc, or, w0, h0);
        lemma_unchanged_outside_widen(before, sub.parent@, oc + col, or + row, sub.width as int, sub.height as int,
            oc + col, or + row, width as int, height as int);
    }
}

/// The color dividers are drawn in: bright yellow while resizing.
pub open spec fn divider_fg(resize_mode: bool) -> Color {
    if resize_mode { Color::Basic(BasicColor::Yellow, true) } else { Color::Default }
}

/// The single-line border glyphs as a terminal with `caps` shows them.
pub open spec fn single_glyphs(caps: &TermCaps) -> crate::border::style::BorderGlyphs {
    border_glyphs(style_for_caps(BorderStyle::Single, caps.unicode))
}

/// The cell a divider is drawn with.
fn divider_cell(ch: char, fg: Color) -> (c: Cell)
    ensures
        c == (Cell { ch, fg, bg: Color::Default, style: StyleFlags { bits: 0 }, wide_continuation: false }),
{
    Cell { ch, fg, bg: Color::Default, style: StyleFlags::empty(), wide_continuation: false }
}

/// The divider color: bright yellow while resizing.
fn divider_color(resize_mode: bool) -> (c: Color)
    ensures
        c == (if resize_mode { Color::Basic(BasicColor::Yellow, true) } else { Color::Default }),
{
    if resize_mode {
        Color::Basic(BasicColor::Yellow, true)
    } else {
        Color::Default
    }
}

/// A horizontal split drawn over `before` in the `w × h` region at
/// `(oc, or)` with its divider at column `d`: the first pane in the columns
/// left of it, then the divider column filled with `line`, then the second
/// pane right of it, ending in `after`.
pub open spec fn hsplit_drawn(first: &Box<dyn Widget>, second: &Box<dyn Widget>, caps: &TermCaps,
    before: CanvasModel, after: CanvasModel, oc: int, or: int, w: int, h: int, d: int, line: Cell) -> bool {
    exists|m1: CanvasModel| #[trigger] first.drawn(caps, before, m1, oc, or, d, h)
        && second.drawn(caps, fill_v_spec(m1, oc, or, w, h, d, 0, h, line), after, oc + d + 1, or, w - d - 1, h)
}

/// A vertical split drawn over `before` in the `w × h` region at `(oc, or)`
/// with its divider at row `d`: the first pane above it, the divider row
/// filled with `line`, the second pane below it, ending in `after`.
pub open spec fn vsplit_drawn(first: &Box<dyn Widget>, second: &Box<dyn Widget>, caps: &TermCaps,
    before: CanvasModel, after: CanvasModel, oc: int, or: int, w: int, h: int, d: int, line: Cell) -> bool {
    exists|m1: CanvasModel| #[trigger] first.drawn(caps, before, m1, oc, or, w, d)
        && second.drawn(caps, fill_h_spec(m1, oc, or, w, h, 0, d, w, line), after, oc, or + d + 1, w, h - d - 1)
}

/// Draws a horizontal split (left pane | right pane) whose divider would
/// ideally sit at column `desired`: the first pane, the divider column (in
/// the single-line glyph the terminal can show, yellow while resizing), the
/// second pane.  A region under three columns is left alone.
pub fn render_hsplit(
    canvas: &mut SubCanvas<'_>, caps: &TermCaps, first: &Box<dyn Widget>, second: &Box<dyn Widget>,
    desired: u16, min_first: u16, min_second: u16, resize_mode: bool,
)
    requires
        old(canvas).wf(),
        old(canvas).width + 2 <= u16::MAX,
        old(canvas).origin_col + old(canvas).width <= u16::MAX,
        min_second < u16::MAX,
        old(canvas).width >= 3 ==> min_first <= sat_minus(old(canvas).width as int, min_second + 1),
    ensures
        final(canvas).same_frame(old(canvas)),
        final(canvas).wf(),
        unchanged_outside(old(canvas).parent@, final(canvas).parent@, old(canvas).origin_col as int,
            old(canvas).origin_row as int, old(canvas).width as int, old(canvas).height as int),
        *final(final(canvas).parent) == *final(old(canvas).parent),
        old(canvas).width < 3 ==> final(canvas).parent@ == old(canvas).parent@,
        old(canvas).width >= 3 ==> forall|r: int| 0 <= r < old(canvas).height ==>
            #[trigger] final(canvas).parent@.at(old(canvas).origin_col + clamp_spec(desired as int, min_first as int,
                sat_minus(old(canvas).width as int, min_second + 1)), old(canvas).origin_row + r)
                == line_cell(single_glyphs(caps).vertical, divider_fg(resize_mode), Color::Default),
        old(canvas).width >= 3 ==> hsplit_drawn(first, second, caps, old(canvas).parent@, final(canvas).parent@,
            old(canvas).origin_col as int, old(canvas).origin_row as int, old(canvas).width as int,
            old(canvas).height as int, clamp_spec(desired as int, min_first as int,
            sat_minus(old(canvas).width as int, min_second + 1)),
            line_cell(single_glyphs(caps).vertical, divider_fg(resize_mode), Color::Default)),
{
    let w = canvas.width();
    let h = canvas.height();
    if w < 3 {
        return;
    }
    let ghost m0 = canvas.parent@;
    let ghost oc = canvas.origin_col as int;
    let ghost or = canvas.origin_row as int;
    proof { lemma_unchanged_outside_refl(m0, oc, or, w as int, h as int); }
    let div_ch = BorderStyle::Single.with_caps(caps).glyphs().vertical;
    let div_col = clamp_div(desired, w, min_first, min_second);
    // First pane.
    let ghost m = canvas.parent@;
    render_child(canvas, caps, first, 0, 0, div_col, h);
    proof { lemma_unchanged_outside_trans(m0, m, canvas.parent@, oc, or, w as int, h as int); }
    let ghost m1 = canvas.parent@;
    // Divider column.
    let div_fg = divider_color(resize_mode);
    let ghost m = canvas.parent@;
    let ghost line = line_cell(div_ch, div_fg, Color::Default);
    proof { lemma_fill_v_content(m, oc, or, w as int, h as int, div_col as int, 0, h as int, line); }
    canvas.fill_v(div_col, 0, h, div_ch, div_fg, Color::Default);
    proof { lemma_unchanged_outside_trans(m0, m, canvas.parent@, oc, or, w as int, h as int); }
    let ghost md = canvas.parent@;
    // Second pane.
    let second_x = div_col + 1;
    let second_w = w.saturating_sub(second_x);
    let ghost m = canvas.parent@;
    render_child(canvas, caps, second, second_x, 0, second_w, h);
    proof {
        lemma_unchanged_outside_trans(m0, m, canvas.parent@, oc, or, w as int, h as int);
        assert forall|r: int| 0 <= r < h implies #[trigger] canvas.parent@.at(oc + div_col, or + r) == line by {
            assert(md.at(oc + div_col, or + r) == line);
            assert(md.in_bounds(oc + div_col, or + r));
        }
        assert(min_sat(div_col as int, w as int, 0) == div_col);
        assert(min_sat(second_w as int, w as int, second_x as int) == w - div_col - 1);
        assert(first.drawn(caps, m0, m1, oc, or, div_col as int, h as int));
    }
}

/// Draws a vertical split (top pane / bottom pane) whose divider would
/// ideally sit at row `desired`, as `render_hsplit` does across.  A region
/// under three rows is left alone.
pub fn render_vsplit(
    canvas: &mut SubCanvas<'_>, caps: &TermCaps, first: &Box<dyn Widget>, second: &Box<dyn Widget>,
    desired: u16, min_first: u16, min_second: u16, resize_mode: bool,
)
    requires
        old(canvas).wf(),
        old(canvas).width + 2 <= u16::MAX,
        old(canvas).origin_row + old(canvas).height <= u16::MAX,
        min_second < u16::MAX,
        old(canvas).height >= 3 ==> min_first <= sat_minus(old(canvas).height as int, min_second + 1),
    ensures
        final(canvas).same_frame(old(canvas)),
        final(canvas).wf(),
        unchanged_outside(old(canvas).parent@, final(canvas).parent@, old(canvas).origin_col as int,
            old(canvas).origin_row as int, old(canvas).width as int, old(canvas).height as int),
        *final(final(canvas).parent) == *final(old(canvas).parent),
        old(canvas).height < 3 ==> final(canvas).parent@ == old(canvas).parent@,
        old(canvas).height >= 3 ==> forall|c: int| 0 <= c < old(canvas).width ==>
            #[trigger] final(canvas).parent@.at(old(canvas).origin_col + c, old(canvas).origin_row
                + clamp_spec(desired as int, min_first as int, sat_minus(old(canvas).height as int, min_second + 1)))
                == line_cell(single_glyphs(caps).horizontal, divider_fg(resize_mode), Color::Default),
        old(canvas).height >= 3 ==> vsplit_drawn(first, second, caps, old(canvas).parent@, final(canvas).parent@,
            old(canvas).origin_col as int, old(canvas).origin_row as int, old(canvas).width as int,
            old(canvas).height as int, clamp_spec(desired as int, min_first as int,
            sat_minus(old(canvas).height as int, min_second + 1)),
            line_cell(single_glyphs(caps).horizontal, divider_fg(resize_mode), Color::Default)),
{
    let w = canvas.width();
    let h = canvas.height();
    if h < 3 {
        return;
    }
    let ghost m0 = canvas.parent@;
    let ghost oc = canvas.origin_col as int;
    let ghost or = canvas.origin_row as int;
    proof { lemma_unchanged_outside_refl(m0, oc, or, w as int, h as int); }
    let div_ch = BorderStyle::Single.with_caps(caps).glyphs().horizontal;
    let div_row = clamp_div(desired, h, min_first, min_second);
    let ghost m = canvas.parent@;
    render_child(canvas, caps, first, 0, 0, w, div_row);
    proof { lemma_unchanged_outside_trans(m0, m, canvas.parent@, oc, or, w as int, h as int); }
    let ghost m1 = canvas.parent@;
    let div_fg = divider_color(resize_mode);
    let ghost m = canvas.parent@;
    let ghost line = line_cell(div_ch, div_fg, Color::Default);
    proof { lemma_fill_h_content(m, oc, or, w as int, h as int, 0, div_row as int, w as int, line); }
    canvas.fill_h(0, div_row, w, div_ch, div_fg, Color::Default);
    proof { lemma_unchanged_outside_trans(m0, m, canvas.parent@, oc, or, w as int, h as int); }
    let ghost md = canvas.parent@;
    let second_y = div_row + 1;
    let second_h = h.saturating_sub(second_y);
    let ghost m = canvas.parent@;
    render_child(canvas, caps, second, 0, second_y, w, second_h);
    proof {
        lemma_unchanged_outside_trans(m0, m, canvas.parent@, oc, or, w as int, h as int);
        assert forall|c: int| 0 <= c < w implies #[trigger] canvas.parent@.at(oc + c, or + div_row) == line by {
            assert(md.at(oc + c, or + div_row) == line);
            assert(md.in_bounds(oc + c, or + div_row));
        }
        assert(min_sat(div_row as int, h as int, 0) == div_row);
        assert(min_sat(second_h as int, h as int, second_y as int) == h - div_row - 1);
        assert(first.drawn(caps, m0, m1, oc, or, w as int, div_row as int));
    }
}

/// The four arrangements of a three-pane layout.
#[derive(Debug, Clone, Copy, PartialEq, Eq, Structural)]
pub enum Split3Kind {
    /// Top row split into two, bottom row spans full width.
    TopTwoBottomOne,
    /// Top row spans full width, bottom row split into two.
    TopOneBottomTwo,
    /// Left pane spans full height, right side split top/bottom.
    LeftOneRightTwo,
    /// Left side split top/bottom, right pane spans full height.
    LeftTwoRightOne,
}

/// Where the three panes of a `w × h` region go, as `(col, row, width,
/// height)` each, once the left column width `left_w` and the top row height
/// `top_h` are known.
pub open spec fn split3_regions(kind: Split3Kind, w: int, h: int, left_w: int, top_h: int) -> Seq<(int, int, int, int)> {
    let right_w = w - left_w;
    let bot_h = h - top_h;
    match kind {
        Split3Kind::TopTwoBottomOne => seq![(0, 0, left_w, top_h), (left_w, 0, right_w, top_h), (0, top_h, w, bot_h)],
        Split3Kind::TopOneBottomTwo => seq![(0, 0, w, top_h), (0, top_h, left_w, bot_h), (left_w, top_h, right_w, bot_h)],
        Split3Kind::LeftOneRightTwo => seq![(0, 0, left_w, h), (left_w, 0, right_w, top_h), (left_w, top_h, right_w, bot_h)],
        Split3Kind::LeftTwoRightOne => seq![(0, 0, left_w, top_h), (0, top_h, left_w, bot_h), (left_w, 0, right_w, h)],
    }
}

/// Panes `a`, `b`, `c` drawn one after the other over `before`, each in its
/// region of `regs` (local to the region at `(oc, or)`), ending in `after`.
pub open spec fn panes_drawn3(a: &Box<dyn Widget>, b: &Box<dyn Widget>, c: &Box<dyn Widget>, caps: &TermCaps,
    before: CanvasModel, after: CanvasModel, oc: int, or: int, regs: Seq<(int, int, int, int)>) -> bool {
    exists|m1: CanvasModel, m2: CanvasModel|
        #![trigger b.drawn(caps, m1, m2, oc + regs[1].0, or + regs[1].1, regs[1].2, regs[1].3)]
        a.drawn(caps, before, m1, oc + regs[0].0, or + regs[0].1, regs[0].2, regs[0].3)
        && b.drawn(caps, m1, m2, oc + regs[1].0, or + regs[1].1, regs[1].2, regs[1].3)
        && c.drawn(caps, m2, after, oc + regs[2].0, or + regs[2].1, regs[2].2, regs[2].3)
}

/// Draws a three-pane layout whose split would ideally leave `desired_left`
/// columns on the left and `desired_top` rows on top; both are kept at
/// least two cells from each edge.  The panes `a`, `b`, `c` are drawn in
/// the order of `split3_regions`.
pub fn render_split3(
    canvas: &mut SubCanvas<'_>, caps: &TermCaps, kind: Split3Kind, a: &Box<dyn Widget>, b: &Box<dyn Widget>,
    c: &Box<dyn Widget>, desired_left: u16, desired_top: u16,
)
    requires
        old(canvas).wf(),
        old(canvas).width + 2 <= u16::MAX,
        old(canvas).origin_col + old(canvas).width <= u16::MAX,
        old(canvas).origin_row + old(canvas).height <= u16::MAX,
        old(canvas).width >= 4,
        old(canvas).height >= 4,
    ensures
        final(canvas).same_frame(old(canvas)),
        final(canvas).wf(),
        unchanged_outside(old(canvas).parent@, final(canvas).parent@, old(canvas).origin_col as int,
            old(canvas).origin_row as int, old(canvas).width as int, old(canvas).height as int),
        panes_drawn3(a, b, c, caps, old(canvas).parent@, final(canvas).parent@, old(canvas).origin_col as int,
            old(canvas).origin_row as int, split3_regions(kind, old(canvas).width as int, old(canvas).height as int,
            clamp_spec(desired_left as int, 2, old(canvas).width - 2),
            clamp_spec(desired_top as int, 2, old(canvas).height - 2))),
        *final(final(canvas).parent) == *final(old(canvas).parent),
{
    let w = canvas.width();
    let h = canvas.height();
    let ghost m0 = canvas.parent@;
    let ghost oc = canvas.origin_col as int;
    let ghost or = canvas.origin_row as int;
    proof { lemma_unchanged_outside_refl(m0, oc, or, w as int, h as int); }
    let top_h = clamp_u16(desired_top, 2, h - 2);
    let bot_h = h - top_h;
    let left_w = clamp_u16(desired_left, 2, w - 2);
    let right_w = w - left_w;
    let (r1, r2, r3) = match kind {
        Split3Kind::TopTwoBottomOne => ((0, 0, left_w, top_h), (left_w, 0, right_w, top_h), (0, top_h, w, bot_h)),
        Split3Kind::TopOneBottomTwo => ((0, 0, w, top_h), (0, top_h, left_w, bot_h), (left_w, top_h, right_w, bot_h)),
        Split3Kind::LeftOneRightTwo => ((0, 0, left_w, h), (left_w, 0, right_w, top_h), (left_w, top_h, right_w, bot_h)),
        Split3Kind::LeftTwoRightOne => ((0, 0, left_w, top_h), (0, top_h, left_w, bot_h), (left_w, 0, right_w, h)),
    };
    let ghost regs = split3_regions(kind, w as int, h as int, left_w as int, top_h as int);
    assert(regs[0] == (r1.0 as int, r1.1 as int, r1.2 as int, r1.3 as int));
    assert(regs[1] == (r2.0 as int, r2.1 as int, r2.2 as int, r2.3 as int));
    assert(regs[2] == (r3.0 as int, r3.1 as int, r3.2 as int, r3.3 as int));
    let ghost m = canvas.parent@;
    render_child(canvas, caps, a, r1.0, r1.1, r1.2, r1.3);
    proof { lemma_unchanged_outside_trans(m0, m, canvas.parent@, oc, or, w as int, h as int); }
    let ghost m1 = canvas.parent@;
    render_child(canvas, caps, b, r2.0, r2.1, r2.2, r2.3);
    proof { lemma_unchanged_outside_trans(m0, m1, canvas.parent@, oc, or, w as int, h as int); }
    let ghost m2 = canvas.parent@;
    render_child(canvas, caps, c, r3.0, r3.1, r3.2, r3.3);
    proof {
        lemma_unchanged_outside_trans(m0, m2, canvas.parent@, oc, or, w as int, h as int);
        assert(b.drawn(caps, m1, m2, oc + regs[1].0, or + regs[1].1, regs[1].2, regs[1].3));
    }
}

/// The dividers of a 2×2 grid in the region at `(oc, or)` of size `w × h`:
/// column `dc` holds the vertical line and row `dr` the horizontal one, in
/// `fg`, crossing at `(dc, dr)` (the column after the crossing may hold its
/// continuation).
pub open spec fn grid_dividers(m: crate::canvas::canvas::CanvasModel, oc: int, or: int, w: int, h: int, dc: int, dr: int,
    fg: Color) -> bool {
    &&& forall|r: int| 0 <= r < h && r != dr ==> #[trigger] m.at(oc + dc, or + r) == line_cell('│', fg, Color::Default)
    &&& forall|c: int| 0 <= c < w && c != dc && c != dc + 1 ==> #[trigger] m.at(oc + c, or + dr) == line_cell('─', fg, Color::Default)
    &&& m.at(oc + dc, or + dr) == line_cell('┼', fg, Color::Default)
}

/// Where the focus marker of pane `p` goes in a grid divided at `(dc, dr)`:
/// the pane's top-left corner.
pub open spec fn focus_corner(p: Pane4, dc: int, dr: int) -> (int, int) {
    match p {
        Pane4::TopLeft => (0, 0),
        Pane4::TopRight => (dc + 1, 0),
        Pane4::BottomLeft => (0, dr + 1),
        Pane4::BottomRight => (dc + 1, dr + 1),
    }
}

/// The cell of the focus marker.
fn focus_marker() -> (c: Cell)
    ensures
        c == (Cell { ch: '●', fg: Color::Basic(BasicColor::Cyan, true), bg: Color::Default,
            style: StyleFlags { bits: 0 }, wide_continuation: false }),
{
    Cell { ch: '●', fg: Color::Basic(BasicColor::Cyan, true), bg: Color::Default, style: StyleFlags::empty(),
        wide_continuation: false }
}

/// The dividers of a 2×2 grid drawn over `m`: the column `dc` and the row
/// `dr` in `fg`, and their crossing.
pub open spec fn grid_lines(m: CanvasModel, oc: int, or: int, w: int, h: int, dc: int, dr: int, fg: Color) -> CanvasModel {
    let a = fill_v_spec(m, oc, or, w, h, dc, 0, h, line_cell('│', fg, Color::Default));
    let b = fill_h_spec(a, oc, or, w, h, 0, dr, w, line_cell('─', fg, Color::Default));
    region_set(b, oc, or, w, h, dc, dr, line_cell('┼', fg, Color::Default))
}

/// What a 2×2 grid leaves after its panes are drawn into `m`: the dividers,
/// then the focus marker on the focused pane's corner unless the top-left
/// pane has focus outside resize mode.
pub open spec fn grid_finish(m: CanvasModel, oc: int, or: int, w: int, h: int, dc: int, dr: int, focused: Pane4,
    resize_mode: bool) -> CanvasModel {
    let g = grid_lines(m, oc, or, w, h, dc, dr, divider_fg(resize_mode));
    if focused != Pane4::TopLeft || resize_mode {
        let (fc, fr) = focus_corner(focused, dc, dr);
        region_set(g, oc, or, w, h, fc, fr, Cell { ch: '●', fg: Color::Basic(BasicColor::Cyan, true),
            bg: Color::Default, style: StyleFlags { bits: 0 }, wide_continuation: false })
    } else {
        g
    }
}

/// A 2×2 grid drawn over `before` in the `w × h` region at `(oc, or)` with
/// its dividers at column `dc` and row `dr`: the panes top-left, top-right,
/// bottom-left and bottom-right in their quadrants, one after the other,
/// then `grid_finish`, ending in `after`.
pub open spec fn split4_drawn(tl: &Box<dyn Widget>, tr: &Box<dyn Widget>, bl: &Box<dyn Widget>, br: &Box<dyn Widget>,
    caps: &TermCaps, before: CanvasModel, after: CanvasModel, oc: int, or: int, w: int, h: int, dc: int, dr: int,
    focused: Pane4, resize_mode: bool) -> bool {
    exists|m1: CanvasModel, m2: CanvasModel, m3: CanvasModel, m4: CanvasModel|
        #![trigger tl.drawn(caps, before, m1, oc, or, dc, dr), tr.drawn(caps, m1, m2, oc + dc + 1, or, w - dc - 1, dr),
            bl.drawn(caps, m2, m3, oc, or + dr + 1, dc, h - dr - 1),
            br.drawn(caps, m3, m4, oc + dc + 1, or + dr + 1, w - dc - 1, h - dr - 1)]
        tl.drawn(caps, before, m1, oc, or, dc, dr)
        && tr.drawn(caps, m1, m2, oc + dc + 1, or, w - dc - 1, dr)
        && bl.drawn(caps, m2, m3, oc, or + dr + 1, dc, h - dr - 1)
        && br.drawn(caps, m3, m4, oc + dc + 1, or + dr + 1, w - dc - 1, h - dr - 1)
        && after == grid_finish(m4, oc, or, w, h, dc, dr, focused, resize_mode)
}

/// Draws a 2×2 grid whose dividers would ideally sit at column
/// `desired_col` and row `desired_row` (each kept two cells from the
/// edges): the four panes top-left, top-right, bottom-left, bottom-right,
/// the dividers (yellow while resizing) and their crossing, and a marker on
/// the focused pane's corner unless the top-left pane has focus outside
/// resize mode.  A region under five cells either way is left alone.
pub fn render_split4(
    canvas: &mut SubCanvas<'_>, caps: &TermCaps, top_left: &Box<dyn Widget>, top_right: &Box<dyn Widget>,
    bottom_left: &Box<dyn Widget>, bottom_right: &Box<dyn Widget>, desired_col: u16, desired_row: u16,
    focused: Pane4, resize_mode: bool,
)
    requires
        old(canvas).wf(),
        old(canvas).width + 2 <= u16::MAX,
        old(canvas).origin_col + old(canvas).width <= u16::MAX,
        old(canvas).origin_row + old(canvas).height <= u16::MAX,
    ensures
        final(canvas).same_frame(old(canvas)),
        final(canvas).wf(),
        unchanged_outside(old(canvas).parent@, final(canvas).parent@, old(canvas).origin_col as int,
            old(canvas).origin_row as int, old(canvas).width as int, old(canvas).height as int),
        *final(final(canvas).parent) == *final(old(canvas).parent),
        (old(canvas).width < 5 || old(canvas).height < 5) ==> final(canvas).parent@ == old(canvas).parent@,
        (old(canvas).width >= 5 && old(canvas).height >= 5) ==> grid_dividers(final(canvas).parent@,
            old(canvas).origin_col as int, old(canvas).origin_row as int, old(canvas).width as int,
            old(canvas).height as int, clamp_spec(desired_col as int, 2, old(canvas).width - 2),
            clamp_spec(desired_row as int, 2, old(canvas).height - 2), divider_fg(resize_mode)),
        (old(canvas).width >= 5 && old(canvas).height >= 5 && (focused != Pane4::TopLeft || resize_mode)) ==> {
            let (fc, fr) = focus_corner(focused, clamp_spec(desired_col as int, 2, old(canvas).width - 2),
                clamp_spec(desired_row as int, 2, old(canvas).height - 2));
            final(canvas).parent@.at(old(canvas).origin_col + fc, old(canvas).origin_row + fr) == (Cell { ch: '●',
                fg: Color::Basic(BasicColor::Cyan, true), bg: Color::Default, style: StyleFlags { bits: 0 },
                wide_continuation: false })
        },
        (old(canvas).width >= 5 && old(canvas).height >= 5) ==> split4_drawn(top_left, top_right, bottom_left,
            bottom_right, caps, old(canvas).parent@, final(canvas).parent@, old(canvas).origin_col as int,
            old(canvas).origin_row as int, old(canvas).width as int, old(canvas).height as int,
            clamp_spec(desired_col as int, 2, old(canvas).width - 2), clamp_spec(desired_row as int, 2,
            old(canvas).height - 2), focused, resize_mode),
{
    let w = canvas.width();
    let h = canvas.height();
    if w < 5 || h < 5 {
        return;
    }
    let ghost m0 = canvas.parent@;
    let ghost oc = canvas.origin_col as int;
    let ghost or = canvas.origin_row as int;
    proof { lemma_unchanged_outside_refl(m0, oc, or, w as int, h as int); }
    let div_col = clamp_u16(desired_col, 2, w - 2);
    let div_row = clamp_u16(desired_row, 2, h - 2);
    let div_color = divider_color(resize_mode);
    let right_w = w - (div_col + 1);
    let bottom_h = h - (div_row + 1);

    // ── Quadrant sub-canvases ─────────────────────────────────────────────
    let ghost m = canvas.parent@;
    render_child(canvas, caps, top_left, 0, 0, div_col, div_row);
    proof { lemma_unchanged_outside_trans(m0, m, canvas.parent@, oc, or, w as int, h as int); }
    let ghost q1 = canvas.parent@;
    let ghost m = canvas.parent@;
    render_child(canvas, caps, top_right, div_col + 1, 0, right_w, div_row);
    proof { lemma_unchanged_outside_trans(m0, m, canvas.parent@, oc, or, w as int, h as int); }
    let ghost q2 = canvas.parent@;
    let ghost m = canvas.parent@;
    render_child(canvas, caps, bottom_left, 0, div_row + 1, div_col, bottom_h);
    proof { lemma_unchanged_outside_trans(m0, m, canvas.parent@, oc, or, w as int, h as int); }
    let ghost q3 = canvas.parent@;
    let ghost m = canvas.parent@;
    render_child(canvas, caps, bottom_right, div_col + 1, div_row + 1, right_w, bottom_h);
    proof { lemma_unchanged_outside_trans(m0, m, canvas.parent@, oc, or, w as int, h as int); }
    let ghost q4 = canvas.parent@;
    proof {
        let dc = div_col as int;
        let dr = div_row as int;
        assert(min_sat(dc, w as int, 0) == dc);
        assert(min_sat(dr, h as int, 0) == dr);
        assert(min_sat(right_w as int, w as int, dc + 1) == w - dc - 1);
        assert(min_sat(bottom_h as int, h as int, dr + 1) == h - dr - 1);
        assert(top_left.drawn(caps, m0, q1, oc, or, dc, dr));
        assert(top_right.drawn(caps, q1, q2, oc + dc + 1, or, w - dc - 1, dr));
        assert(bottom_left.drawn(caps, q2, q3, oc, or + dr + 1, dc, h - dr - 1));
        assert(bottom_right.drawn(caps, q3, q4, oc + dc + 1, or + dr + 1, w - dc - 1, h - dr - 1));
    }

    // ── Divider lines ─────────────────────────────────────────────────────
    let ghost vline = line_cell('│', div_color, Color::Default);
    let ghost hline = line_cell('─', div_color, Color::Default);
    let ghost cross = line_cell('┼', div_color, Color::Default);
    let ghost m = canvas.parent@;
    proof { lemma_fill_v_content(m, oc, or, w as int, h as int, div_col as int, 0, h as int, vline); }
    canvas.fill_v(div_col, 0, h, '│', div_color, Color::Default);
    proof { lemma_unchanged_outside_trans(m0, m, canvas.parent@, oc, or, w as int, h as int); }
    let ghost m = canvas.parent@;
    proof { lemma_fill_h_content(m, oc, or, w as int, h as int, 0, div_row as int, w as int, hline); }
    canvas.fill_h(0, div_row, w, '─', div_color, Color::Default);
    proof {
        lemma_unchanged_outside_trans(m0, m, canvas.parent@, oc, or, w as int, h as int);
        assert forall|r: int| 0 <= r < h && r != div_row implies #[trigger] canvas.parent@.at(oc + div_col, or + r) == vline by {
            assert(m.at(oc + div_col, or + r) == vline);
            assert(m.in_bounds(oc + div_col, or + r));
        }
    }
    let ghost m = canvas.parent@;
    proof { lemma_region_set_row(m, oc, or, w as int, h as int, div_col as int, div_row as int, cross); }
    canvas.set(div_col, div_row, divider_cell('┼', div_color));
    proof {
        lemma_unchanged_outside_trans(m0, m, canvas.parent@, oc, or, w as int, h as int);
        assert forall|r: int| 0 <= r < h && r != div_row implies #[trigger] canvas.parent@.at(oc + div_col, or + r) == vline by {
            assert(m.at(oc + div_col, or + r) == vline);
            assert(m.in_bounds(oc + div_col, or + r));
        }
        assert forall|c: int| 0 <= c < w && c != div_col && c != div_col + 1
            implies #[trigger] canvas.parent@.at(oc + c, or + div_row) == hline by {
            assert(m.at(oc + c, or + div_row) == hline);
            assert(m.in_bounds(oc + c, or + div_row));
        }
    }
    let ghost mg = canvas.parent@;
    assert(grid_dividers(mg, oc, or, w as int, h as int, div_col as int, div_row as int, div_color));

    // ── Focus indicator ───────────────────────────────────────────────────
    let (focus_col, focus_row) = match focused {
        Pane4::TopLeft => (0, 0),
        Pane4::TopRight => (div_col + 1, 0),
        Pane4::BottomLeft => (0, div_row + 1),
        Pane4::BottomRight => (div_col + 1, div_row + 1),
    };
    assert((focus_col as int, focus_row as int) == focus_corner(focused, div_col as int, div_row as int));
    assert(mg == grid_lines(q4, oc, or, w as int, h as int, div_col as int, div_row as int, divider_fg(resize_mode)));
    if focused != Pane4::TopLeft || resize_mode {
        let ghost m = canvas.parent@;
        let marker = focus_marker();
        proof { lemma_region_set_row(m, oc, or, w as int, h as int, focus_col as int, focus_row as int, marker); }
        canvas.set(focus_col, focus_row, marker);
        proof {
            lemma_unchanged_outside_trans(m0, m, canvas.parent@, oc, or, w as int, h as int);
            let mf = canvas.parent@;
            assert forall|r: int| 0 <= r < h && r != div_row implies #[trigger] mf.at(oc + div_col, or + r) == vline by {
                assert(m.at(oc + div_col, or + r) == vline);
                assert(m.in_bounds(oc + div_col, or + r));
            }
            assert forall|c: int| 0 <= c < w && c != div_col && c != div_col + 1
                implies #[trigger] mf.at(oc + c, or + div_row) == hline by {
                assert(m.at(oc + c, or + div_row) == hline);
                assert(m.in_bounds(oc + c, or + div_row));
            }
            assert(m.in_bounds(oc + div_col, or + div_row));
            assert(mf.at(oc + div_col, or + div_row) == cross);
        }
    }
}

} // verus!
