use vstd::prelude::*;
use crate::border::style::BorderStyle;
use crate::canvas::canvas::{fill_h_spec, fill_v_spec, lemma_fill_h_content, lemma_fill_v_column,
    lemma_region_set_row, lemma_row_change_region, line_cell, lemma_unchanged_outside_refl,
    lemma_unchanged_outside_meet, lemma_unchanged_outside_trans, lemma_unchanged_outside_widen, min_sat, print_spec, region_set, row_kept,
    unchanged_outside, Canvas, CanvasModel, SubCanvas};
use crate::canvas::cell::Cell;
use crate::color::types::{BasicColor, Color, StyleFlags};
use crate::demo::screens::{redrawn, Action, ScreenId};
use crate::event::keys::Key;
use crate::layout::split::{clamp_spec, clamp_u16, divider_fg};
use crate::term::caps::TermCaps;
use crate::text::concat_str;
use crate::widget::panel::{Align, Panel};
use crate::widget::traits::Widget;

verus! {

/// How many panes the layout demonstration shows.
#[derive(Debug, Clone, Copy, PartialEq, Eq, Structural)]
pub enum LayoutMode {
    Two,
    Three,
    Four,
}

/// What a key does on the layout screen: the new layout and resize mode,
/// the directions to move the vertical (`h_step`) and horizontal
/// (`v_step`) dividers, and the action for the app loop.
#[derive(Debug, Clone, Copy, PartialEq, Eq, Structural)]
pub struct LayoutDemoStep {
    pub mode: LayoutMode,
    pub resize_mode: bool,
    pub h_step: i8,
    pub v_step: i8,
    pub action: Action,
}

/// In resize mode the arrows move the dividers and `r` / `Esc` leave the
/// mode; otherwise `2`, `3`, `4` pick the layout, `r` enters resize mode,
/// `s` opens the save screen and `Esc` / `q` go back.
pub open spec fn layout_demo_key_spec(mode: LayoutMode, resize_mode: bool, key: Key) -> LayoutDemoStep {
    let stay = LayoutDemoStep { mode, resize_mode, h_step: 0, v_step: 0, action: Action::Continue };
    if resize_mode && key == Key::Left {
        LayoutDemoStep { h_step: -1i8, ..stay }
    } else if resize_mode && key == Key::Right {
        LayoutDemoStep { h_step: 1, ..stay }
    } else if resize_mode && key == Key::Up {
        LayoutDemoStep { v_step: -1i8, ..stay }
    } else if resize_mode && key == Key::Down {
        LayoutDemoStep { v_step: 1, ..stay }
    } else if resize_mode && (key == Key::Char('r') || key == Key::Escape) {
        LayoutDemoStep { resize_mode: false, ..stay }
    } else if key == Key::Char('2') {
        LayoutDemoStep { mode: LayoutMode::Two, ..stay }
    } else if key == Key::Char('3') {
        LayoutDemoStep { mode: LayoutMode::Three, ..stay }
    } else if key == Key::Char('4') {
        LayoutDemoStep { mode: LayoutMode::Four, ..stay }
    } else if key == Key::Char('r') {
        LayoutDemoStep { resize_mode: true, ..stay }
    } else if key == Key::Char('s') {
        LayoutDemoStep { action: Action::GoTo(ScreenId::SaveToFile), ..stay }
    } else if key == Key::Escape || key == Key::Char('q') {
        LayoutDemoStep { action: Action::GoTo(ScreenId::MainMenu), ..stay }
    } else {
        stay
    }
}

/// What `key` does on the layout screen (see `layout_demo_key_spec`).
pub fn layout_demo_key(mode: LayoutMode, resize_mode: bool, key: Key) -> (s: LayoutDemoStep)
    ensures
        s == layout_demo_key_spec(mode, resize_mode, key),
{
    let stay = LayoutDemoStep { mode, resize_mode, h_step: 0, v_step: 0, action: Action::Continue };
    if resize_mode {
        match key {
            Key::Left => return LayoutDemoStep { h_step: -1, ..stay },
            Key::Right => return LayoutDemoStep { h_step: 1, ..stay },
            Key::Up => return LayoutDemoStep { v_step: -1, ..stay },
            Key::Down => return LayoutDemoStep { v_step: 1, ..stay },
            Key::Escape => return LayoutDemoStep { resize_mode: false, ..stay },
            Key::Char(c) => {
                if c == 'r' {
                    return LayoutDemoStep { resize_mode: false, ..stay };
                }
            },
            _ => {},
        }
    }
    match key {
        Key::Char(c) => {
            if c == '2' {
                LayoutDemoStep { mode: LayoutMode::Two, ..stay }
            } else if c == '3' {
                LayoutDemoStep { mode: LayoutMode::Three, ..stay }
            } else if c == '4' {
                LayoutDemoStep { mode: LayoutMode::Four, ..stay }
            } else if c == 'r' {
                LayoutDemoStep { resize_mode: true, ..stay }
            } else if c == 's' {
                LayoutDemoStep { action: Action::GoTo(ScreenId::SaveToFile), ..stay }
            } else if c == 'q' {
                LayoutDemoStep { action: Action::GoTo(ScreenId::MainMenu), ..stay }
            } else {
                stay
            }
        },
        Key::Escape => LayoutDemoStep { action: Action::GoTo(ScreenId::MainMenu), ..stay },
        _ => stay,
    }
}

/// `p` is the pane labelled `label`: a panel with the title " label "
/// centred, a `border` border in `fg`, and otherwise as `Panel::new` makes it.
pub open spec fn is_pane(p: Panel, label: Seq<char>, border: BorderStyle, fg: Color) -> bool {
    &&& p.title matches Some(t) && t@ == seq![' '] + label + seq![' ']
    &&& p.title_align == Align::Center
    &&& p.border_style == border
    &&& p.border_fg == fg
    &&& p.border_bg == Color::Default
    &&& p.title_fg == Color::Default
    &&& p.title_bg == Color::Default
    &&& p.title_style == StyleFlags::bold_spec()
    &&& p.inner_bg == Color::Default
    &&& p.child is None
}

/// The pane labelled `label` drawn over `before` in the region at `(oc, or)`
/// of size `w × h`, giving `after`.
pub open spec fn pane_drawn(caps: &TermCaps, before: CanvasModel, after: CanvasModel, oc: int, or: int, w: int, h: int,
    label: Seq<char>, border: BorderStyle, fg: Color) -> bool {
    exists|p: Panel| #[trigger] is_pane(p, label, border, fg) && p.drawn(caps, before, after, oc, or, w, h)
}

/// The cell marking where the dividers meet while resizing.
pub open spec fn hint_cell() -> Cell {
    Cell { ch: '◆', fg: Color::Basic(BasicColor::Yellow, true), bg: Color::Default, style: StyleFlags::bold_spec(),
        wide_continuation: false }
}

/// What the resize hint does at local `(col, row)` of the region at
/// `(oc, or)` of size `w × h`: the diamond while resizing, nothing otherwise.
pub open spec fn hint_drawn(m: CanvasModel, oc: int, or: int, w: int, h: int, resize_mode: bool, col: int, row: int)
    -> CanvasModel {
    if resize_mode { region_set(m, oc, or, w, h, col, row, hint_cell()) } else { m }
}

/// The two-pane layout drawn over `before` (a region at the origin, `cw ×
/// ch`, of which the top `h` rows are the layout): pane A left of column
/// `dv`, the divider down column `dv` in `fg`, pane B right of it, then the
/// resize hint halfway down the divider.
pub open spec fn two_drawn(caps: &TermCaps, before: CanvasModel, after: CanvasModel, cw: int, ch: int, h: int, dv: int,
    resize_mode: bool) -> bool {
    exists|m1: CanvasModel, m3: CanvasModel|
        #![trigger pane_drawn(caps, before, m1, 0, 0, min_sat(dv, cw, 0), min_sat(h, ch, 0), "Pane A"@,
            BorderStyle::Single, Color::Basic(BasicColor::Cyan, true)), pane_drawn(caps, fill_v_spec(m1, 0, 0, cw, ch,
            dv, 0, h, line_cell('│', divider_fg(resize_mode), Color::Default)), m3, dv + 1, 0,
            min_sat(cw - (dv + 1), cw, dv + 1), min_sat(h, ch, 0), "Pane B"@, BorderStyle::Single,
            Color::Basic(BasicColor::Green, true))]
        pane_drawn(caps, before, m1, 0, 0, min_sat(dv, cw, 0), min_sat(h, ch, 0), "Pane A"@, BorderStyle::Single,
            Color::Basic(BasicColor::Cyan, true))
        && pane_drawn(caps, fill_v_spec(m1, 0, 0, cw, ch, dv, 0, h, line_cell('│', divider_fg(resize_mode),
            Color::Default)), m3, dv + 1, 0, min_sat(cw - (dv + 1), cw, dv + 1), min_sat(h, ch, 0), "Pane B"@,
            BorderStyle::Single, Color::Basic(BasicColor::Green, true))
        && after == hint_drawn(m3, 0, 0, cw, ch, resize_mode, dv, h / 2)
}

/// The three-pane layout drawn over `before` (a region at the origin, `cw ×
/// ch`, of which the top `h` rows are the layout): panes A and B side by side
/// above row `th`, split at column `dv`, and pane C across below.
pub open spec fn three_drawn(caps: &TermCaps, before: CanvasModel, after: CanvasModel, cw: int, ch: int, h: int,
    dv: int, th: int) -> bool {
    exists|m1: CanvasModel, m2: CanvasModel|
        #![trigger pane_drawn(caps, before, m1, 0, 0, min_sat(dv, cw, 0), min_sat(th, ch, 0), "Pane A"@,
            BorderStyle::Single, Color::Basic(BasicColor::Cyan, true)), pane_drawn(caps, m1, m2, dv, 0,
            min_sat(cw - dv, cw, dv), min_sat(th, ch, 0), "Pane B"@, BorderStyle::Single,
            Color::Basic(BasicColor::Green, true))]
        pane_drawn(caps, before, m1, 0, 0, min_sat(dv, cw, 0), min_sat(th, ch, 0), "Pane A"@, BorderStyle::Single,
            Color::Basic(BasicColor::Cyan, true))
        && pane_drawn(caps, m1, m2, dv, 0, min_sat(cw - dv, cw, dv), min_sat(th, ch, 0), "Pane B"@,
            BorderStyle::Single, Color::Basic(BasicColor::Green, true))
        && pane_drawn(caps, m2, after, 0, th, min_sat(cw, cw, 0), min_sat(h - th, ch, th), "Pane C"@,
            BorderStyle::Single, Color::Basic(BasicColor::Magenta, true))
}

/// The four-pane layout drawn over `before` (a region at the origin, `cw ×
/// ch`, of which the top `h` rows are the layout), divided at column `dc`
/// and row `dr`: the four panes in reading order, then the dividers in `fg`,
/// their crossing, and the resize hint on the crossing.
pub open spec fn four_drawn(caps: &TermCaps, before: CanvasModel, after: CanvasModel, cw: int, ch: int, h: int,
    dc: int, dr: int, resize_mode: bool) -> bool {
    let fg = divider_fg(resize_mode);
    exists|m1: CanvasModel, m2: CanvasModel, m3: CanvasModel, m4: CanvasModel|
        #![trigger pane_drawn(caps, before, m1, 0, 0, min_sat(dc, cw, 0), min_sat(dr, ch, 0), "Top-Left"@,
            BorderStyle::Rounded, Color::Basic(BasicColor::Cyan, true)),
            pane_drawn(caps, m1, m2, dc + 1, 0, min_sat(cw - (dc + 1), cw, dc + 1), min_sat(dr, ch, 0), "Top-Right"@,
            BorderStyle::Rounded, Color::Basic(BasicColor::Green, true)),
            pane_drawn(caps, m2, m3, 0, dr + 1, min_sat(dc, cw, 0), min_sat(h - (dr + 1), ch, dr + 1), "Bottom-Left"@,
            BorderStyle::Rounded, Color::Basic(BasicColor::Magenta, true)),
            pane_drawn(caps, m3, m4, dc + 1, dr + 1, min_sat(cw - (dc + 1), cw, dc + 1), min_sat(h - (dr + 1), ch,
            dr + 1), "Bottom-Right"@, BorderStyle::Rounded, Color::Basic(BasicColor::Yellow, true))]
        pane_drawn(caps, before, m1, 0, 0, min_sat(dc, cw, 0), min_sat(dr, ch, 0), "Top-Left"@,
            BorderStyle::Rounded, Color::Basic(BasicColor::Cyan, true))
        && pane_drawn(caps, m1, m2, dc + 1, 0, min_sat(cw - (dc + 1), cw, dc + 1), min_sat(dr, ch, 0), "Top-Right"@,
            BorderStyle::Rounded, Color::Basic(BasicColor::Green, true))
        && pane_drawn(caps, m2, m3, 0, dr + 1, min_sat(dc, cw, 0), min_sat(h - (dr + 1), ch, dr + 1), "Bottom-Left"@,
            BorderStyle::Rounded, Color::Basic(BasicColor::Magenta, true))
        && pane_drawn(caps, m3, m4, dc + 1, dr + 1, min_sat(cw - (dc + 1), cw, dc + 1), min_sat(h - (dr + 1), ch,
            dr + 1), "Bottom-Right"@, BorderStyle::Rounded, Color::Basic(BasicColor::Yellow, true))
        && after == hint_drawn(region_set(fill_h_spec(fill_v_spec(m4, 0, 0, cw, ch, dc, 0, h,
            line_cell('│', fg, Color::Default)), 0, 0, cw, ch, 0, dr, cw, line_cell('─', fg, Color::Default)),
            0, 0, cw, ch, dc, dr, line_cell('┼', fg, Color::Default)), 0, 0, cw, ch, resize_mode, dc, dr)
}

/// A pane of the demonstration: a titled panel.
fn make_pane(label: &str, border: BorderStyle, fg: Color) -> (p: Panel)
    ensures
        p.title matches Some(t) && t@ == " "@ + label@ + " "@,
        p.title_align == Align::Center,
        p.border_style == border,
        p.border_fg == fg,
        is_pane(p, label@, border, fg),
{
    proof { reveal_strlit(" "); }
    let title = concat_str(concat_str(" ", label).as_str(), " ");
    let p = Panel::new().title(title.as_str()).title_align(Align::Center).border_style(border).border_fg(fg);
    assert(p.title matches Some(t) && t@ == seq![' '] + label@ + seq![' ']);
    assert(p.title_style == StyleFlags::bold_spec());
    assert(p.child is None);
    p
}

/// Draws `pane` in the part of `canvas` at local `(col, row)`, `width ×
/// height` cells (clamped to the canvas).
fn render_pane(canvas: &mut SubCanvas<'_>, caps: &TermCaps, pane: &Panel, col: u16, row: u16, width: u16, height: u16)
    requires
        old(canvas).wf(),
        old(canvas).width + 2 <= u16::MAX,
        col <= old(canvas).width,
        row <= old(canvas).height,
        old(canvas).origin_col + col <= u16::MAX,
        old(canvas).origin_row + row <= u16::MAX,
    ensures
        final(canvas).same_frame(old(canvas)),
        final(canvas).wf(),
        unchanged_outside(old(canvas).parent@, final(canvas).parent@, old(canvas).origin_col + col,
            old(canvas).origin_row + row, width as int, height as int),
        pane.drawn(caps, old(canvas).parent@, final(canvas).parent@, old(canvas).origin_col + col,
            old(canvas).origin_row + row, min_sat(width as int, old(canvas).width as int, col as int),
            min_sat(height as int, old(canvas).height as int, row as int)),
        *final(final(canvas).parent) == *final(old(canvas).parent),
{
    let ghost oc = canvas.origin_col as int;
    let ghost or = canvas.origin_row as int;
    let ghost before = canvas.parent@;
    let mut sub = canvas.sub(col, row, width, height);
    pane.render(&mut sub, caps);
    proof {
        lemma_unchanged_outside_widen(before, sub.parent@, oc + col, or + row, sub.width as int, sub.height as int,
            oc + col, or + row, width as int, height as int);
    }
}

/// The divider color: bright yellow while resizing.
fn divider_color(resize_mode: bool) -> (c: Color)
    ensures
        c == (if resize_mode { Color::Basic(BasicColor::Yellow, true) } else { Color::Default }),
{
    if resize_mode {
        Color::Basic(BasicColor::Yellow, true)
    } else {
        Color::Default
    }
}

/// The status bar of the layout demonstration.
pub open spec fn layout_status(resize_mode: bool) -> Seq<char> {
    if resize_mode {
        " RESIZE MODE: arrow keys move divider   r / Esc: exit resize   2/3/4: change layout "@
    } else {
        " 2: 2-pane   3: 3-pane   4: 4-pane   r: resize mode   s: save   Esc: back "@
    }
}

/// The layout demonstration drawn over `before`: the status bar on the last
/// row, then the panes of `mode` above it, ending in `after`.
pub open spec fn layout_demo_drawn(caps: &TermCaps, before: CanvasModel, after: CanvasModel, mode: LayoutMode,
    resize_mode: bool, desired_col: int, desired_row: int) -> bool {
    let w = before.width;
    let h = before.height;
    let lh = if h < 1 { 0 } else { h - 1 };
    let ms = print_spec(before, 0, 0, w, h, 0, lh, layout_status(resize_mode), Color::Basic(BasicColor::Black, false),
        Color::Basic(BasicColor::Cyan, false), StyleFlags { bits: 0 });
    match mode {
        LayoutMode::Two => two_drawn(caps, ms, after, w, h, lh, clamp_spec(desired_col, 4, w - 4), resize_mode),
        LayoutMode::Three => three_drawn(caps, ms, after, w, h, lh, clamp_spec(desired_col, 4, w - 4),
            clamp_spec(desired_row, 3, lh - 3)),
        LayoutMode::Four => four_drawn(caps, ms, after, w, h, lh, clamp_spec(desired_col, 4, w - 4),
            clamp_spec(desired_row, 3, lh - 3), resize_mode),
    }
}

/// The layout demonstration screen once the divider positions are known:
/// `desired_col` and `desired_row` are the column and row where the split
/// ratios put the dividers (the fractions of the width and of the height
/// above the status bar); each is kept a few cells from the edges.
pub fn render_layout_demo(
    canvas: &mut Canvas, caps: &TermCaps, mode: LayoutMode, resize_mode: bool, desired_col: u16, desired_row: u16,
)
    requires
        old(canvas)@.wf(),
        old(canvas)@.width + 2 <= u16::MAX,
        old(canvas)@.width >= 8,
        mode != LayoutMode::Two ==> old(canvas)@.height >= 7,
    ensures
        redrawn(old(canvas)@, final(canvas)@),
        old(canvas)@.height >= 2 ==> row_kept(print_spec(old(canvas)@, 0, 0, old(canvas)@.width,
            old(canvas)@.height, 0, old(canvas)@.height - 1, layout_status(resize_mode),
            Color::Basic(BasicColor::Black, false), Color::Basic(BasicColor::Cyan, false), StyleFlags { bits: 0 }),
            final(canvas)@, old(canvas)@.height - 1),
        layout_demo_drawn(caps, old(canvas)@, final(canvas)@, mode, resize_mode, desired_col as int,
            desired_row as int),
{
    let w = canvas.width();
    let h = canvas.height();
    let mut root = canvas.sub(0, 0, w, h);

    // Status bar at bottom
    let status = if resize_mode {
        " RESIZE MODE: arrow keys move divider   r / Esc: exit resize   2/3/4: change layout "
    } else {
        " 2: 2-pane   3: 3-pane   4: 4-pane   r: resize mode   s: save   Esc: back "
    };
    let status_row = h.saturating_sub(1);
    root.print(0, status_row, status, Color::Basic(BasicColor::Black, false), Color::Basic(BasicColor::Cyan, false),
        StyleFlags::empty());
    let ghost ms = root.parent@;
    assert(status@ == layout_status(resize_mode));

    let layout_h = h.saturating_sub(1);
    match mode {
        LayoutMode::Two => render_two(&mut root, caps, w, layout_h, desired_col, resize_mode),
        LayoutMode::Three => render_three(&mut root, caps, w, layout_h, desired_col, desired_row),
        LayoutMode::Four => render_four(&mut root, caps, w, layout_h, desired_col, desired_row, resize_mode),
    }
    proof {
        if h >= 2 {
            let mf = root.parent@;
            assert forall|c: int| 0 <= c < ms.width implies #[trigger] mf.at(c, h - 1) == ms.at(c, h - 1) by {
                assert(ms.in_bounds(c, h - 1));
            }
        }
    }
}

fn render_two(canvas: &mut SubCanvas<'_>, caps: &TermCaps, w: u16, h: u16, desired_col: u16, resize_mode: bool)
    requires
        old(canvas).wf(),
        old(canvas).origin_col == 0,
        old(canvas).origin_row == 0,
        old(canvas).width == w,
        w + 2 <= u16::MAX,
        w >= 8,
        h <= old(canvas).height,
    ensures
        final(canvas).same_frame(old(canvas)),
        final(canvas).wf(),
        unchanged_outside(old(canvas).parent@, final(canvas).parent@, 0, 0, w as int, old(canvas).height as int),
        h > 0 ==> unchanged_outside(old(canvas).parent@, final(canvas).parent@, 0, 0, w as int, h as int),
        two_drawn(caps, old(canvas).parent@, final(canvas).parent@, w as int, old(canvas).height as int, h as int,
            clamp_spec(desired_col as int, 4, w - 4), resize_mode),
        *final(final(canvas).parent) == *final(old(canvas).parent),
{
    let ghost m0 = canvas.parent@;
    let ghost h0 = canvas.height as int;
    proof {
        lemma_unchanged_outside_refl(m0, 0, 0, w as int, h as int);
        lemma_unchanged_outside_refl(m0, 0, 0, w as int, h0);
    }
    let div = clamp_u16(desired_col, 4, w - 4);
    let div_color = divider_color(resize_mode);

    let left = make_pane("Pane A", BorderStyle::Single, Color::Basic(BasicColor::Cyan, true));
    let right = make_pane("Pane B", BorderStyle::Single, Color::Basic(BasicColor::Green, true));

    let ghost m = canvas.parent@;
    render_pane(canvas, caps, &left, 0, 0, div, h);
    let ghost m1 = canvas.parent@;
    proof {
        lemma_unchanged_outside_trans(m0, m, canvas.parent@, 0, 0, w as int, h as int);
        lemma_unchanged_outside_trans(m0, m, canvas.parent@, 0, 0, w as int, h0);
    }
    let ghost m = canvas.parent@;
    proof {
        lemma_fill_v_column(m, 0, 0, w as int, canvas.height as int, div as int, 0, 0, h as int,
            line_cell('│', div_color, Color::Default));
    }
    canvas.fill_v(div, 0, h, '│', div_color, Color::Default);
    proof {
        lemma_unchanged_outside_widen(m, canvas.parent@, div as int, 0, 2, h as int, 0, 0, w as int, h as int);
        lemma_unchanged_outside_trans(m0, m, canvas.parent@, 0, 0, w as int, h as int);
        lemma_unchanged_outside_trans(m0, m, canvas.parent@, 0, 0, w as int, h0);
    }
    let ghost m = canvas.parent@;
    let ghost m2 = canvas.parent@;
    render_pane(canvas, caps, &right, div + 1, 0, w - (div + 1), h);
    let ghost m3 = canvas.parent@;
    proof {
        lemma_unchanged_outside_trans(m0, m, canvas.parent@, 0, 0, w as int, h as int);
        lemma_unchanged_outside_trans(m0, m, canvas.parent@, 0, 0, w as int, h0);
    }
    let ghost m = canvas.parent@;
    render_resize_hint(canvas, resize_mode, div, h / 2);
    proof {
        if h > 0 {
            lemma_unchanged_outside_widen(m, canvas.parent@, div as int, (h / 2) as int, 2, 1, 0, 0, w as int, h as int);
            lemma_unchanged_outside_trans(m0, m, canvas.parent@, 0, 0, w as int, h as int);
        }
        lemma_unchanged_outside_trans(m0, m, canvas.parent@, 0, 0, w as int, h0);
    }
    proof {
        assert(is_pane(left, "Pane A"@, BorderStyle::Single, Color::Basic(BasicColor::Cyan, true)));
        assert(is_pane(right, "Pane B"@, BorderStyle::Single, Color::Basic(BasicColor::Green, true)));
        assert(pane_drawn(caps, m0, m1, 0, 0, min_sat(div as int, w as int, 0), min_sat(h as int, h0, 0), "Pane A"@,
            BorderStyle::Single, Color::Basic(BasicColor::Cyan, true)));
        assert(pane_drawn(caps, m2, m3, div + 1, 0, min_sat(w - (div + 1), w as int, div + 1), min_sat(h as int, h0, 0),
            "Pane B"@, BorderStyle::Single, Color::Basic(BasicColor::Green, true)));
    }
}

fn render_three(canvas: &mut SubCanvas<'_>, caps: &TermCaps, w: u16, h: u16, desired_col: u16, desired_row: u16)
    requires
        old(canvas).wf(),
        old(canvas).origin_col == 0,
        old(canvas).origin_row == 0,
        old(canvas).width == w,
        w + 2 <= u16::MAX,
        w >= 8,
        h >= 6,
        h <= old(canvas).height,
    ensures
        final(canvas).same_frame(old(canvas)),
        final(canvas).wf(),
        unchanged_outside(old(canvas).parent@, final(canvas).parent@, 0, 0, w as int, h as int),
        three_drawn(caps, old(canvas).parent@, final(canvas).parent@, w as int, old(canvas).height as int, h as int,
            clamp_spec(desired_col as int, 4, w - 4), clamp_spec(desired_row as int, 3, h - 3)),
        *final(final(canvas).parent) == *final(old(canvas).parent),
{
    let ghost m0 = canvas.parent@;
    proof { lemma_unchanged_outside_refl(m0, 0, 0, w as int, h as int); }
    let top_h = clamp_u16(desired_row, 3, h - 3);
    let div = clamp_u16(desired_col, 4, w - 4);
    let bot_h = h - top_h;

    let a = make_pane("Pane A", BorderStyle::Single, Color::Basic(BasicColor::Cyan, true));
    let b = make_pane("Pane B", BorderStyle::Single, Color::Basic(BasicColor::Green, true));
    let c = make_pane("Pane C", BorderStyle::Single, Color::Basic(BasicColor::Magenta, true));

    let ghost m = canvas.parent@;
    render_pane(canvas, caps, &a, 0, 0, div, top_h);
    let ghost m1 = canvas.parent@;
    proof { lemma_unchanged_outside_trans(m0, m, canvas.parent@, 0, 0, w as int, h as int); }
    let ghost m = canvas.parent@;
    render_pane(canvas, caps, &b, div, 0, w - div, top_h);
    let ghost m2 = canvas.parent@;
    proof { lemma_unchanged_outside_trans(m0, m, canvas.parent@, 0, 0, w as int, h as int); }
    let ghost m = canvas.parent@;
    render_pane(canvas, caps, &c, 0, top_h, w, bot_h);
    proof { lemma_unchanged_outside_trans(m0, m, canvas.parent@, 0, 0, w as int, h as int); }
    proof {
        let ch = m0.height;
        assert(is_pane(a, "Pane A"@, BorderStyle::Single, Color::Basic(BasicColor::Cyan, true)));
        assert(is_pane(b, "Pane B"@, BorderStyle::Single, Color::Basic(BasicColor::Green, true)));
        assert(is_pane(c, "Pane C"@, BorderStyle::Single, Color::Basic(BasicColor::Magenta, true)));
        assert(pane_drawn(caps, m0, m1, 0, 0, min_sat(div as int, w as int, 0), min_sat(top_h as int, ch, 0), "Pane A"@,
            BorderStyle::Single, Color::Basic(BasicColor::Cyan, true)));
        assert(pane_drawn(caps, m1, m2, div as int, 0, min_sat(w - div, w as int, div as int), min_sat(top_h as int, ch, 0),
            "Pane B"@, BorderStyle::Single, Color::Basic(BasicColor::Green, true)));
        assert(pane_drawn(caps, m2, canvas.parent@, 0, top_h as int, min_sat(w as int, w as int, 0),
            min_sat(h - top_h, ch, top_h as int), "Pane C"@, BorderStyle::Single, Color::Basic(BasicColor::Magenta, true)));
    }
}

#[verifier::rlimit(40)]
fn render_four(
    canvas: &mut SubCanvas<'_>, caps: &TermCaps, w: u16, h: u16, desired_col: u16, desired_row: u16, resize_mode: bool,
)
    requires
        old(canvas).wf(),
        old(canvas).origin_col == 0,
        old(canvas).origin_row == 0,
        old(canvas).width == w,
        w + 2 <= u16::MAX,
        w >= 8,
        h >= 6,
        h <= old(canvas).height,
    ensures
        final(canvas).same_frame(old(canvas)),
        final(canvas).wf(),
        unchanged_outside(old(canvas).parent@, final(canvas).parent@, 0, 0, w as int, h as int),
        four_drawn(caps, old(canvas).parent@, final(canvas).parent@, w as int, old(canvas).height as int, h as int,
            clamp_spec(desired_col as int, 4, w - 4), clamp_spec(desired_row as int, 3, h - 3), resize_mode),
        *final(final(canvas).parent) == *final(old(canvas).parent),
{
    let ghost m0 = canvas.parent@;
    proof { lemma_unchanged_outside_refl(m0, 0, 0, w as int, h as int); }
    let div_col = clamp_u16(desired_col, 4, w - 4);
    let div_row = clamp_u16(desired_row, 3, h - 3);
    let div_color = divider_color(resize_mode);

    let right_w = w - (div_col + 1);
    let bottom_h = h - (div_row + 1);

    let p1 = make_pane("Top-Left", BorderStyle::Rounded, Color::Basic(BasicColor::Cyan, true));
    let p2 = make_pane("Top-Right", BorderStyle::Rounded, Color::Basic(BasicColor::Green, true));
    let p3 = make_pane("Bottom-Left", BorderStyle::Rounded, Color::Basic(BasicColor::Magenta, true));
    let p4 = make_pane("Bottom-Right", BorderStyle::Rounded, Color::Basic(BasicColor::Yellow, true));

    let ghost m = canvas.parent@;
    render_pane(canvas, caps, &p1, 0, 0, div_col, div_row);
    let ghost q1 = canvas.parent@;
    proof { lemma_unchanged_outside_trans(m0, m, canvas.parent@, 0, 0, w as int, h as int); }
    let ghost m = canvas.parent@;
    render_pane(canvas, caps, &p2, div_col + 1, 0, right_w, div_row);
    let ghost q2 = canvas.parent@;
    proof { lemma_unchanged_outside_trans(m0, m, canvas.parent@, 0, 0, w as int, h as int); }
    let ghost m = canvas.parent@;
    render_pane(canvas, caps, &p3, 0, div_row + 1, div_col, bottom_h);
    let ghost q3 = canvas.parent@;
    proof { lemma_unchanged_outside_trans(m0, m, canvas.parent@, 0, 0, w as int, h as int); }
    let ghost m = canvas.parent@;
    render_pane(canvas, caps, &p4, div_col + 1, div_row + 1, right_w, bottom_h);
    let ghost q4 = canvas.parent@;
    proof { lemma_unchanged_outside_trans(m0, m, canvas.parent@, 0, 0, w as int, h as int); }

    let ghost m = canvas.parent@;
    proof {
        lemma_fill_v_column(m, 0, 0, w as int, canvas.height as int, div_col as int, 0, 0, h as int,
            line_cell('│', div_color, Color::Default));
    }
    canvas.fill_v(div_col, 0, h, '│', div_color, Color::Default);
    proof {
        lemma_unchanged_outside_widen(m, canvas.parent@, div_col as int, 0, 2, h as int, 0, 0, w as int, h as int);
        lemma_unchanged_outside_trans(m0, m, canvas.parent@, 0, 0, w as int, h as int);
    }
    let ghost m = canvas.parent@;
    proof {
        lemma_fill_h_content(m, 0, 0, w as int, canvas.height as int, 0, div_row as int, w as int,
            line_cell('─', div_color, Color::Default));
    }
    canvas.fill_h(0, div_row, w, '─', div_color, Color::Default);
    proof {
        lemma_row_change_region(m, canvas.parent@, div_row as int, 0, w as int);
        lemma_unchanged_outside_meet(m, canvas.parent@, 0, div_row as int, w + 1, 1, 0, 0, w as int,
            canvas.height as int, 0, div_row as int, w as int, 1);
        lemma_unchanged_outside_widen(m, canvas.parent@, 0, div_row as int, w as int, 1, 0, 0, w as int, h as int);
        lemma_unchanged_outside_trans(m0, m, canvas.parent@, 0, 0, w as int, h as int);
    }
    let ghost m = canvas.parent@;
    let cross = Cell { ch: '┼', fg: div_color, bg: Color::Default, style: StyleFlags::empty(),
        wide_continuation: false };
    proof {
        lemma_region_set_row(m, 0, 0, w as int, canvas.height as int, div_col as int, div_row as int, cross);
    }
    canvas.set(div_col, div_row, cross);
    proof {
        lemma_row_change_region(m, canvas.parent@, div_row as int, div_col as int, div_col + 1);
        lemma_unchanged_outside_widen(m, canvas.parent@, div_col as int, div_row as int, 2, 1, 0, 0, w as int, h as int);
        lemma_unchanged_outside_trans(m0, m, canvas.parent@, 0, 0, w as int, h as int);
    }

    let ghost m = canvas.parent@;
    render_resize_hint(canvas, resize_mode, div_col, div_row);
    proof {
        lemma_unchanged_outside_widen(m, canvas.parent@, div_col as int, div_row as int, 2, 1, 0, 0, w as int, h as int);
        lemma_unchanged_outside_trans(m0, m, canvas.parent@, 0, 0, w as int, h as int);
    }
    proof {
        let ch = m0.height;
        let dc = div_col as int;
        let dr = div_row as int;
        assert(is_pane(p1, "Top-Left"@, BorderStyle::Rounded, Color::Basic(BasicColor::Cyan, true)));
        assert(is_pane(p2, "Top-Right"@, BorderStyle::Rounded, Color::Basic(BasicColor::Green, true)));
        assert(is_pane(p3, "Bottom-Left"@, BorderStyle::Rounded, Color::Basic(BasicColor::Magenta, true)));
        assert(is_pane(p4, "Bottom-Right"@, BorderStyle::Rounded, Color::Basic(BasicColor::Yellow, true)));
        assert(pane_drawn(caps, m0, q1, 0, 0, min_sat(dc, w as int, 0), min_sat(dr, ch, 0), "Top-Left"@,
            BorderStyle::Rounded, Color::Basic(BasicColor::Cyan, true)));
        assert(pane_drawn(caps, q1, q2, dc + 1, 0, min_sat(w - (dc + 1), w as int, dc + 1), min_sat(dr, ch, 0),
            "Top-Right"@, BorderStyle::Rounded, Color::Basic(BasicColor::Green, true)));
        assert(pane_drawn(caps, q2, q3, 0, dr + 1, min_sat(dc, w as int, 0), min_sat(h - (dr + 1), ch, dr + 1),
            "Bottom-Left"@, BorderStyle::Rounded, Color::Basic(BasicColor::Magenta, true)));
        assert(pane_drawn(caps, q3, q4, dc + 1, dr + 1, min_sat(w - (dc + 1), w as int, dc + 1),
            min_sat(h - (dr + 1), ch, dr + 1), "Bottom-Right"@, BorderStyle::Rounded,
            Color::Basic(BasicColor::Yellow, true)));
    }
}

/// While resizing, a diamond marks where the dividers meet.
fn render_resize_hint(canvas: &mut SubCanvas<'_>, resize_mode: bool, col: u16, row: u16)
    requires
        old(canvas).wf(),
    ensures
        final(canvas).same_frame(old(canvas)),
        final(canvas).wf(),
        unchanged_outside(old(canvas).parent@, final(canvas).parent@, old(canvas).origin_col as int,
            old(canvas).origin_row as int, old(canvas).width as int, old(canvas).height as int),
        unchanged_outside(old(canvas).parent@, final(canvas).parent@, old(canvas).origin_col + col,
            old(canvas).origin_row + row, 2, 1),
        final(canvas).parent@ == hint_drawn(old(canvas).parent@, old(canvas).origin_col as int,
            old(canvas).origin_row as int, old(canvas).width as int, old(canvas).height as int, resize_mode,
            col as int, row as int),
        *final(final(canvas).parent) == *final(old(canvas).parent),
{
    let ghost m0 = canvas.parent@;
    let ghost oc = canvas.origin_col as int;
    let ghost or = canvas.origin_row as int;
    proof {
        lemma_unchanged_outside_refl(m0, oc, or, canvas.width as int, canvas.height as int);
        lemma_unchanged_outside_refl(m0, oc + col, or + row, 2, 1);
    }
    if resize_mode {
        let cell = Cell {
            ch: '◆',
            fg: Color::Basic(BasicColor::Yellow, true),
            bg: Color::Default,
            style: StyleFlags::bold(),
            wide_continuation: false,
        };
        proof {
            lemma_region_set_row(m0, oc, or, canvas.width as int, canvas.height as int, col as int, row as int, cell);
            lemma_row_change_region(m0, crate::canvas::canvas::region_set(m0, oc, or, canvas.width as int,
                canvas.height as int, col as int, row as int, cell), or + row, oc + col, oc + col + 1);
        }
        canvas.set(col, row, cell);
    }
}

} // verus!
