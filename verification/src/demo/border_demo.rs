use vstd::prelude::*;
use crate::border::style::BorderStyle;
use crate::canvas::canvas::{lemma_print_row, print_spec, row_kept, lemma_row_change_in_region, lemma_unchanged_outside_no_rows,
    lemma_unchanged_outside_refl, lemma_unchanged_outside_trans, lemma_unchanged_outside_widen, unchanged_outside, Canvas,
    CanvasModel};
use crate::color::types::{BasicColor, Color, StyleFlags};
use crate::demo::screens::{lemma_outer_frame_kept, lemma_panel_frames, outer_frame, redrawn, Action, ScreenId};
use crate::event::keys::Key;
use crate::term::caps::TermCaps;
use crate::text::{byte_len, concat_str, pad_right};
use crate::widget::panel::{Align, Panel};
use crate::widget::textblock::{lemma_print_rows_no_columns, TextBlock, WrapMode};
use crate::widget::traits::Widget;

verus! {

/// The border styles the demonstration cycles through, in order.
pub open spec fn all_styles() -> Seq<BorderStyle> {
    seq![BorderStyle::Ascii, BorderStyle::Single, BorderStyle::Double, BorderStyle::Rounded, BorderStyle::Heavy]
}

/// The cells on the edges of the `w × h` box at `(x, y)` are the same in
/// `a` and `b`.
pub open spec fn box_edges_kept(a: CanvasModel, b: CanvasModel, x: int, y: int, w: int, h: int) -> bool {
    forall|c: int, r: int| #![trigger b.at(c, r)]
        a.in_bounds(c, r) && ((x <= c < x + w && (r == y || r == y + h - 1))
            || (y <= r < y + h && (c == x || c == x + w - 1))) ==> b.at(c, r) == a.at(c, r)
}

/// The preview box of a `w × h` canvas: its column, width and height (it
/// starts on row 3), at most 60 × 20 and centred in the frame.
pub open spec fn preview_box(w: int, h: int) -> (int, int, int) {
    let iw = w - 2;
    let ih = h - 2;
    let bw = if iw < 60 { iw } else { 60 };
    let rest = if ih < 3 { 0 } else { ih - 3 };
    let bh = if rest < 20 { rest } else { 20 };
    (1 + (iw - bw) / 2, bw, bh)
}

/// On a `w × h` canvas showing style `sel.0` and theme `sel.1`, the
/// preview box was drawn by a panel in that style with that theme's border
/// color, and nothing drawn after it touched its edges.
pub open spec fn preview_shown(caps: &TermCaps, after: CanvasModel, w: int, h: int, sel: (usize, usize)) -> bool {
    let (bx, bw, bh) = preview_box(w, h);
    exists|p: Panel, ma: CanvasModel, mb: CanvasModel| #[trigger] p.drawn(caps, ma, mb, bx, 3, bw, bh)
        && p.border_style == all_styles()[sel.0 as int] && p.border_fg == theme_spec(sel.1 as int).1
        && p.border_bg == Color::Default && box_edges_kept(mb, after, bx, 3, bw, bh)
}

/// The name a border style shows.
pub open spec fn style_name(s: BorderStyle) -> Seq<char> {
    match s {
        BorderStyle::Ascii => "ASCII"@,
        BorderStyle::Single => "Single"@,
        BorderStyle::Double => "Double"@,
        BorderStyle::Rounded => "Rounded"@,
        BorderStyle::Heavy => "Heavy"@,
    }
}

/// `s` padded with spaces on the right to at least `width` characters.
pub open spec fn padded(s: Seq<char>, width: nat) -> Seq<char> {
    s + Seq::new(if width > s.len() { (width - s.len()) as nat } else { 0 }, |i: int| ' ')
}

/// The status line for the selected style and theme: their names, each
/// padded to 8 columns, then the key help.
pub open spec fn status_line(sel: (usize, usize)) -> Seq<char> {
    " Style: "@ + padded(style_name(all_styles()[sel.0 as int]), 8) + "  Theme: "@
        + padded(theme_spec(sel.1 as int).0, 8) + "  | ← / → change style   ↑ / ↓ change theme   Esc: back "@
}

/// Row 1 of `after` shows the status line for `sel`, printed dim white from
/// the second column of a `w × h` canvas and clipped one column from the
/// right edge.
pub open spec fn status_shown(after: CanvasModel, w: int, h: int, sel: (usize, usize)) -> bool {
    exists|m: CanvasModel| m.wf() && m.width == w && m.height == h && #[trigger] row_kept(print_spec(m, 1, 1, w - 2,
        h - 2, 0, 0, status_line(sel), Color::Basic(BasicColor::White, false), Color::Default, StyleFlags { bits: 2 }),
        after, 1)
}

/// The text shown inside the preview box.
pub open spec fn preview_sample() -> Seq<char> {
    "This is a sample text block rendered inside the panel.\n\nYou can compose any widget as the child of a Panel.\n\nArrow keys cycle through styles and color themes.\n\nThe border gracefully degrades to ASCII (+, -, |) on\nterminals that don't support Unicode box-drawing."@
}

/// The cells of the `w × h` area at `(x, y)` are the same in `a` and `b`.
pub open spec fn area_kept(a: CanvasModel, b: CanvasModel, x: int, y: int, w: int, h: int) -> bool {
    forall|c: int, r: int| #![trigger b.at(c, r)]
        a.in_bounds(c, r) && x <= c < x + w && y <= r < y + h ==> b.at(c, r) == a.at(c, r)
}

/// The area of a `w × h` canvas that holds the sample text: its column,
/// width and height (it starts on row 4), two columns in from each side of
/// the preview box and one row in from its top and bottom.
pub open spec fn sample_area(w: int, h: int) -> (int, int, int) {
    (preview_box(w, h).0 + 2, if preview_box(w, h).1 < 4 { 0 } else { preview_box(w, h).1 - 4 },
        if preview_box(w, h).2 < 2 { 0 } else { preview_box(w, h).2 - 2 })
}

/// On a `w × h` canvas, the interior of the preview box, two columns in
/// from each side and one row in from the top and bottom, was drawn by a
/// plain word-wrapped text block holding the sample text, and nothing drawn
/// after it touched that area.
pub open spec fn sample_shown(caps: &TermCaps, after: CanvasModel, w: int, h: int) -> bool {
    exists|t: TextBlock, ma: CanvasModel, mb: CanvasModel| #[trigger] t.drawn(caps, ma, mb, sample_area(w, h).0, 4,
        sample_area(w, h).1, sample_area(w, h).2)
        && t.text@ == preview_sample() && t.fg == Color::Default && t.bg == Color::Default && t.style@ == 0
        && t.wrap == WrapMode::Word && t.scroll_row == 0
        && area_kept(mb, after, sample_area(w, h).0, 4, sample_area(w, h).1, sample_area(w, h).2)
}

/// A text block with the sample text drawn over the sample area, whose
/// cells nothing touched afterwards, shows the sample.
proof fn lemma_sample_shown(caps: &TermCaps, t: TextBlock, ma: CanvasModel, mb: CanvasModel, after: CanvasModel,
    w: int, h: int)
    requires
        t.drawn(caps, ma, mb, sample_area(w, h).0, 4, sample_area(w, h).1, sample_area(w, h).2),
        t.text@ == preview_sample(),
        t.fg == Color::Default,
        t.bg == Color::Default,
        t.style@ == 0,
        t.wrap == WrapMode::Word,
        t.scroll_row == 0,
        area_kept(mb, after, sample_area(w, h).0, 4, sample_area(w, h).1, sample_area(w, h).2),
    ensures
        sample_shown(caps, after, w, h),
{
}

/// Label `i` of the style selector: the style's name between spaces.
pub open spec fn label_text(i: int) -> Seq<char> {
    " "@ + style_name(all_styles()[i]) + " "@
}

/// The column where label `i` of the style selector starts: two columns
/// in, each label followed by one blank column, counting a label by the
/// bytes of its UTF-8 encoding, in wrapping `u16` arithmetic.
pub open spec fn label_col(i: int) -> u16
    decreases i,
{
    if i <= 0 {
        2
    } else {
        vstd::wrapping::u16_specs::wrapping_add(vstd::wrapping::u16_specs::wrapping_add(label_col(i - 1),
            (vstd::utf8::encode_utf8(label_text(i - 1)).len() as usize) as u16), 1)
    }
}

/// The first `n` labels of the style selector printed on local row `row`
/// of the frame's interior over `m` (a `w × h` canvas), the selected one
/// `sel` in reverse video on black, the others plain.
pub open spec fn selector_printed(m: CanvasModel, w: int, h: int, sel: int, row: int, n: int) -> CanvasModel
    decreases n,
{
    if n <= 0 {
        m
    } else {
        print_spec(selector_printed(m, w, h, sel, row, n - 1), 1, 1, w - 2, h - 2, label_col(n - 1) as int, row,
            label_text(n - 1), if n - 1 == sel { Color::Basic(BasicColor::Black, false) } else { Color::Default },
            Color::Default, if n - 1 == sel { StyleFlags { bits: 32 } } else { StyleFlags { bits: 0 } })
    }
}

/// The local row of the style selector on a `w × h` canvas: one row under
/// the preview box.
pub open spec fn selector_row(w: int, h: int) -> int {
    2 + preview_box(w, h).2 + 1
}

/// The row of the style selector in `after` reads as printing every label
/// over some canvas of the same size, with the selected style `sel`
/// highlighted.
pub open spec fn selector_shown(after: CanvasModel, w: int, h: int, sel: usize) -> bool {
    exists|m: CanvasModel| m.wf() && m.width == w && m.height == h && #[trigger] row_kept(selector_printed(m, w, h,
        sel as int, selector_row(w, h), 5), after, 1 + selector_row(w, h))
}

/// Theme `i`: its name and its border color.
pub open spec fn theme_spec(i: int) -> (Seq<char>, Color) {
    if i == 0 {
        ("Default"@, Color::Default)
    } else if i == 1 {
        ("Cyan"@, Color::Basic(BasicColor::Cyan, true))
    } else if i == 2 {
        ("Green"@, Color::Basic(BasicColor::Green, true))
    } else if i == 3 {
        ("Yellow"@, Color::Basic(BasicColor::Yellow, true))
    } else if i == 4 {
        ("Magenta"@, Color::Basic(BasicColor::Magenta, true))
    } else if i == 5 {
        ("Red"@, Color::Basic(BasicColor::Red, true))
    } else {
        ("White"@, Color::Basic(BasicColor::White, true))
    }
}

/// Theme `i`: its name and its border color.
fn theme(i: usize) -> (t: (&'static str, Color))
    requires
        i < 7,
    ensures
        (t.0@, t.1) == theme_spec(i as int),
{
    if i == 0 {
        ("Default", Color::Default)
    } else if i == 1 {
        ("Cyan", Color::Basic(BasicColor::Cyan, true))
    } else if i == 2 {
        ("Green", Color::Basic(BasicColor::Green, true))
    } else if i == 3 {
        ("Yellow", Color::Basic(BasicColor::Yellow, true))
    } else if i == 4 {
        ("Magenta", Color::Basic(BasicColor::Magenta, true))
    } else if i == 5 {
        ("Red", Color::Basic(BasicColor::Red, true))
    } else {
        ("White", Color::Basic(BasicColor::White, true))
    }
}

/// A preview of every border style in every color theme.
pub struct BorderDemo {
    style_idx: usize,
    theme_idx: usize,
}

impl View for BorderDemo {
    type V = (usize, usize);

    /// The selected style and theme.
    closed spec fn view(&self) -> (usize, usize) {
        (self.style_idx, self.theme_idx)
    }
}

impl BorderDemo {
    /// The selections name a style and a theme.
    #[verifier::type_invariant]
    spec fn selection_in_range(self) -> bool {
        self.style_idx < 5 && self.theme_idx < 7
    }

    pub fn new() -> (d: Self)
        ensures
            d@ == (0usize, 0usize),
    {
        BorderDemo { style_idx: 0, theme_idx: 0 }
    }

    /// A frame with a status line, the preview box in the selected style and
    /// theme holding a sample text, and the row of style names with the
    /// selected one highlighted.
    #[verifier::rlimit(100)]
    pub fn render(&self, canvas: &mut Canvas, caps: &TermCaps)
        requires
            old(canvas)@.wf(),
            old(canvas)@.width + 2 <= u16::MAX,
        ensures
            redrawn(old(canvas)@, final(canvas)@),
            outer_frame(final(canvas)@, BorderStyle::Single, caps.unicode, Color::Basic(BasicColor::White, false)),
            old(canvas)@.width >= 2 && old(canvas)@.height >= 2 ==> preview_shown(caps, final(canvas)@,
                old(canvas)@.width, old(canvas)@.height, self@),
            old(canvas)@.width >= 2 && old(canvas)@.height >= 2 ==> sample_shown(caps, final(canvas)@,
                old(canvas)@.width, old(canvas)@.height),
            old(canvas)@.width >= 2 && old(canvas)@.height >= 2 && selector_row(old(canvas)@.width as int,
                old(canvas)@.height as int) < old(canvas)@.height - 2 ==> selector_shown(final(canvas)@,
                old(canvas)@.width as int, old(canvas)@.height as int, self@.0),
            old(canvas)@.width >= 2 && old(canvas)@.height >= 3 ==> status_shown(final(canvas)@, old(canvas)@.width,
                old(canvas)@.height, self@),
    {
        proof { use_type_invariant(self); }
        let w = canvas.width();
        let h = canvas.height();
        let mut root = canvas.sub(0, 0, w, h);

        let styles = BorderStyle::all();
        let style = styles[self.style_idx % styles.len()];
        let (theme_name, border_fg) = theme(self.theme_idx % 7);

        // ── Outer wrapper ─────────────────────────────────────────────────────
        let outer = Panel::new()
            .title(" Border Style Preview ")
            .title_align(Align::Center)
            .border_style(BorderStyle::Single)
            .border_fg(Color::Basic(BasicColor::White, false));
        outer.render(&mut root, caps);
        let ghost m1 = root.parent@;
        proof { lemma_panel_frames(outer, *caps, m1); }

        let inner_w = w.saturating_sub(2);
        let inner_h = h.saturating_sub(2);
        let mut inner = root.sub(1, 1, inner_w, inner_h);
        proof { lemma_unchanged_outside_refl(m1, 1, 1, inner.width as int, inner.height as int); }

        // Status line at top
        let sname = style.name();
        let a = concat_str(" Style: ", pad_right(sname, 8).as_str());
        let b = concat_str(a.as_str(), "  Theme: ");
        let c = concat_str(b.as_str(), pad_right(theme_name, 8).as_str());
        let status = concat_str(c.as_str(), "  | ← / → change style   ↑ / ↓ change theme   Esc: back ");
        let ghost m_pre = inner.parent@;
        let dim = StyleFlags::dim();
        assert(dim == StyleFlags { bits: 2 });
        inner.print(0, 0, status.as_str(), Color::Basic(BasicColor::White, false), Color::Default, dim);
        let ghost m_status = inner.parent@;
        proof {
            lemma_unchanged_outside_refl(m_status, 1, 3, inner.width as int, inner.height as int - 2);
        }

        // ── Preview box (centered) ────────────────────────────────────────────
        let box_w = if inner_w < 60 { inner_w } else { 60 };
        let rest_h = inner_h.saturating_sub(3);
        let box_h = if rest_h < 20 { rest_h } else { 20 };
        let box_x = (inner_w - box_w) / 2;
        let box_y: u16 = 2;

        let t1 = concat_str(" ", style.name());
        let t2 = concat_str(t1.as_str(), " style — ");
        let t3 = concat_str(t2.as_str(), theme_name);
        let title = concat_str(t3.as_str(), " theme ");
        let preview = Panel::new()
            .title(title.as_str())
            .title_align(Align::Center)
            .border_style(style)
            .border_fg(border_fg);
        let ghost m2 = inner.parent@;
        let mut preview_area = inner.sub(box_x, box_y, box_w, box_h);
        preview.render(&mut preview_area, caps);
        let ghost mp = preview_area.parent@;
        let ghost pbw = preview_area.width as int;
        let ghost pbh = preview_area.height as int;
        proof {
            if preview_area.height == 0 {
                lemma_unchanged_outside_no_rows(m2, preview_area.parent@, 1 + box_x, 1 + box_y,
                    preview_area.width as int, 1, 1, inner.width as int, inner.height as int);
            } else if preview_area.width < 2 {
                lemma_unchanged_outside_refl(m2, 1, 1, inner.width as int, inner.height as int);
            } else {
                lemma_unchanged_outside_widen(m2, preview_area.parent@, 1 + box_x, 1 + box_y,
                    preview_area.width as int, preview_area.height as int, 1, 1, inner.width as int, inner.height as int);
            }
            lemma_unchanged_outside_trans(m1, m2, preview_area.parent@, 1, 1, inner.width as int, inner.height as int);
            // Below the status line.
            if pbh == 0 {
                lemma_unchanged_outside_no_rows(m2, mp, 1 + box_x, 1 + box_y,
                    pbw, 1, 3, inner.width as int, inner.height as int - 2);
            } else if pbw < 2 {
                lemma_unchanged_outside_refl(m2, 1, 3, inner.width as int, inner.height as int - 2);
            } else {
                lemma_unchanged_outside_widen(m2, mp, 1 + box_x, 1 + box_y,
                    pbw, pbh, 1, 3, inner.width as int,
                    inner.height as int - 2);
            }
            lemma_unchanged_outside_trans(m_status, m2, mp, 1, 3, inner.width as int,
                inner.height as int - 2);
        }

        // Sample content inside the preview box
        let sample_text = TextBlock::new(
            "This is a sample text block rendered inside the panel.\n\nYou can compose any widget as the child of a Panel.\n\nArrow keys cycle through styles and color themes.\n\nThe border gracefully degrades to ASCII (+, -, |) on\nterminals that don't support Unicode box-drawing.",
        );
        let ghost m3 = inner.parent@;
        let mut text_area = inner.sub(box_x + 2, box_y + 1, box_w.saturating_sub(4), box_h.saturating_sub(2));
        sample_text.render(&mut text_area, caps);
        let ghost mt = text_area.parent@;
        let ghost taw = text_area.width as int;
        let ghost tah = text_area.height as int;
        proof {
            assert(m3 == mp);
            assert forall|c: int, r: int| #![trigger mt.at(c, r)]
                mp.in_bounds(c, r) && ((1 + box_x <= c < 1 + box_x + pbw && (r == 3 || r == 3 + pbh - 1))
                    || (3 <= r < 3 + pbh && (c == 1 + box_x || c == 1 + box_x + pbw - 1)))
                implies mt.at(c, r) == mp.at(c, r) by {
            }
        }
        proof {
            if text_area.height == 0 {
                lemma_unchanged_outside_no_rows(m3, text_area.parent@, 1 + box_x + 2, 1 + box_y + 1,
                    text_area.width as int, 1, 1, inner.width as int, inner.height as int);
            } else if text_area.width == 0 {
                lemma_print_rows_no_columns(m3, 1 + box_x + 2, 1 + box_y + 1, text_area.height as int,
                    crate::widget::textblock::visible_lines(crate::widget::textblock::wrap_text(sample_text.text@,
                    sample_text.wrap, 0), sample_text.scroll_row as int, text_area.height as int),
                    sample_text.fg, sample_text.bg, sample_text.style);
                lemma_unchanged_outside_refl(m3, 1, 1, inner.width as int, inner.height as int);
            } else {
                lemma_unchanged_outside_widen(m3, text_area.parent@, 1 + box_x + 2, 1 + box_y + 1,
                    text_area.width as int, text_area.height as int, 1, 1, inner.width as int, inner.height as int);
            }
            lemma_unchanged_outside_trans(m1, m3, text_area.parent@, 1, 1, inner.width as int, inner.height as int);
            if tah == 0 {
                lemma_unchanged_outside_no_rows(m3, mt, 1 + box_x + 2, 1 + box_y + 1,
                    taw, 1, 3, inner.width as int, inner.height as int - 2);
            } else if taw == 0 {
                lemma_unchanged_outside_refl(m3, 1, 3, inner.width as int, inner.height as int - 2);
            } else {
                lemma_unchanged_outside_widen(m3, mt, 1 + box_x + 2, 1 + box_y + 1,
                    taw, tah, 1, 3, inner.width as int,
                    inner.height as int - 2);
            }
            lemma_unchanged_outside_trans(m_status, m3, mt, 1, 3, inner.width as int,
                inner.height as int - 2);
        }

        // ── Style selector row ────────────────────────────────────────────────
        let sel_y = box_y + box_h + 1;
        if sel_y < inner_h {
            let ghost inner_final = *final(inner.parent);
            let ghost iw = inner.width;
            let ghost ih = inner.height;
            proof { lemma_unchanged_outside_refl(mt, 1, 1 + sel_y, iw as int, 1); }
            let mut x: u16 = 2;
            let mut i: usize = 0;
            while i < styles.len()
                invariant
                    i <= styles@.len(),
                    styles@.len() == 5,
                    inner.wf(),
                    inner.origin_col == 1,
                    inner.origin_row == 1,
                    inner.width + 2 <= u16::MAX,
                    inner.parent@.width == w,
                    inner.parent@.height == h,
                    *final(inner.parent) == inner_final,
                    inner.width == iw,
                    inner.height == ih,
                    unchanged_outside(m1, inner.parent@, 1, 1, iw as int, ih as int),
                    unchanged_outside(mt, inner.parent@, 1, 1 + sel_y, iw as int, 1),
                    inner.parent@.wf(),
                    w >= 2 && h >= 2 ==> inner.parent@ == selector_printed(mt, w as int, h as int,
                        self.style_idx as int, sel_y as int, i as int),
                    x == label_col(i as int),
                    styles@ == all_styles(),
                    self.style_idx < 5,
                    w >= 2 ==> iw == w - 2,
                    h >= 2 ==> ih == h - 2,
                decreases styles@.len() - i,
            {
                let lname = styles[i].name();
                let label = concat_str(concat_str(" ", lname).as_str(), " ");
                proof {
                    assert(lname@ == style_name(all_styles()[i as int])) by {
                        match styles@[i as int] {
                            BorderStyle::Ascii => {},
                            BorderStyle::Single => {},
                            BorderStyle::Double => {},
                            BorderStyle::Rounded => {},
                            BorderStyle::Heavy => {},
                        }
                    }
                    assert(label@ == label_text(i as int));
                    assert(self.style_idx % 5 == self.style_idx);
                }
                let (fg, style_flag) = if i == self.style_idx % styles.len() {
                    (Color::Basic(BasicColor::Black, false), StyleFlags::reverse())
                } else {
                    (Color::Default, StyleFlags::empty())
                };
                let ghost mb = inner.parent@;
                inner.print(x, sel_y, label.as_str(), fg, Color::Default, style_flag);
                proof {
                    lemma_unchanged_outside_trans(m1, mb, inner.parent@, 1, 1, iw as int, ih as int);
                    lemma_print_row(mb, 1, 1, iw as int, ih as int, x as int, sel_y as int, label@, fg, Color::Default,
                        style_flag);
                    lemma_row_change_in_region(mb, inner.parent@, 1 + sel_y, 1 + x, 1 + iw, 1, 1, iw as int, ih as int);
                    lemma_unchanged_outside_trans(mt, mb, inner.parent@, 1, 1 + sel_y, iw as int, 1);
                }
                x = x.wrapping_add(byte_len(label.as_str()) as u16).wrapping_add(1);
                i += 1;
            }
            proof {
                lemma_unchanged_outside_widen(mt, inner.parent@, 1, 1 + sel_y, iw as int, 1, 1, 3, iw as int,
                    ih as int - 2);
                lemma_unchanged_outside_trans(m_status, mt, inner.parent@, 1, 3, iw as int, ih as int - 2);
                let mf = inner.parent@;
                assert(area_kept(mt, mf, 1 + box_x + 2, 1 + box_y + 1, taw, tah)) by {
                    assert forall|c: int, r: int| #![trigger mf.at(c, r)]
                        mt.in_bounds(c, r) && 1 + box_x + 2 <= c < 1 + box_x + 2 + taw && 1 + box_y + 1 <= r
                        < 1 + box_y + 1 + tah implies mf.at(c, r) == mt.at(c, r) by {
                        assert(r < 1 + sel_y);
                    }
                }
                if w >= 2 && h >= 2 {
                    assert(selector_row(w as int, h as int) == sel_y);
                    assert(row_kept(selector_printed(mt, w as int, h as int, self@.0 as int, selector_row(w as int,
                        h as int), 5), mf, 1 + selector_row(w as int, h as int)));
                    assert(selector_shown(mf, w as int, h as int, self@.0));
                }
            }
        }
        proof {
            let mf = inner.parent@;
            assert(unchanged_outside(m_status, mf, 1, 3, inner.width as int, inner.height as int - 2));
            if w >= 2 && h >= 3 {
                assert(row_kept(m_status, mf, 1)) by {
                    assert forall|c: int| 0 <= c < m_status.width implies #[trigger] mf.at(c, 1) == m_status.at(c, 1) by {
                        assert(m_status.in_bounds(c, 1));
                    }
                }
                assert(status@ == status_line(self@)) by {
                    assert(self.style_idx % 5 == self.style_idx);
                    assert(self.theme_idx % 7 == self.theme_idx);
                    assert(sname@ == style_name(style)) by {
                        match style {
                            BorderStyle::Ascii => {},
                            BorderStyle::Single => {},
                            BorderStyle::Double => {},
                            BorderStyle::Rounded => {},
                            BorderStyle::Heavy => {},
                        }
                    }
                }
                assert(m_pre == m1);
                assert(row_kept(print_spec(m_pre, 1, 1, w - 2, h - 2, 0, 0, status_line(self@),
                    Color::Basic(BasicColor::White, false), Color::Default, StyleFlags { bits: 2 }), mf, 1));
                assert(status_shown(mf, w as int, h as int, self@));
            }
            if w >= 2 && h >= 2 {
                lemma_outer_frame_kept(m1, inner.parent@, BorderStyle::Single, caps.unicode,
                    Color::Basic(BasicColor::White, false));
                let mf = inner.parent@;
                assert(preview_box(w as int, h as int) == (1 + box_x as int, pbw, pbh));
                assert(preview.drawn(caps, m2, mp, 1 + box_x as int, 3, pbw, pbh));
                assert(box_edges_kept(mp, mt, 1 + box_x as int, 3, pbw, pbh));
                if sel_y < inner_h {
                    assert forall|c: int, r: int| #![trigger mf.at(c, r)]
                        mp.in_bounds(c, r) && ((1 + box_x <= c < 1 + box_x + pbw && (r == 3 || r == 3 + pbh - 1))
                            || (3 <= r < 3 + pbh && (c == 1 + box_x || c == 1 + box_x + pbw - 1)))
                        implies mf.at(c, r) == mp.at(c, r) by {
                        assert(mt.at(c, r) == mp.at(c, r));
                    }
                }
                assert(box_edges_kept(mp, mf, 1 + box_x as int, 3, pbw, pbh));
                assert(self.style_idx % 5 == self.style_idx);
                assert(self.theme_idx % 7 == self.theme_idx);
                assert(preview.border_style == all_styles()[self@.0 as int]);
                assert(preview.border_fg == theme_spec(self@.1 as int).1);
                assert(preview.border_bg == Color::Default);
                let (bx, bw, bh) = preview_box(w as int, h as int);
                assert(bx == 1 + box_x && bw == pbw && bh == pbh);
                assert(preview.drawn(caps, m2, mp, bx, 3, bw, bh));
                assert(box_edges_kept(mp, mf, bx, 3, bw, bh));
                assert(preview_shown(caps, mf, w as int, h as int, self@));
                if sel_y >= inner_h {
                    assert(mf == mt);
                }
                assert(area_kept(mt, mf, 1 + box_x + 2, 4, taw, tah));
                assert(sample_area(w as int, h as int) == (1 + box_x + 2, taw, tah));
                assert(sample_text.drawn(caps, m3, mt, 1 + box_x + 2, 4, taw, tah));
                assert(sample_text.text@ == preview_sample()) by {
                    reveal_strlit("This is a sample text block rendered inside the panel.\n\nYou can compose any widget as the child of a Panel.\n\nArrow keys cycle through styles and color themes.\n\nThe border gracefully degrades to ASCII (+, -, |) on\nterminals that don't support Unicode box-drawing.");
                }
                lemma_sample_shown(caps, sample_text, m3, mt, mf, w as int, h as int);
            }
        }
    }

    /// `Esc` / `q` go back; Left/Right cycle the styles and Up/Down the
    /// themes, wrapping around at both ends.
    pub fn handle_key(&mut self, key: Key) -> (a: Action)
        ensures
            a == (if key == Key::Escape || key == Key::Char('q') { Action::GoTo(ScreenId::MainMenu) } else { Action::Continue }),
            final(self)@.0 == (if key == Key::Left {
                if old(self)@.0 == 0 { 4 } else { (old(self)@.0 - 1) as usize }
            } else if key == Key::Right {
                ((old(self)@.0 + 1) % 5) as usize
            } else {
                old(self)@.0
            }),
            final(self)@.1 == (if key == Key::Up {
                if old(self)@.1 == 0 { 6 } else { (old(self)@.1 - 1) as usize }
            } else if key == Key::Down {
                ((old(self)@.1 + 1) % 7) as usize
            } else {
                old(self)@.1
            }),
    {
        proof { use_type_invariant(&*self); }
        let n_styles = BorderStyle::all().len();
        match key {
            Key::Escape => Action::GoTo(ScreenId::MainMenu),
            Key::Char(c) => {
                if c == 'q' {
                    Action::GoTo(ScreenId::MainMenu)
                } else {
                    Action::Continue
                }
            },
            Key::Left => {
                let prev = self.style_idx.wrapping_sub(1);
                self.style_idx = if prev < n_styles - 1 { prev } else { n_styles - 1 };
                Action::Continue
            },
            Key::Right => {
                self.style_idx = (self.style_idx + 1) % n_styles;
                Action::Continue
            },
            Key::Up => {
                let prev = self.theme_idx.wrapping_sub(1);
                self.theme_idx = if prev < 6 { prev } else { 6 };
                Action::Continue
            },
            Key::Down => {
                self.theme_idx = (self.theme_idx + 1) % 7;
                Action::Continue
            },
            _ => Action::Continue,
        }
    }
}

} // verus!
