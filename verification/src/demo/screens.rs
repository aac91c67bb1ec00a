use vstd::prelude::*;
use crate::border::style::{border_glyphs, style_for_caps, BorderStyle};
use crate::canvas::canvas::{unchanged_outside, CanvasModel};
use crate::color::types::Color;
use crate::term::caps::TermCaps;
use crate::color::types::StyleFlags;
use crate::widget::panel::{border_cell_spec, edge_row, Align, Panel};
use crate::widget::traits::Widget;

verus! {

/// Every screen returns one of these actions to the app loop.
#[derive(Debug, Clone, Copy, PartialEq, Eq, Structural)]
pub enum Action {
    /// Stay on the current screen (re-render next frame).
    Continue,
    /// Navigate to a different screen.
    GoTo(ScreenId),
    /// Exit the application.
    Quit,
}

/// The screens of the demonstration.
#[derive(Debug, Clone, Copy, PartialEq, Eq, Structural)]
pub enum ScreenId {
    MainMenu,
    BorderDemo,
    TableDemo,
    LayoutDemo,
    ColorPalette,
    SaveToFile,
}

/// A screen was drawn: the canvas keeps its size and stays well formed.
pub open spec fn redrawn(before: CanvasModel, after: CanvasModel) -> bool {
    &&& after.wf()
    &&& after.width == before.width
    &&& after.height == before.height
}

/// The whole of `m` is framed by a border of `style`, as a terminal with or
/// without Unicode shows it, in `fg` on the default background: its top-left
/// corner, its left side and its bottom edge (the top edge carries a title).
pub open spec fn outer_frame(m: CanvasModel, style: BorderStyle, unicode: bool, fg: Color) -> bool {
    let g = border_glyphs(style_for_caps(style, unicode));
    (m.width >= 2 && m.height >= 2) ==> {
        &&& m.at(0, 0) == border_cell_spec(g.top_left, fg, Color::Default)
        &&& forall|y: int| 1 <= y < m.height - 1 ==> #[trigger] m.at(0, y) == border_cell_spec(g.vertical, fg, Color::Default)
        &&& edge_row(m, 0, m.height - 1, m.width, g.bottom_left, g.horizontal, g.bottom_right, fg, Color::Default)
    }
}

/// `p` is a screen's outer panel: the title `title` centred, a `style`
/// border in `fg`, and otherwise as `Panel::new` makes it.
pub open spec fn is_screen_panel(p: Panel, title: Seq<char>, style: BorderStyle, fg: Color) -> bool {
    &&& p.title matches Some(t) && t@ == title
    &&& p.title_align == Align::Center
    &&& p.border_style == style
    &&& p.border_fg == fg
    &&& p.border_bg == Color::Default
    &&& p.title_fg == Color::Default
    &&& p.title_bg == Color::Default
    &&& p.title_style == StyleFlags { bits: 1 }
    &&& p.inner_bg == Color::Default
    &&& p.child is None
}

/// A screen drawn over `before`, giving `after`: its outer panel (the one
/// `is_screen_panel` describes) over the whole canvas, then `inner` holds
/// between what the panel left and `after`.
pub open spec fn screen_drawn(caps: &TermCaps, before: CanvasModel, after: CanvasModel, title: Seq<char>,
    style: BorderStyle, fg: Color, inner: spec_fn(CanvasModel, CanvasModel) -> bool) -> bool {
    exists|p: Panel, m1: CanvasModel| #[trigger] p.drawn(caps, before, m1, 0, 0, before.width, before.height)
        && is_screen_panel(p, title, style, fg) && inner(m1, after)
}

/// A panel drawn over the whole canvas frames it.
pub proof fn lemma_panel_frames(panel: Panel, caps: TermCaps, m: CanvasModel)
    requires
        m.width >= 2 && m.height >= 2 ==> panel.frame_drawn(&caps, m, 0, 0, m.width, m.height),
        panel.border_bg == Color::Default,
    ensures
        outer_frame(m, panel.border_style, caps.unicode, panel.border_fg),
{
    if m.width >= 2 && m.height >= 2 {
        let g = border_glyphs(style_for_caps(panel.border_style, caps.unicode));
        assert forall|y: int| 1 <= y < m.height - 1 implies #[trigger] m.at(0, y)
            == border_cell_spec(g.vertical, panel.border_fg, Color::Default) by {
            assert(m.at(0, 0 + y) == border_cell_spec(g.vertical, panel.border_fg, Color::Default));
        }
    }
}

/// The frame survives whatever is drawn inside it.
pub proof fn lemma_outer_frame_kept(a: CanvasModel, b: CanvasModel, style: BorderStyle, unicode: bool, fg: Color)
    requires
        a.wf(),
        outer_frame(a, style, unicode, fg),
        unchanged_outside(a, b, 1, 1, a.width - 2, a.height - 2),
    ensures
        outer_frame(b, style, unicode, fg),
{
    if a.width >= 2 && a.height >= 2 {
        let g = border_glyphs(style_for_caps(style, unicode));
        assert(a.in_bounds(0, 0));
        assert(b.at(0, 0) == a.at(0, 0));
        assert forall|y: int| 1 <= y < b.height - 1 implies #[trigger] b.at(0, y)
            == border_cell_spec(g.vertical, fg, Color::Default) by {
            assert(a.in_bounds(0, y));
            assert(a.at(0, y) == border_cell_spec(g.vertical, fg, Color::Default));
        }
        assert forall|c: int| 0 <= c < a.width implies #[trigger] b.at(0 + c, a.height - 1) == a.at(0 + c, a.height - 1) by {
            assert(a.in_bounds(c, a.height - 1));
        }
    }
}

/// The strings `items` as owned strings.
pub fn owned(items: &[&str]) -> (v: Vec<String>)
    ensures
        v@.len() == items@.len(),
        forall|i: int| 0 <= i < items@.len() ==> #[trigger] v@[i]@ == items@[i]@,
{
    let mut v: Vec<String> = Vec::new();
    let mut i: usize = 0;
    while i < items.len()
        invariant
            i <= items@.len(),
            v@.len() == i,
            forall|j: int| 0 <= j < i ==> #[trigger] v@[j]@ == items@[j]@,
        decreases items@.len() - i,
    {
        v.push(crate::text::to_owned_string(items[i]));
        i += 1;
    }
    v
}

} // verus!
