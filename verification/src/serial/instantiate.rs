//! Turning definitions into live widgets and anchor layouts.

use vstd::prelude::*;
use crate::canvas::canvas::{CanvasModel, SubCanvas};
use crate::color::types::{Color, StyleFlags};
use crate::layout::anchor::{anchor_id, container_id, lemma_anchor_id, AnchorId, AnchorLayout, Slot};
use crate::layout::resolve::{Constraint, Edge, LayoutSpec};
use crate::serial::types::{
    align_of_def, color_of_def, edge_of_def, style_bits, style_of_border_def, wrap_of_def, AlignDef, BorderDef,
    ColorDef, ConstraintDef, LayoutDef, ScreenDef, StyleDef, WidgetDef, WidgetPlacement, WrapDef,
};
use crate::text::to_owned_string;
use crate::widget::menu::Menu;
use crate::widget::panel::{Align, Panel};
use crate::widget::table::Table;
use crate::widget::textblock::TextBlock;
use crate::term::caps::TermCaps;
use crate::widget::traits::Widget;

verus! {

// ---------------------------------------------------------------------------
// Widgets
// ---------------------------------------------------------------------------

/// A live widget built from a definition.
pub enum BuiltWidget {
    Panel(Panel),
    Table(Table),
    Menu(Menu),
    Text(TextBlock),
}

impl Widget for BuiltWidget {
    open spec fn drawn(&self, caps: &TermCaps, before: CanvasModel, after: CanvasModel, oc: int, or: int, w: int,
        h: int) -> bool {
        match self {
            BuiltWidget::Panel(p) => p.drawn(caps, before, after, oc, or, w, h),
            BuiltWidget::Table(t) => t.drawn(caps, before, after, oc, or, w, h),
            BuiltWidget::Menu(m) => m.drawn(caps, before, after, oc, or, w, h),
            BuiltWidget::Text(t) => t.drawn(caps, before, after, oc, or, w, h),
        }
    }

    fn render(&self, canvas: &mut SubCanvas<'_>, caps: &TermCaps) {
        match self {
            BuiltWidget::Panel(p) => p.render(canvas, caps),
            BuiltWidget::Table(t) => t.render(canvas, caps),
            BuiltWidget::Menu(m) => m.render(canvas, caps),
            BuiltWidget::Text(t) => t.render(canvas, caps),
        }
    }

    open spec fn min_size_spec(&self) -> (u16, u16) {
        match self {
            BuiltWidget::Panel(p) => p.min_size_spec(),
            BuiltWidget::Table(t) => t.min_size_spec(),
            BuiltWidget::Menu(m) => m.min_size_spec(),
            BuiltWidget::Text(t) => t.min_size_spec(),
        }
    }

    fn min_size(&self) -> (u16, u16) {
        match self {
            BuiltWidget::Panel(p) => p.min_size(),
            BuiltWidget::Table(t) => t.min_size(),
            BuiltWidget::Menu(m) => m.min_size(),
            BuiltWidget::Text(t) => t.min_size(),
        }
    }

    open spec fn preferred_size_spec(&self) -> (u16, u16) {
        match self {
            BuiltWidget::Panel(p) => p.preferred_size_spec(),
            BuiltWidget::Table(t) => t.preferred_size_spec(),
            BuiltWidget::Menu(m) => m.preferred_size_spec(),
            BuiltWidget::Text(t) => t.preferred_size_spec(),
        }
    }

    fn preferred_size(&self) -> (u16, u16) {
        match self {
            BuiltWidget::Panel(p) => p.preferred_size(),
            BuiltWidget::Table(t) => t.preferred_size(),
            BuiltWidget::Menu(m) => m.preferred_size(),
            BuiltWidget::Text(t) => t.preferred_size(),
        }
    }
}

/// The boxed widget `w` acts as `t`: it reports the same sizes and leaves
/// the same cells when it draws.
pub open spec fn acts_as<T: Widget>(w: &Box<dyn Widget>, t: T) -> bool {
    &&& w.min_size_spec() == t.min_size_spec()
    &&& w.preferred_size_spec() == t.preferred_size_spec()
    &&& forall|caps: &TermCaps, before: CanvasModel, after: CanvasModel, oc: int, or: int, ww: int, hh: int|
        #[trigger] w.drawn(caps, before, after, oc, or, ww, hh) == t.drawn(caps, before, after, oc, or, ww, hh)
}

/// `p` is the panel a definition with these fields describes, apart from its
/// child: the given border, colors, title and alignment, everything else as
/// `Panel::new` sets it.
pub open spec fn panel_of_def(
    p: Panel, title: Option<String>, title_align: AlignDef, border: BorderDef, border_fg: ColorDef, title_fg: ColorDef,
) -> bool {
    &&& p.title matches Some(t) ==> title matches Some(u) && t@ == u@
    &&& p.title is None <==> title is None
    &&& p.title_align == align_of_def(title_align)
    &&& p.border_style == style_of_border_def(border)
    &&& p.border_fg == color_of_def(border_fg)
    &&& p.border_bg == Color::Default
    &&& p.title_fg == color_of_def(title_fg)
    &&& p.title_bg == Color::Default
    &&& p.title_style == StyleFlags::bold_spec()
    &&& p.inner_bg == Color::Default
}

/// `p` is a panel as `Panel::new` makes it: untitled, left-aligned, single
/// border, default colors, no child.
pub open spec fn is_plain_panel(p: Panel) -> bool {
    &&& p.title is None
    &&& p.title_align == Align::Left
    &&& p.border_style == crate::border::style::BorderStyle::Single
    &&& p.border_fg == Color::Default
    &&& p.border_bg == Color::Default
    &&& p.title_fg == Color::Default
    &&& p.title_bg == Color::Default
    &&& p.title_style == StyleFlags::bold_spec()
    &&& p.inner_bg == Color::Default
    &&& p.child is None
}

/// `t` is the table a definition with these fields describes.
pub open spec fn table_of_def(
    t: Table, headers: Option<Vec<String>>, rows: Vec<Vec<String>>, col_align: Seq<AlignDef>, border: BorderDef,
    border_fg: ColorDef, header_fg: ColorDef, alt_row_bg: Option<ColorDef>,
) -> bool {
    &&& t.headers == headers
    &&& t.rows == rows
    &&& t.col_align@ == col_align.map_values(|d: AlignDef| align_of_def(d))
    &&& t.border_style == style_of_border_def(border)
    &&& t.border_fg == color_of_def(border_fg)
    &&& t.border_bg == Color::Default
    &&& t.header_fg == color_of_def(header_fg)
    &&& t.header_bg == Color::Default
    &&& t.header_style == StyleFlags::bold_spec()
    &&& t.row_fg == Color::Default
    &&& t.row_bg == Color::Default
    &&& t.alt_row_bg == (match alt_row_bg {
        Some(c) => Some(color_of_def(c)),
        None => None,
    })
    &&& t.scroll_row == 0
}

/// `m` is the menu a definition with these fields describes: the items and
/// cursor colors given, everything else as `Menu::new` sets it.
pub open spec fn menu_of_def(m: Menu, items: Vec<String>, cursor_fg: ColorDef, cursor_bg: ColorDef) -> bool {
    &&& m.items == items
    &&& m.cursor == 0
    &&& m.scroll_offset == 0
    &&& m.focused
    &&& m.fg == Color::Default
    &&& m.bg == Color::Default
    &&& m.cursor_fg == color_of_def(cursor_fg)
    &&& m.cursor_bg == color_of_def(cursor_bg)
    &&& m.cursor_style@ == 0b0010_0000
    &&& m.prefix_normal@ == seq![' ', ' ']
    &&& m.prefix_cursor@ == seq!['>', ' ']
}

/// `tb` is the text block a definition with these fields describes.
pub open spec fn text_of_def(tb: TextBlock, content: Seq<char>, fg: ColorDef, wrap: WrapDef, style: StyleDef) -> bool {
    &&& tb.text@ == content
    &&& tb.fg == color_of_def(fg)
    &&& tb.bg == Color::Default
    &&& tb.style@ == style_bits(style)
    &&& tb.wrap == wrap_of_def(wrap)
    &&& tb.scroll_row == 0
}

/// `b` is the live widget the definition `d` describes: the panel, table,
/// menu or text block with `d`'s fields, a panel's child acting as a widget
/// built from the child's definition the same way, and a plain panel for
/// `Empty`.
pub open spec fn built_from(b: BuiltWidget, d: WidgetDef) -> bool
    decreases d,
{
    match d {
        WidgetDef::Panel { title, title_align, border, border_fg, title_fg, child } => {
            &&& b matches BuiltWidget::Panel(p)
            &&& panel_of_def(p, title, title_align, border, border_fg, title_fg)
            &&& match child {
                Some(c) => p.child matches Some(pc) && exists|cb: BuiltWidget| #[trigger] acts_as(&pc, cb)
                    && built_from(cb, *c),
                None => p.child is None,
            }
        },
        WidgetDef::Table { headers, rows, col_align, border, border_fg, header_fg, alt_row_bg } => {
            b matches BuiltWidget::Table(t) && table_of_def(t, headers, rows, col_align@, border, border_fg, header_fg,
                alt_row_bg)
        },
        WidgetDef::Menu { items, cursor_fg, cursor_bg } => {
            b matches BuiltWidget::Menu(m) && menu_of_def(m, items, cursor_fg, cursor_bg)
        },
        WidgetDef::Text { content, fg, wrap, style } => {
            b matches BuiltWidget::Text(tb) && text_of_def(tb, content@, fg, wrap, style)
        },
        WidgetDef::Empty => b matches BuiltWidget::Panel(p) && is_plain_panel(p),
    }
}

/// A panel as a definition describes it: the given border, colors, title
/// and alignment, everything else as `Panel::new` sets it.
fn panel_from_def(
    title: Option<String>, title_align: AlignDef, border: BorderDef, border_fg: ColorDef, title_fg: ColorDef,
) -> (p: Panel)
    ensures
        p.title matches Some(t) ==> title matches Some(u) && t@ == u@,
        p.title is None <==> title is None,
        p.title_align == align_of_def(title_align),
        p.border_style == style_of_border_def(border),
        p.border_fg == color_of_def(border_fg),
        p.border_bg == Color::Default,
        p.title_fg == color_of_def(title_fg),
        p.title_bg == Color::Default,
        p.title_style == StyleFlags::bold_spec(),
        p.inner_bg == Color::Default,
        p.child is None,
{
    let mut p = Panel::new()
        .border_style(border.to_border_style())
        .border_fg(border_fg.to_color())
        .title_fg(title_fg.to_color())
        .title_align(title_align.to_align());
    match title {
        Some(t) => {
            p = p.title(t.as_str());
        },
        None => {},
    }
    p
}

/// The alignments a list of definitions names.
fn aligns_of(defs: &Vec<AlignDef>) -> (v: Vec<Align>)
    ensures
        v@ == defs@.map_values(|d: AlignDef| align_of_def(d)),
{
    let mut v: Vec<Align> = Vec::new();
    let mut i: usize = 0;
    while i < defs.len()
        invariant
            i <= defs@.len(),
            v@ == defs@.take(i as int).map_values(|d: AlignDef| align_of_def(d)),
        decreases defs@.len() - i,
    {
        v.push(defs[i].to_align());
        i += 1;
        assert(v@ =~= defs@.take(i as int).map_values(|d: AlignDef| align_of_def(d)));
    }
    assert(defs@.take(defs@.len() as int) =~= defs@);
    v
}

/// A table as a definition describes it: the given contents, alignments,
/// border and colors, everything else as `Table::new` sets it.
fn table_from_def(
    headers: Option<Vec<String>>, rows: Vec<Vec<String>>, col_align: Vec<AlignDef>, border: BorderDef,
    border_fg: ColorDef, header_fg: ColorDef, alt_row_bg: Option<ColorDef>,
) -> (t: Table)
    ensures
        t.headers == headers,
        t.rows == rows,
        t.col_align@ == col_align@.map_values(|d: AlignDef| align_of_def(d)),
        t.border_style == style_of_border_def(border),
        t.border_fg == color_of_def(border_fg),
        t.border_bg == Color::Default,
        t.header_fg == color_of_def(header_fg),
        t.header_bg == Color::Default,
        t.header_style == StyleFlags::bold_spec(),
        t.row_fg == Color::Default,
        t.row_bg == Color::Default,
        t.alt_row_bg == (match alt_row_bg {
            Some(c) => Some(color_of_def(c)),
            None => None,
        }),
        t.scroll_row == 0,
{
    let mut t = Table::new()
        .border_style(border.to_border_style())
        .border_fg(border_fg.to_color())
        .col_align(aligns_of(&col_align))
        .rows(rows);
    match headers {
        Some(h) => {
            t = t.headers(h);
        },
        None => {},
    }
    t.header_fg = header_fg.to_color();
    match alt_row_bg {
        Some(ab) => {
            t.alt_row_bg = Some(ab.to_color());
        },
        None => {},
    }
    t
}

/// A menu of `items` with the given cursor colors, everything else as
/// `Menu::new` sets it.
fn menu_from_def(items: Vec<String>, cursor_fg: ColorDef, cursor_bg: ColorDef) -> (m: Menu)
    ensures
        m.items == items,
        m.cursor == 0,
        m.scroll_offset == 0,
        m.focused,
        m.fg == Color::Default,
        m.bg == Color::Default,
        m.cursor_fg == color_of_def(cursor_fg),
        m.cursor_bg == color_of_def(cursor_bg),
        m.cursor_style@ == 0b0010_0000,
        m.prefix_normal@ == seq![' ', ' '],
        m.prefix_cursor@ == seq!['>', ' '],
{
    let mut m = Menu::new(items);
    m.cursor_fg = cursor_fg.to_color();
    m.cursor_bg = cursor_bg.to_color();
    m
}

/// A text block of `content` in the given color, wrap mode and style.
fn text_from_def(content: String, fg: ColorDef, wrap: WrapDef, style: StyleDef) -> (tb: TextBlock)
    ensures
        tb.text@ == content@,
        tb.fg == color_of_def(fg),
        tb.bg == Color::Default,
        tb.style@ == style_bits(style),
        tb.wrap == wrap_of_def(wrap),
        tb.scroll_row == 0,
{
    TextBlock::new(content.as_str()).fg(fg.to_color()).wrap(wrap.to_wrap_mode()).style(style.to_flags())
}

/// A panel as a definition describes it, with its child built the same way.
fn panel_tree(
    title: Option<String>, title_align: AlignDef, border: BorderDef, border_fg: ColorDef, title_fg: ColorDef,
    child: Option<Box<WidgetDef>>,
) -> (p: Panel)
    ensures
        p.title matches Some(t) ==> title matches Some(u) && t@ == u@,
        p.title is None <==> title is None,
        p.title_align == align_of_def(title_align),
        p.border_style == style_of_border_def(border),
        p.border_fg == color_of_def(border_fg),
        p.title_fg == color_of_def(title_fg),
        p.child is Some <==> child is Some,
        built_from(BuiltWidget::Panel(p), WidgetDef::Panel { title, title_align, border, border_fg, title_fg, child }),
    decreases child,
{
    let ghost t0 = title;
    let ghost ch0 = child;
    let p = panel_from_def(title, title_align, border, border_fg, title_fg);
    match child {
        Some(c) => {
            let ghost cd = *c;
            let cb = match *c {
                WidgetDef::Panel { title, title_align, border, border_fg, title_fg, child } => {
                    BuiltWidget::Panel(panel_tree(title, title_align, border, border_fg, title_fg, child))
                },
                other => leaf_widget(other),
            };
            let ghost g = cb;
            assert(built_from(g, cd));
            let mut p2 = p;
            p2.child = Some(Box::new(cb));
            assert(p2.child matches Some(pc) && acts_as(&pc, g));
            p2
        },
        None => p,
    }
}

/// The live widget for a definition that is not a panel; a panel
/// definition gives a plain panel.
fn leaf_widget(def: WidgetDef) -> (w: BuiltWidget)
    ensures
        built_from(w, if def is Panel { WidgetDef::Empty } else { def }),
{
    match def {
        WidgetDef::Table { headers, rows, col_align, border, border_fg, header_fg, alt_row_bg } => {
            BuiltWidget::Table(table_from_def(headers, rows, col_align, border, border_fg, header_fg, alt_row_bg))
        },
        WidgetDef::Menu { items, cursor_fg, cursor_bg } => BuiltWidget::Menu(menu_from_def(items, cursor_fg, cursor_bg)),
        WidgetDef::Text { content, fg, wrap, style } => BuiltWidget::Text(text_from_def(content, fg, wrap, style)),
        _ => BuiltWidget::Panel(Panel::new()),
    }
}

impl WidgetDef {
    /// Instantiate a live widget from this definition.
    ///
    /// A panel's child is built the same way; `Empty` gives a plain panel.
    pub fn build(self) -> (w: BuiltWidget)
        ensures
            built_from(w, self),
    {
        match self {
            WidgetDef::Panel { title, title_align, border, border_fg, title_fg, child } => {
                BuiltWidget::Panel(panel_tree(title, title_align, border, border_fg, title_fg, child))
            },
            other => leaf_widget(other),
        }
    }
}

// ---------------------------------------------------------------------------
// Anchor layouts
// ---------------------------------------------------------------------------

/// Index of the last placement whose id is `name`.
pub open spec fn last_index_of(ws: Seq<WidgetPlacement>, name: Seq<char>) -> Option<int>
    decreases ws.len(),
{
    if ws.len() == 0 {
        None
    } else if ws.last().id@ == name {
        Some(ws.len() - 1)
    } else {
        last_index_of(ws.drop_last(), name)
    }
}

/// The widget a constraint's destination names, when the placements `ws`
/// got the ids after `base`: `CONTAINER` is the layout's box, any other name
/// the last placement with that id; an unknown name names nothing.
pub open spec fn target_of(ws: Seq<WidgetPlacement>, base: nat, dst: Seq<char>) -> Option<AnchorId> {
    if dst == "CONTAINER"@ {
        Some(container_id())
    } else {
        match last_index_of(ws, dst) {
            Some(j) => Some(anchor_id((base + j + 1) as u32)),
            None => None,
        }
    }
}

/// The constraints that the definitions `cs` of placement `k` add, in order;
/// one with an unknown destination is skipped.
pub open spec fn placement_constraints(ws: Seq<WidgetPlacement>, base: nat, k: int, cs: Seq<ConstraintDef>) -> Seq<Constraint>
    decreases cs.len(),
{
    if cs.len() == 0 {
        Seq::empty()
    } else {
        let rest = placement_constraints(ws, base, k, cs.drop_last());
        let c = cs.last();
        match target_of(ws, base, c.dst@) {
            Some(d) => rest.push(Constraint {
                src: anchor_id((base + k + 1) as u32),
                src_edge: edge_of_def(c.src_edge),
                dst: d,
                dst_edge: edge_of_def(c.dst_edge),
                offset: c.offset,
            }),
            None => rest,
        }
    }
}

/// The constraints of the first `n` placements, one placement after the other.
pub open spec fn anchor_constraints(ws: Seq<WidgetPlacement>, base: nat, n: nat) -> Seq<Constraint>
    decreases n,
{
    if n == 0 {
        Seq::empty()
    } else {
        anchor_constraints(ws, base, (n - 1) as nat) + placement_constraints(ws, base, n - 1, ws[n - 1].constraints@)
    }
}

/// Number of widgets a layout definition adds.
pub open spec fn widget_count(l: LayoutDef) -> nat
    decreases l,
{
    match l {
        LayoutDef::Anchor { widgets } => widgets@.len(),
        LayoutDef::Single { .. } => 1,
        LayoutDef::HSplit { first, second, .. } => widget_count(first.layout) + widget_count(second.layout),
        LayoutDef::VSplit { first, second, .. } => widget_count(first.layout) + widget_count(second.layout),
        LayoutDef::Grid4 { top_left, top_right, bottom_left, bottom_right, .. } => {
            widget_count(top_left.layout) + widget_count(top_right.layout) + widget_count(bottom_left.layout)
                + widget_count(bottom_right.layout)
        },
    }
}

/// The four constraints that pin every edge of `id` to the container.
pub open spec fn fill_constraints(id: AnchorId, margin: i16) -> Seq<Constraint> {
    seq![
        Constraint { src: id, src_edge: Edge::Top, dst: container_id(), dst_edge: Edge::Top, offset: margin },
        Constraint { src: id, src_edge: Edge::Left, dst: container_id(), dst_edge: Edge::Left, offset: margin },
        Constraint { src: id, src_edge: Edge::Bottom, dst: container_id(), dst_edge: Edge::Bottom, offset: (-margin) as i16 },
        Constraint { src: id, src_edge: Edge::Right, dst: container_id(), dst_edge: Edge::Right, offset: (-margin) as i16 },
    ]
}

/// The constraints a layout definition adds when its widgets get the ids
/// after `base`: anchor placements wire their own constraints, a single
/// widget fills the box, and split layouts are flattened, one part after
/// the other.
pub open spec fn layout_constraints(l: LayoutDef, base: nat) -> Seq<Constraint>
    decreases l,
{
    match l {
        LayoutDef::Anchor { widgets } => anchor_constraints(widgets@, base, widgets@.len()),
        LayoutDef::Single { .. } => fill_constraints(anchor_id((base + 1) as u32), 0),
        LayoutDef::HSplit { first, second, .. } => {
            layout_constraints(first.layout, base) + layout_constraints(second.layout, base + widget_count(first.layout))
        },
        LayoutDef::VSplit { first, second, .. } => {
            layout_constraints(first.layout, base) + layout_constraints(second.layout, base + widget_count(first.layout))
        },
        LayoutDef::Grid4 { top_left, top_right, bottom_left, bottom_right, .. } => {
            let b1 = base + widget_count(top_left.layout);
            let b2 = b1 + widget_count(top_right.layout);
            let b3 = b2 + widget_count(bottom_left.layout);
            layout_constraints(top_left.layout, base) + layout_constraints(top_right.layout, b1)
                + layout_constraints(bottom_left.layout, b2) + layout_constraints(bottom_right.layout, b3)
        },
    }
}

/// The size hints of the widgets a layout definition adds, in order.
pub open spec fn layout_hints(l: LayoutDef) -> Seq<Option<(u16, u16)>>
    decreases l,
{
    match l {
        LayoutDef::Anchor { widgets } => widgets@.map_values(|p: WidgetPlacement| p.size_hint),
        LayoutDef::Single { .. } => seq![None],
        LayoutDef::HSplit { first, second, .. } => layout_hints(first.layout) + layout_hints(second.layout),
        LayoutDef::VSplit { first, second, .. } => layout_hints(first.layout) + layout_hints(second.layout),
        LayoutDef::Grid4 { top_left, top_right, bottom_left, bottom_right, .. } => {
            layout_hints(top_left.layout) + layout_hints(top_right.layout) + layout_hints(bottom_left.layout)
                + layout_hints(bottom_right.layout)
        },
    }
}

/// The widget definitions a layout definition adds, in order.
pub open spec fn layout_widgets(l: LayoutDef) -> Seq<WidgetDef>
    decreases l,
{
    match l {
        LayoutDef::Anchor { widgets } => widgets@.map_values(|p: WidgetPlacement| p.widget),
        LayoutDef::Single { widget } => seq![widget],
        LayoutDef::HSplit { first, second, .. } => layout_widgets(first.layout) + layout_widgets(second.layout),
        LayoutDef::VSplit { first, second, .. } => layout_widgets(first.layout) + layout_widgets(second.layout),
        LayoutDef::Grid4 { top_left, top_right, bottom_left, bottom_right, .. } => {
            layout_widgets(top_left.layout) + layout_widgets(top_right.layout) + layout_widgets(bottom_left.layout)
                + layout_widgets(bottom_right.layout)
        },
    }
}

/// The boxed widget `w` acts as a widget built from the definition `d`.
pub open spec fn widget_built(w: &Box<dyn Widget>, d: WidgetDef) -> bool {
    exists|b: BuiltWidget| #[trigger] acts_as(w, b) && built_from(b, d)
}

/// `after` keeps the widgets `before` and adds, one after the other, a
/// widget built from each definition of `defs`.
pub open spec fn widgets_added(before: Seq<Slot<Box<dyn Widget>>>, after: Seq<Slot<Box<dyn Widget>>>, defs: Seq<WidgetDef>) -> bool {
    &&& after.len() == before.len() + defs.len()
    &&& forall|j: int| 0 <= j < before.len() ==> #[trigger] after[j] == before[j]
    &&& forall|k: int| 0 <= k < defs.len() ==> widget_built(&after[before.len() + k].widget, #[trigger] defs[k])
}

/// Populating a layout from `def` kept the widgets `before` and added, one
/// after the other, a widget built from each definition of `def`.
pub open spec fn widgets_populated(before: Seq<Slot<Box<dyn Widget>>>, after: Seq<Slot<Box<dyn Widget>>>, def: LayoutDef) -> bool {
    widgets_added(before, after, layout_widgets(def))
}

/// Adding the widgets of `a` and then those of `b` adds those of `a + b`.
proof fn lemma_widgets_seq(w0: Seq<Slot<Box<dyn Widget>>>, w1: Seq<Slot<Box<dyn Widget>>>, w2: Seq<Slot<Box<dyn Widget>>>,
    a: Seq<WidgetDef>, b: Seq<WidgetDef>)
    requires
        widgets_added(w0, w1, a),
        widgets_added(w1, w2, b),
    ensures
        widgets_added(w0, w2, a + b),
{
    assert forall|j: int| 0 <= j < w0.len() implies #[trigger] w2[j] == w0[j] by {
        assert(w2[j] == w1[j]);
    }
    assert forall|k: int| 0 <= k < (a + b).len() implies widget_built(&w2[w0.len() + k].widget, #[trigger] (a + b)[k]) by {
        if k < a.len() {
            assert((a + b)[k] == a[k]);
            assert(w2[w0.len() + k] == w1[w0.len() + k]);
        } else {
            assert((a + b)[k] == b[k - a.len()]);
            assert(w0.len() + k == w1.len() + (k - a.len()));
        }
    }
}

/// `p` is the preferred size of a widget built from `d`.
#[verifier::opaque]
pub open spec fn pref_from_def(p: (u16, u16), d: WidgetDef) -> bool {
    exists|b: BuiltWidget| #[trigger] built_from(b, d) && b.preferred_size_spec() == p
}

/// What populating a layout from `def` does to its abstract state: the
/// widgets are appended, each with its size hint or, without one, the
/// preferred size of the widget its definition builds, and the constraints
/// of `def` follow the existing ones.
pub open spec fn populated(before: LayoutSpec, after: LayoutSpec, def: LayoutDef) -> bool {
    let n0 = before.prefs.len();
    &&& after.width == before.width
    &&& after.height == before.height
    &&& after.prefs.len() == n0 + widget_count(def)
    &&& after.prefs.subrange(0, n0 as int) == before.prefs
    &&& forall|k: int| 0 <= k < widget_count(def) ==>
        (#[trigger] layout_hints(def)[k] matches Some(h) ==> after.prefs[n0 + k] == h)
    &&& forall|k: int| 0 <= k < widget_count(def) ==>
        (#[trigger] layout_hints(def)[k] is None ==> pref_from_def(after.prefs[n0 + k], layout_widgets(def)[k]))
    &&& after.constraints == before.constraints + layout_constraints(def, n0)
}

proof fn lemma_hints_len(l: LayoutDef)
    ensures
        layout_hints(l).len() == widget_count(l),
        layout_widgets(l).len() == widget_count(l),
    decreases l,
{
    match l {
        LayoutDef::HSplit { first, second, .. } => {
            lemma_hints_len(first.layout);
            lemma_hints_len(second.layout);
        },
        LayoutDef::VSplit { first, second, .. } => {
            lemma_hints_len(first.layout);
            lemma_hints_len(second.layout);
        },
        LayoutDef::Grid4 { top_left, top_right, bottom_left, bottom_right, .. } => {
            lemma_hints_len(top_left.layout);
            lemma_hints_len(top_right.layout);
            lemma_hints_len(bottom_left.layout);
            lemma_hints_len(bottom_right.layout);
        },
        _ => {},
    }
}

/// `populated` composes: populating from `a` then from `b` is populating
/// from the two one after the other.
proof fn lemma_populated_seq(s0: LayoutSpec, s1: LayoutSpec, s2: LayoutSpec, a: LayoutDef, b: LayoutDef)
    requires
        populated(s0, s1, a),
        populated(s1, s2, b),
    ensures
        s2.width == s0.width,
        s2.height == s0.height,
        s2.prefs.len() == s0.prefs.len() + widget_count(a) + widget_count(b),
        s2.prefs.subrange(0, s0.prefs.len() as int) == s0.prefs,
        forall|k: int| 0 <= k < widget_count(a) + widget_count(b) ==>
            (#[trigger] (layout_hints(a) + layout_hints(b))[k] matches Some(h) ==> s2.prefs[s0.prefs.len() + k] == h),
        forall|k: int| 0 <= k < widget_count(a) + widget_count(b) ==>
            (#[trigger] (layout_hints(a) + layout_hints(b))[k] is None ==> pref_from_def(s2.prefs[s0.prefs.len() + k],
            (layout_widgets(a) + layout_widgets(b))[k])),
        s2.constraints == s0.constraints + (layout_constraints(a, s0.prefs.len()) + layout_constraints(b, s0.prefs.len() + widget_count(a))),
{
    lemma_hints_len(a);
    lemma_hints_len(b);
    let n0 = s0.prefs.len();
    let n1 = s1.prefs.len();
    assert(s2.prefs.subrange(0, n0 as int) =~= s1.prefs.subrange(0, n1 as int).subrange(0, n0 as int));
    assert forall|k: int| 0 <= k < widget_count(a) + widget_count(b) implies
        (#[trigger] (layout_hints(a) + layout_hints(b))[k] matches Some(h) ==> s2.prefs[n0 + k] == h) by {
        if k < widget_count(a) {
            assert((layout_hints(a) + layout_hints(b))[k] == layout_hints(a)[k]);
            assert(s2.prefs[n0 + k] == s2.prefs.subrange(0, n1 as int)[n0 + k]);
        } else {
            assert((layout_hints(a) + layout_hints(b))[k] == layout_hints(b)[k - widget_count(a)]);
        }
    }
    assert forall|k: int| 0 <= k < widget_count(a) + widget_count(b) implies
        (#[trigger] (layout_hints(a) + layout_hints(b))[k] is None ==> pref_from_def(s2.prefs[n0 + k],
        (layout_widgets(a) + layout_widgets(b))[k])) by {
        if k < widget_count(a) {
            assert((layout_hints(a) + layout_hints(b))[k] == layout_hints(a)[k]);
            assert((layout_widgets(a) + layout_widgets(b))[k] == layout_widgets(a)[k]);
            assert(s2.prefs[n0 + k] == s2.prefs.subrange(0, n1 as int)[n0 + k]);
        } else {
            assert((layout_hints(a) + layout_hints(b))[k] == layout_hints(b)[k - widget_count(a)]);
            assert((layout_widgets(a) + layout_widgets(b))[k] == layout_widgets(b)[k - widget_count(a)]);
        }
    }
    assert(s2.constraints =~= s0.constraints + (layout_constraints(a, n0) + layout_constraints(b, n1)));
}

proof fn lemma_populated_two(s0: LayoutSpec, s1: LayoutSpec, s2: LayoutSpec, def: LayoutDef)
    requires
        def is HSplit || def is VSplit,
        def is HSplit ==> populated(s0, s1, def->HSplit_first.layout) && populated(s1, s2, def->HSplit_second.layout),
        def is VSplit ==> populated(s0, s1, def->VSplit_first.layout) && populated(s1, s2, def->VSplit_second.layout),
    ensures
        populated(s0, s2, def),
{
    let (a, b) = match def {
        LayoutDef::HSplit { first, second, .. } => (first.layout, second.layout),
        LayoutDef::VSplit { first, second, .. } => (first.layout, second.layout),
        _ => (def, def),
    };
    lemma_populated_seq(s0, s1, s2, a, b);
    assert(layout_hints(def) == layout_hints(a) + layout_hints(b));
    assert(layout_widgets(def) == layout_widgets(a) + layout_widgets(b));
    assert(layout_constraints(def, s0.prefs.len()) == layout_constraints(a, s0.prefs.len())
        + layout_constraints(b, s0.prefs.len() + widget_count(a)));
}

#[verifier::rlimit(40)]
proof fn lemma_populated_four(s0: LayoutSpec, s1: LayoutSpec, s2: LayoutSpec, s3: LayoutSpec, s4: LayoutSpec, def: LayoutDef)
    requires
        def is Grid4,
        populated(s0, s1, def->top_left.layout),
        populated(s1, s2, def->top_right.layout),
        populated(s2, s3, def->bottom_left.layout),
        populated(s3, s4, def->bottom_right.layout),
    ensures
        populated(s0, s4, def),
{
    let a = def->top_left.layout;
    let b = def->top_right.layout;
    let c = def->bottom_left.layout;
    let d = def->bottom_right.layout;
    lemma_populated_seq(s0, s1, s2, a, b);
    lemma_populated_seq(s2, s3, s4, c, d);
    lemma_hints_len(a);
    lemma_hints_len(b);
    lemma_hints_len(c);
    lemma_hints_len(d);
    let n0 = s0.prefs.len();
    let n2 = s2.prefs.len();
    assert(s4.prefs.subrange(0, n0 as int) =~= s4.prefs.subrange(0, n2 as int).subrange(0, n0 as int));
    assert(layout_hints(def) =~= (layout_hints(a) + layout_hints(b)) + (layout_hints(c) + layout_hints(d)));
    assert(layout_widgets(def) =~= (layout_widgets(a) + layout_widgets(b)) + (layout_widgets(c) + layout_widgets(d)));
    let wa = widget_count(a) + widget_count(b);
    assert forall|k: int| 0 <= k < widget_count(def) implies
        (#[trigger] layout_hints(def)[k] matches Some(h) ==> s4.prefs[n0 + k] == h) by {
        if k < wa {
            assert(layout_hints(def)[k] == (layout_hints(a) + layout_hints(b))[k]);
            assert(s4.prefs[n0 + k] == s4.prefs.subrange(0, n2 as int)[n0 + k]);
        } else {
            assert(layout_hints(def)[k] == (layout_hints(c) + layout_hints(d))[k - wa]);
        }
    }
    assert forall|k: int| 0 <= k < widget_count(def) implies
        (#[trigger] layout_hints(def)[k] is None ==> pref_from_def(s4.prefs[n0 + k], layout_widgets(def)[k])) by {
        if k < wa {
            assert(layout_hints(def)[k] == (layout_hints(a) + layout_hints(b))[k]);
            assert(layout_widgets(def)[k] == (layout_widgets(a) + layout_widgets(b))[k]);
            assert(s4.prefs[n0 + k] == s4.prefs.subrange(0, n2 as int)[n0 + k]);
        } else {
            assert(layout_hints(def)[k] == (layout_hints(c) + layout_hints(d))[k - wa]);
            assert(layout_widgets(def)[k] == (layout_widgets(c) + layout_widgets(d))[k - wa]);
        }
    }
    assert(s4.constraints =~= s0.constraints + layout_constraints(def, n0));
}

/// The elements of `v` in reverse order.
fn reverse_vec<T>(v: Vec<T>) -> (r: Vec<T>)
    ensures
        r@ == v@.reverse(),
{
    let ghost orig = v@;
    let mut v = v;
    let mut r: Vec<T> = Vec::new();
    assert(r@ + v@.reverse() =~= orig.reverse());
    while v.len() > 0
        invariant
            r@ + v@.reverse() == orig.reverse(),
        decreases v@.len(),
    {
        let ghost v0 = v@;
        let x = v.pop().unwrap();
        assert(v0.reverse() =~= seq![x] + v@.reverse());
        r.push(x);
        assert(r@ + v@.reverse() =~= orig.reverse());
    }
    assert(r@ =~= orig.reverse());
    r
}

/// The id of the last of `names` equal to `dst` (`CONTAINER` for the
/// layout's box), or none.
fn lookup_target(names: &Vec<String>, aids: &Vec<AnchorId>, dst: &String, Ghost(ws): Ghost<Seq<WidgetPlacement>>, Ghost(base): Ghost<nat>) -> (r: Option<AnchorId>)
    requires
        names@.len() == ws.len(),
        aids@.len() == ws.len(),
        forall|j: int| 0 <= j < ws.len() ==> #[trigger] names@[j]@ == ws[j].id@,
        forall|j: int| 0 <= j < ws.len() ==> #[trigger] aids@[j]@ == base + j + 1,
        base + ws.len() + 1 <= u32::MAX,
    ensures
        r == target_of(ws, base, dst@),
{
    let container_name = to_owned_string("CONTAINER");
    if *dst == container_name {
        proof { lemma_anchor_id(0, container_id()); }
        return Some(AnchorLayout::container());
    }
    let mut j: usize = names.len();
    assert(ws.take(ws.len() as int) =~= ws);
    while j > 0
        invariant
            j <= names@.len(),
            names@.len() == ws.len(),
            aids@.len() == ws.len(),
            forall|i: int| 0 <= i < ws.len() ==> #[trigger] names@[i]@ == ws[i].id@,
            forall|i: int| 0 <= i < ws.len() ==> #[trigger] aids@[i]@ == base + i + 1,
            base + ws.len() + 1 <= u32::MAX,
            dst@ != "CONTAINER"@,
            last_index_of(ws.take(j as int), dst@) == last_index_of(ws, dst@),
        decreases j,
    {
        j -= 1;
        assert(ws.take(j + 1).drop_last() =~= ws.take(j as int));
        assert(ws.take(j + 1).last() == ws[j as int]);
        if names[j] == *dst {
            let a = aids[j];
            proof {
                lemma_anchor_id((base + j + 1) as u32, a);
                assert(last_index_of(ws.take(j + 1), dst@) == Some(j as int));
            }
            return Some(a);
        }
    }
    assert(ws.take(0) =~= Seq::<WidgetPlacement>::empty());
    None
}

impl ScreenDef {
    /// Build a live `AnchorLayout` from this definition.
    ///
    /// If the layout strategy is `Anchor`, the constraints are wired up.
    /// Other strategies are flattened to a single-panel anchor layout.
    pub fn into_anchor_layout(self) -> (layout: AnchorLayout)
        requires
            widget_count(self.layout) + 2 <= u32::MAX,
        ensures
            layout.wf(),
            populated(LayoutSpec { width: self.width, height: self.height, prefs: Seq::empty(), constraints: Seq::empty() },
                layout@, self.layout),
            widgets_populated(Seq::empty(), layout.slots(), self.layout),
    {
        let mut layout = AnchorLayout::new(self.width, self.height);
        Self::populate_anchor(&mut layout, self.layout);
        layout
    }

    fn populate_anchor(layout: &mut AnchorLayout, def: LayoutDef)
        requires
            old(layout).wf(),
            old(layout)@.prefs.len() + widget_count(def) + 2 <= u32::MAX,
        ensures
            final(layout).wf(),
            populated(old(layout)@, final(layout)@, def),
            widgets_populated(old(layout).slots(), final(layout).slots(), def),
        decreases def,
    {
        let ghost s0 = layout@;
        let ghost w0 = layout.slots();
        proof { layout.lemma_slots_prefs(); }
        match def {
            LayoutDef::Anchor { widgets } => {
                Self::populate_placements(layout, widgets);
            },
            LayoutDef::Single { widget } => {
                let ghost wd = widget;
                let b = widget.build();
                // The size the layout records is the built widget's preferred size.
                let pref = b.preferred_size();
                let ghost g = b;
                let id = layout.add(Box::new(b), Some(pref));
                proof {
                    let ws = layout.slots();
                    assert(acts_as(&ws[w0.len() as int].widget, g));
                    assert(layout_widgets(def)[0] == wd);
                    assert(widget_built(&ws[w0.len() as int].widget, layout_widgets(def)[0]));
                }
                assert(built_from(g, wd) && g.preferred_size_spec() == layout@.prefs.last());
                assert(pref_from_def(layout@.prefs.last(), wd)) by {
                    reveal(pref_from_def);
                }
                proof { lemma_anchor_id((s0.prefs.len() + 1) as u32, id); }
                layout.fill(id, 0);
                assert(layout@.prefs.subrange(0, s0.prefs.len() as int) =~= s0.prefs);
                assert(layout@.constraints =~= s0.constraints + layout_constraints(def, s0.prefs.len()));
            },
            LayoutDef::HSplit { first, second, .. } => {
                let ghost a = first.layout;
                let ghost b = second.layout;
                Self::populate_anchor(layout, (*first).layout);
                let ghost s1 = layout@;
                let ghost w1 = layout.slots();
                Self::populate_anchor(layout, (*second).layout);
                proof {
                    lemma_populated_two(s0, s1, layout@, def);
                    lemma_widgets_seq(w0, w1, layout.slots(), layout_widgets(a), layout_widgets(b));
                    assert(layout_widgets(def) == layout_widgets(a) + layout_widgets(b));
                }
            },
            LayoutDef::VSplit { first, second, .. } => {
                let ghost a = first.layout;
                let ghost b = second.layout;
                Self::populate_anchor(layout, (*first).layout);
                let ghost s1 = layout@;
                let ghost w1 = layout.slots();
                Self::populate_anchor(layout, (*second).layout);
                proof {
                    lemma_populated_two(s0, s1, layout@, def);
                    lemma_widgets_seq(w0, w1, layout.slots(), layout_widgets(a), layout_widgets(b));
                    assert(layout_widgets(def) == layout_widgets(a) + layout_widgets(b));
                }
            },
            LayoutDef::Grid4 { top_left, top_right, bottom_left, bottom_right, .. } => {
                let ghost a = top_left.layout;
                let ghost b = top_right.layout;
                let ghost c = bottom_left.layout;
                let ghost d = bottom_right.layout;
                Self::populate_anchor(layout, (*top_left).layout);
                let ghost s1 = layout@;
                let ghost w1 = layout.slots();
                Self::populate_anchor(layout, (*top_right).layout);
                let ghost s2 = layout@;
                let ghost w2 = layout.slots();
                Self::populate_anchor(layout, (*bottom_left).layout);
                let ghost s3 = layout@;
                let ghost w3 = layout.slots();
                Self::populate_anchor(layout, (*bottom_right).layout);
                proof {
                    lemma_populated_four(s0, s1, s2, s3, layout@, def);
                    lemma_widgets_seq(w0, w1, w2, layout_widgets(a), layout_widgets(b));
                    lemma_widgets_seq(w0, w2, w3, layout_widgets(a) + layout_widgets(b), layout_widgets(c));
                    lemma_widgets_seq(w0, w3, layout.slots(), layout_widgets(a) + layout_widgets(b)
                        + layout_widgets(c), layout_widgets(d));
                    assert(layout_widgets(def) == layout_widgets(a) + layout_widgets(b) + layout_widgets(c)
                        + layout_widgets(d));
                }
            },
        }
    }

    /// Anchor placements: first every widget is added (so that a constraint
    /// may name a widget placed after it), then the constraints are wired.
    fn populate_placements(layout: &mut AnchorLayout, widgets: Vec<WidgetPlacement>)
        requires
            old(layout).wf(),
            old(layout)@.prefs.len() + widgets@.len() + 2 <= u32::MAX,
        ensures
            final(layout).wf(),
            populated(old(layout)@, final(layout)@, LayoutDef::Anchor { widgets }),
            widgets_populated(old(layout).slots(), final(layout).slots(), LayoutDef::Anchor { widgets }),
    {
        let ghost ws = widgets@;
        let ghost s0 = layout@;
        let ghost w0 = layout.slots();
        proof { layout.lemma_slots_prefs(); }
        let ghost base = s0.prefs.len();
        let n = widgets.len();
        let mut rest = reverse_vec(widgets);
        let mut names: Vec<String> = Vec::new();
        let mut cons: Vec<Vec<ConstraintDef>> = Vec::new();
        let mut aids: Vec<AnchorId> = Vec::new();
        let mut k: usize = 0;
        assert(ws.subrange(0, n as int) =~= ws);
        assert(layout@.prefs.subrange(0, base as int) =~= s0.prefs);
        while k < n
            invariant
                k <= n,
                n == ws.len(),
                base == s0.prefs.len(),
                base + n + 2 <= u32::MAX,
                rest@ == ws.subrange(k as int, n as int).reverse(),
                layout.wf(),
                layout@.width == s0.width,
                layout@.height == s0.height,
                layout@.constraints == s0.constraints,
                layout@.prefs.len() == base + k,
                layout@.prefs.subrange(0, base as int) == s0.prefs,
                forall|j: int| 0 <= j < k ==> (#[trigger] ws[j].size_hint matches Some(h) ==> layout@.prefs[base + j] == h),
                forall|j: int| 0 <= j < k ==> (#[trigger] ws[j].size_hint is None ==> pref_from_def(layout@.prefs[base + j],
                    ws[j].widget)),
                w0.len() == base,
                layout.slots().len() == base + k,
                forall|j: int| 0 <= j < base ==> #[trigger] layout.slots()[j] == w0[j],
                forall|j: int| 0 <= j < k ==> widget_built(&layout.slots()[base + j].widget, #[trigger] ws[j].widget),
                names@.len() == k,
                cons@.len() == k,
                aids@.len() == k,
                forall|j: int| 0 <= j < k ==> #[trigger] names@[j]@ == ws[j].id@,
                forall|j: int| 0 <= j < k ==> #[trigger] cons@[j] == ws[j].constraints,
                forall|j: int| 0 <= j < k ==> #[trigger] aids@[j]@ == base + j + 1,
            decreases n - k,
        {
            let ghost r0 = rest@;
            let p = rest.pop().unwrap();
            assert(r0.last() == ws[k as int]);
            assert(rest@ =~= ws.subrange(k + 1, n as int).reverse());
            let WidgetPlacement { id, widget, size_hint, constraints } = p;
            let ghost wd = widget;
            let b = widget.build();
            // Without a hint, the size the layout records is the built
            // widget's preferred size.
            let hint = match size_hint {
                Some(h) => Some(h),
                None => Some(b.preferred_size()),
            };
            let ghost g = b;
            let ghost before = layout@;
            let ghost wbefore = layout.slots();
            let aid = layout.add(Box::new(b), hint);
            proof {
                let wn = layout.slots();
                assert(acts_as(&wn[base + k].widget, g));
                assert(widget_built(&wn[base + k].widget, ws[k as int].widget));
                assert forall|j: int| 0 <= j < k implies widget_built(&wn[base + j].widget, #[trigger] ws[j].widget) by {
                    assert(wn[base + j] == wbefore[base + j]);
                }
                assert forall|j: int| 0 <= j < base implies #[trigger] wn[j] == w0[j] by {
                    assert(wn[j] == wbefore[j]);
                }
            }
            assert(built_from(g, wd));
            assert(size_hint is None ==> g.preferred_size_spec() == layout@.prefs.last());
            assert(size_hint is None ==> pref_from_def(layout@.prefs.last(), wd)) by {
                reveal(pref_from_def);
            }
            assert(layout@.prefs.subrange(0, base as int) =~= before.prefs.subrange(0, before.prefs.len() as int).subrange(0, base as int));
            assert forall|j: int| 0 <= j < k + 1 implies (#[trigger] ws[j].size_hint matches Some(h) ==> layout@.prefs[base + j] == h) by {
                if j < k {
                    assert(layout@.prefs[base + j] == layout@.prefs.subrange(0, before.prefs.len() as int)[base + j]);
                }
            }
            assert forall|j: int| 0 <= j < k + 1 implies (#[trigger] ws[j].size_hint is None ==> pref_from_def(
                layout@.prefs[base + j], ws[j].widget)) by {
                if j < k {
                    assert(layout@.prefs[base + j] == layout@.prefs.subrange(0, before.prefs.len() as int)[base + j]);
                }
            }
            names.push(id);
            cons.push(constraints);
            aids.push(aid);
            k += 1;
        }
        // Wire constraints.
        let ghost wf1 = layout.slots();
        let ghost c0 = layout@.constraints;
        let ghost p1 = layout@.prefs;
        let mut k: usize = 0;
        while k < n
            invariant
                k <= n,
                n == ws.len(),
                base + n + 2 <= u32::MAX,
                layout.wf(),
                layout@.width == s0.width,
                layout@.height == s0.height,
                layout@.prefs == p1,
                p1.len() == base + n,
                c0 == s0.constraints,
                names@.len() == n,
                cons@.len() == n,
                aids@.len() == n,
                forall|j: int| 0 <= j < n ==> #[trigger] names@[j]@ == ws[j].id@,
                forall|j: int| 0 <= j < n ==> #[trigger] cons@[j] == ws[j].constraints,
                forall|j: int| 0 <= j < n ==> #[trigger] aids@[j]@ == base + j + 1,
                layout@.constraints == c0 + anchor_constraints(ws, base, k as nat),
                layout.slots() == wf1,
            decreases n - k,
        {
            let cs = &cons[k];
            let src = aids[k];
            proof { lemma_anchor_id((base + k + 1) as u32, src); }
            let ghost at_k = layout@.constraints;
            let mut i: usize = 0;
            assert(cs@.take(0) =~= Seq::<ConstraintDef>::empty());
            assert(at_k + Seq::<Constraint>::empty() =~= at_k);
            while i < cs.len()
                invariant
                    i <= cs@.len(),
                    k < n,
                    n == ws.len(),
                    base + n + 2 <= u32::MAX,
                    *cs == ws[k as int].constraints,
                    src == anchor_id((base + k + 1) as u32),
                    layout.wf(),
                    layout@.width == s0.width,
                    layout@.height == s0.height,
                    layout@.prefs == p1,
                    names@.len() == n,
                    aids@.len() == n,
                    forall|j: int| 0 <= j < n ==> #[trigger] names@[j]@ == ws[j].id@,
                    forall|j: int| 0 <= j < n ==> #[trigger] aids@[j]@ == base + j + 1,
                    layout@.constraints == at_k + placement_constraints(ws, base, k as int, cs@.take(i as int)),
                    layout.slots() == wf1,
                decreases cs@.len() - i,
            {
                let c = &cs[i];
                assert(cs@.take(i + 1).drop_last() =~= cs@.take(i as int));
                assert(cs@.take(i + 1).last() == *c);
                let dst = lookup_target(&names, &aids, &c.dst, Ghost(ws), Ghost(base));
                match dst {
                    Some(d) => {
                        layout.constrain(src, c.src_edge.to_edge(), d, c.dst_edge.to_edge(), c.offset);
                    },
                    None => {},
                }
                i += 1;
            }
            assert(cs@.take(cs@.len() as int) =~= cs@);
            assert(layout@.constraints =~= c0 + anchor_constraints(ws, base, (k + 1) as nat));
            k += 1;
        }
        proof {
            assert(layout_hints(LayoutDef::Anchor { widgets }) == ws.map_values(|p: WidgetPlacement| p.size_hint));
        }
    }
}

} // verus!
