use vstd::prelude::*;
use crate::border::style::BorderStyle;
use crate::canvas::canvas::{lemma_unchanged_outside_no_rows, lemma_unchanged_outside_widen, print_spec, Canvas,
    CanvasModel};
use crate::color::types::{BasicColor, Color, StyleFlags};
use crate::demo::screens::{is_screen_panel, lemma_outer_frame_kept, lemma_panel_frames, outer_frame, owned, redrawn,
    screen_drawn, Action, ScreenId};
use crate::event::keys::Key;
use crate::term::caps::TermCaps;
use crate::widget::panel::{Align, Panel};
use crate::widget::table::Table;
use crate::widget::traits::Widget;
use crate::widget::wrap::views;

verus! {

/// A scrollable table of sample staff records.
pub struct TableDemo {
    scroll: usize,
}

impl View for TableDemo {
    type V = usize;

    /// The first table row shown.
    closed spec fn view(&self) -> usize {
        self.scroll
    }
}

/// The headers of the sample table.
pub open spec fn sample_headers() -> Seq<Seq<char>> {
    seq!["ID"@, "Name"@, "Role"@, "Department"@, "Status"@]
}

/// The twelve staff records of the sample table.
pub open spec fn sample_rows() -> Seq<Seq<Seq<char>>> {
    seq![
        seq!["001"@, "Alice Johnson"@, "Senior Engineer"@, "Platform"@, "Active"@],
        seq!["002"@, "Bob Smith"@, "Product Manager"@, "Product"@, "Active"@],
        seq!["003"@, "Carol White"@, "UX Designer"@, "Design"@, "On Leave"@],
        seq!["004"@, "David Brown"@, "DevOps Engineer"@, "Infra"@, "Active"@],
        seq!["005"@, "Eve Martinez"@, "Data Scientist"@, "Analytics"@, "Active"@],
        seq!["006"@, "Frank Lee"@, "QA Engineer"@, "Quality"@, "Inactive"@],
        seq!["007"@, "Grace Kim"@, "Tech Lead"@, "Platform"@, "Active"@],
        seq!["008"@, "Hank Turner"@, "Backend Engineer"@, "Platform"@, "Active"@],
        seq!["009"@, "Iris Chen"@, "Frontend Engineer"@, "Web"@, "Active"@],
        seq!["010"@, "Jack Wilson"@, "Security Analyst"@, "Security"@, "Active"@],
        seq!["011"@, "Karen Davis"@, "Scrum Master"@, "Delivery"@, "Active"@],
        seq!["012"@, "Liam Garcia"@, "ML Engineer"@, "Analytics"@, "Active"@],
    ]
}

/// `t` is the sample table scrolled to `scroll`: the twelve staff records
/// under their five headers, the ID and Status columns centred, in a single
/// cyan border, the header bold and underlined in bright yellow, every other
/// row on a dark background.
pub open spec fn is_sample_table(t: Table, scroll: usize) -> bool {
    &&& t.scroll_row == scroll
    &&& t.rows@.len() == 12
    &&& forall|i: int| 0 <= i < 12 ==> views(#[trigger] t.rows@[i]@) == sample_rows()[i]
    &&& t.headers matches Some(h) && views(h@) == sample_headers()
    &&& t.col_align@ == seq![Align::Center, Align::Left, Align::Left, Align::Left, Align::Center]
    &&& t.header_style@ == 0b0000_1001
    &&& t.border_style == BorderStyle::Single
    &&& t.border_fg == Color::Basic(BasicColor::Cyan, false)
    &&& t.alt_row_bg == Some(Color::Ansi256(235))
    &&& t.header_fg == Color::Basic(BasicColor::Yellow, true)
}

/// The inside `iw × ih` of the table screen drawn over `m1`: the dim help
/// line on row 0, then the sample table scrolled to `scroll` from row 2.
pub open spec fn table_screen_inner(caps: &TermCaps, scroll: usize, m1: CanvasModel, after: CanvasModel, iw: int,
    ih: int) -> bool {
    exists|t: Table| #[trigger] t.drawn(caps, table_help(m1, iw, ih), after, 1, 3, iw, table_rows_h(ih))
        && is_sample_table(t, scroll)
}

/// The table screen's help line printed over `m1` in its inside `iw × ih`.
pub open spec fn table_help(m1: CanvasModel, iw: int, ih: int) -> CanvasModel {
    print_spec(m1, 1, 1, iw, ih, 0, 0, " ↑ / ↓ scroll   Esc: back "@, Color::Basic(BasicColor::White, false),
        Color::Default, StyleFlags { bits: 2 })
}

/// The rows the table gets in an inside `ih` rows tall.
pub open spec fn table_rows_h(ih: int) -> int {
    if ih < 2 { 0 } else { ih - 2 }
}

/// The sample table, scrolled to `scroll`.
fn sample_table(scroll: usize) -> (t: Table)
    ensures
        is_sample_table(t, scroll),
{
    let mut rows: Vec<Vec<String>> = Vec::new();
    let ghost sr = sample_rows();
    rows.push(owned(&["001", "Alice Johnson", "Senior Engineer", "Platform", "Active"]));
    rows.push(owned(&["002", "Bob Smith", "Product Manager", "Product", "Active"]));
    rows.push(owned(&["003", "Carol White", "UX Designer", "Design", "On Leave"]));
    rows.push(owned(&["004", "David Brown", "DevOps Engineer", "Infra", "Active"]));
    rows.push(owned(&["005", "Eve Martinez", "Data Scientist", "Analytics", "Active"]));
    rows.push(owned(&["006", "Frank Lee", "QA Engineer", "Quality", "Inactive"]));
    rows.push(owned(&["007", "Grace Kim", "Tech Lead", "Platform", "Active"]));
    rows.push(owned(&["008", "Hank Turner", "Backend Engineer", "Platform", "Active"]));
    rows.push(owned(&["009", "Iris Chen", "Frontend Engineer", "Web", "Active"]));
    rows.push(owned(&["010", "Jack Wilson", "Security Analyst", "Security", "Active"]));
    rows.push(owned(&["011", "Karen Davis", "Scrum Master", "Delivery", "Active"]));
    rows.push(owned(&["012", "Liam Garcia", "ML Engineer", "Analytics", "Active"]));
    assert forall|i: int| 0 <= i < 12 implies views(#[trigger] rows@[i]@) == sample_rows()[i] by {
        assert(views(rows@[i]@) =~= sample_rows()[i]);
    }
    let hs = owned(&["ID", "Name", "Role", "Department", "Status"]);
    assert(views(hs@) =~= sample_headers());
    let mut table = Table::new()
        .headers(hs)
        .rows(rows)
        .col_align(vec![Align::Center, Align::Left, Align::Left, Align::Left, Align::Center])
        .border_style(BorderStyle::Single)
        .border_fg(Color::Basic(BasicColor::Cyan, false));
    table.scroll_row = scroll;
    table.alt_row_bg = Some(Color::Ansi256(235));
    table.header_fg = Color::Basic(BasicColor::Yellow, true);
    table.header_style = StyleFlags::bold().union(StyleFlags::underline());
    assert(1u8 | 8u8 == 9u8) by (bit_vector);
    table
}

impl TableDemo {
    pub fn new() -> (d: Self)
        ensures
            d@ == 0,
    {
        TableDemo { scroll: 0 }
    }

    /// A heavy green frame, a help line, and the table below it.
    pub fn render(&self, canvas: &mut Canvas, caps: &TermCaps)
        requires
            old(canvas)@.wf(),
            old(canvas)@.width + 2 <= u16::MAX,
        ensures
            redrawn(old(canvas)@, final(canvas)@),
            outer_frame(final(canvas)@, BorderStyle::Heavy, caps.unicode, Color::Basic(BasicColor::Green, true)),
            old(canvas)@.width >= 2 && old(canvas)@.height >= 2 ==> screen_drawn(caps, old(canvas)@, final(canvas)@,
                " Table Demo "@, BorderStyle::Heavy, Color::Basic(BasicColor::Green, true),
                (|m1: CanvasModel, m2: CanvasModel| table_screen_inner(caps, self@, m1, m2, old(canvas)@.width - 2,
                    old(canvas)@.height - 2))),
    {
        let w = canvas.width();
        let h = canvas.height();
        let ghost m0 = canvas@;
        let mut root = canvas.sub(0, 0, w, h);

        let outer = Panel::new()
            .title(" Table Demo ")
            .title_align(Align::Center)
            .border_style(BorderStyle::Heavy)
            .border_fg(Color::Basic(BasicColor::Green, true));
        outer.render(&mut root, caps);
        let ghost m1 = root.parent@;
        proof { lemma_panel_frames(outer, *caps, m1); }

        let inner_w = w.saturating_sub(2);
        let inner_h = h.saturating_sub(2);
        let mut inner = root.sub(1, 1, inner_w, inner_h);
        assert(inner.parent@ == m1);
        assert(w >= 2 && h >= 2 ==> inner.width == inner_w && inner.height == inner_h);

        // Help line
        inner.print(0, 0, " ↑ / ↓ scroll   Esc: back ", Color::Basic(BasicColor::White, false), Color::Default,
            StyleFlags::dim());

        let table = sample_table(self.scroll);
        let table_h = inner_h.saturating_sub(2);
        let ghost m2 = inner.parent@;
        let mut table_area = inner.sub(0, 2, inner_w, table_h);
        table.render(&mut table_area, caps);
        proof {
            if table_area.height == 0 {
                lemma_unchanged_outside_no_rows(m2, table_area.parent@, 1, 3, table_area.width as int,
                    1, 1, inner_w as int, inner_h as int);
            } else {
                lemma_unchanged_outside_widen(m2, table_area.parent@, 1, 3, table_area.width as int,
                    table_area.height as int, 1, 1, inner_w as int, inner_h as int);
            }
            lemma_outer_frame_kept(m1, table_area.parent@, BorderStyle::Heavy, caps.unicode,
                Color::Basic(BasicColor::Green, true));
            if w >= 2 && h >= 2 {
                assert(is_screen_panel(outer, " Table Demo "@, BorderStyle::Heavy, Color::Basic(BasicColor::Green, true)));
                assert(outer.drawn(caps, m0, m1, 0, 0, m0.width, m0.height));
                assert(table.drawn(caps, m2, table_area.parent@, 1, 3, inner_w as int,
                    if inner_h < 2 { 0 } else { inner_h - 2 }));
                assert(m2 == print_spec(m1, 1, 1, inner_w as int, inner_h as int, 0, 0, " ↑ / ↓ scroll   Esc: back "@,
                    Color::Basic(BasicColor::White, false), Color::Default, StyleFlags { bits: 2 }));
                let ghost th = table_rows_h(inner_h as int);
                let ghost pm = table_help(m1, inner_w as int, inner_h as int);
                assert(table.drawn(caps, pm, table_area.parent@, 1, 3, inner_w as int, th));
                assert(table_screen_inner(caps, self@, m1, table_area.parent@, inner_w as int, inner_h as int));
            }
        }
    }

    /// `Esc` / `q` go back to the main menu; the arrows scroll by a row.
    pub fn handle_key(&mut self, key: Key) -> (a: Action)
        requires
            key == Key::Down ==> old(self)@ < usize::MAX,
        ensures
            a == (if key == Key::Escape || key == Key::Char('q') { Action::GoTo(ScreenId::MainMenu) } else { Action::Continue }),
            final(self)@ == (if key == Key::Escape || key == Key::Char('q') {
                old(self)@
            } else if key == Key::Up {
                if old(self)@ > 0 { (old(self)@ - 1) as usize } else { 0 }
            } else if key == Key::Down {
                (old(self)@ + 1) as usize
            } else {
                old(self)@
            }),
    {
        match key {
            Key::Escape => Action::GoTo(ScreenId::MainMenu),
            Key::Char(c) => {
                if c == 'q' {
                    Action::GoTo(ScreenId::MainMenu)
                } else {
                    Action::Continue
                }
            },
            Key::Up => {
                self.scroll = self.scroll.saturating_sub(1);
                Action::Continue
            },
            Key::Down => {
                self.scroll += 1;
                Action::Continue
            },
            _ => Action::Continue,
        }
    }
}

} // verus!
