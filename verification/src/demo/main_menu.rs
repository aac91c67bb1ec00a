use vstd::prelude::*;
use crate::border::style::BorderStyle;
use crate::canvas::canvas::{lemma_unchanged_outside_no_rows, lemma_unchanged_outside_refl,
    lemma_unchanged_outside_trans, lemma_unchanged_outside_widen, min_sat, print_spec, unchanged_outside, Canvas,
    CanvasModel};
use crate::color::types::{BasicColor, Color, StyleFlags};
use crate::demo::screens::{is_screen_panel, lemma_outer_frame_kept, lemma_panel_frames, outer_frame, owned, redrawn,
    screen_drawn, Action, ScreenId};
use crate::event::keys::Key;
use crate::term::caps::TermCaps;
use crate::widget::menu::{lemma_menu_rows_no_columns, menu_key_spec, Menu};
use crate::widget::panel::{Align, Panel};
use crate::widget::traits::{InteractiveWidget, Widget};
use crate::widget::wrap::views;

verus! {

/// The labels of the main menu's entries, in order; the empty one separates
/// `Quit`.
pub open spec fn main_menu_labels() -> Seq<Seq<char>> {
    seq![
        "Border Style Preview"@,
        "Table Demo"@,
        "Layout Demo (2 / 3 / 4 Panes)"@,
        "Color Palette"@,
        "Save Current View to File"@,
        ""@,
        "Quit"@,
    ]
}

/// The menu entries, in order; the empty one separates `Quit`.
pub fn menu_items() -> (v: Vec<String>)
    ensures
        v@.len() == 7,
        views(v@) == main_menu_labels(),
{
    let v = owned(&[
        "Border Style Preview",
        "Table Demo",
        "Layout Demo (2 / 3 / 4 Panes)",
        "Color Palette",
        "Save Current View to File",
        "",
        "Quit",
    ]);
    assert(views(v@) =~= main_menu_labels());
    v
}

/// The lines of the logo.
pub open spec fn logo_text() -> Seq<Seq<char>> {
    seq![
        "   _____                      _       _    _ _"@,
        "  / ____|                    | |     | |  | |_|"@,
        " | |     ___  _ __  ___  ___ | | ___ | |  | |_"@,
        " | |    / _ \\| '_ \\/ __|/ _ \\| |/ _ \\| |  | | |"@,
        " | |___| (_) | | | \\__ \\ (_) | |  __/| |__| | |"@,
        "  \\_____\\___/|_| |_|___/\\___/|_|\\___| \\____/|_|"@,
    ]
}

/// The first `n` logo lines printed in cyan on the rows of the inner
/// region `iw × ih` at `(1, 1)`.
pub open spec fn logo_rows(m: CanvasModel, iw: int, ih: int, n: int) -> CanvasModel
    decreases n,
{
    if n <= 0 {
        m
    } else {
        print_spec(logo_rows(m, iw, ih, n - 1), 1, 1, iw, ih, 0, n - 1, logo_text()[n - 1],
            Color::Basic(BasicColor::Cyan, false), Color::Default, StyleFlags { bits: 0 })
    }
}

/// The inner region `iw × ih` of the main menu drawn over `m1`: the logo
/// lines that fit, the dim help line on row 7 when there is room below it,
/// and the menu from row 9 when there is room for it.
pub open spec fn main_menu_inner(menu: Menu, caps: &TermCaps, m1: CanvasModel, after: CanvasModel, iw: int, ih: int)
    -> bool {
    let a = logo_rows(m1, iw, ih, if ih < 6 { ih } else { 6 });
    let b = if 8 < ih {
        print_spec(a, 1, 1, iw, ih, 1, 7, " Arrow keys: navigate   Enter: select   q: quit "@,
            Color::Basic(BasicColor::White, false), Color::Default, StyleFlags { bits: 2 })
    } else {
        a
    };
    if ih > 9 {
        menu.drawn(caps, b, after, 3, 10, min_sat(if iw < 4 { 0 } else { iw - 4 }, iw, 2), ih - 9)
    } else {
        after == b
    }
}

fn logo_lines() -> (v: Vec<&'static str>)
    ensures
        v@.len() == 6,
        v@[0]@ == logo_text()[0],
        v@[1]@ == logo_text()[1],
        v@[2]@ == logo_text()[2],
        v@[3]@ == logo_text()[3],
        v@[4]@ == logo_text()[4],
        v@[5]@ == logo_text()[5],
{
    vec![
        "   _____                      _       _    _ _",
        "  / ____|                    | |     | |  | |_|",
        " | |     ___  _ __  ___  ___ | | ___ | |  | |_",
        " | |    / _ \\| '_ \\/ __|/ _ \\| |/ _ \\| |  | | |",
        " | |___| (_) | | | \\__ \\ (_) | |  __/| |__| | |",
        "  \\_____\\___/|_| |_|___/\\___/|_|\\___| \\____/|_|",
    ]
}

/// The screen an entry of the main menu leads to.
pub open spec fn main_menu_action(selected: usize, key: Key) -> Action {
    if key == Key::Char('q') || key == Key::Escape {
        Action::Quit
    } else if key == Key::Enter {
        if selected == 0 {
            Action::GoTo(ScreenId::BorderDemo)
        } else if selected == 1 {
            Action::GoTo(ScreenId::TableDemo)
        } else if selected == 2 {
            Action::GoTo(ScreenId::LayoutDemo)
        } else if selected == 3 {
            Action::GoTo(ScreenId::ColorPalette)
        } else if selected == 4 {
            Action::GoTo(ScreenId::SaveToFile)
        } else if selected == 6 {
            Action::Quit
        } else {
            Action::Continue
        }
    } else {
        Action::Continue
    }
}

/// The opening screen: a logo and the menu of demonstrations.
pub struct MainMenu {
    menu: Menu,
}

impl View for MainMenu {
    type V = Menu;

    /// The menu of the screen.
    closed spec fn view(&self) -> Menu {
        self.menu
    }
}

impl MainMenu {
    pub fn new() -> (m: Self)
        ensures
            m@.items@.len() == 7,
            views(m@.items@) == main_menu_labels(),
            m@.cursor == 0,
            m@.scroll_offset == 0,
            m@.focused,
            m@.fg == Color::Default,
            m@.bg == Color::Default,
            m@.cursor_fg == Color::Default,
            m@.cursor_bg == Color::Default,
            m@.cursor_style@ == 0b0010_0001,
            m@.prefix_normal@ == seq![' ', ' '],
            m@.prefix_cursor@ == seq!['>', ' '],
    {
        let mut menu = Menu::new(menu_items());
        menu.cursor_style = StyleFlags::reverse().union(StyleFlags::bold());
        assert(32u8 | 1u8 == 33u8) by (bit_vector);
        MainMenu { menu }
    }

    /// A double cyan frame with the logo, a help line and the menu.
    pub fn render(&self, canvas: &mut Canvas, caps: &TermCaps)
        requires
            old(canvas)@.wf(),
            old(canvas)@.width + 2 <= u16::MAX,
        ensures
            redrawn(old(canvas)@, final(canvas)@),
            outer_frame(final(canvas)@, BorderStyle::Double, caps.unicode, Color::Basic(BasicColor::Cyan, true)),
            old(canvas)@.width >= 2 && old(canvas)@.height >= 2 ==> screen_drawn(caps, old(canvas)@, final(canvas)@,
                " console-ui demo "@, BorderStyle::Double, Color::Basic(BasicColor::Cyan, true),
                (|m1: CanvasModel, m2: CanvasModel| main_menu_inner(self@, caps, m1, m2, old(canvas)@.width - 2,
                    old(canvas)@.height - 2))),
    {
        let w = canvas.width();
        let h = canvas.height();
        let ghost m0 = canvas@;
        let mut root = canvas.sub(0, 0, w, h);

        // Outer panel
        let panel = Panel::new()
            .title(" console-ui demo ")
            .title_align(Align::Center)
            .border_style(BorderStyle::Double)
            .border_fg(Color::Basic(BasicColor::Cyan, true));
        panel.render(&mut root, caps);
        let ghost m1 = root.parent@;
        proof { lemma_panel_frames(panel, *caps, m1); }
        assert(is_screen_panel(panel, " console-ui demo "@, BorderStyle::Double, Color::Basic(BasicColor::Cyan, true)));

        // Logo (inner area starts at row 1, col 1)
        let inner_w = w.saturating_sub(2);
        let inner_h = h.saturating_sub(2);
        let mut inner = root.sub(1, 1, inner_w, inner_h);
        let ghost iw = inner.width as int;
        let ghost ih = inner.height as int;
        proof { lemma_unchanged_outside_refl(m1, 1, 1, iw, ih); }
        assert(inner_h == ih);

        let ghost inner_final = *final(inner.parent);
        let logo = logo_lines();
        assert(forall|k: int| 0 <= k < 6 ==> (#[trigger] logo@[k])@ == logo_text()[k]) by {
            assert(logo@[0]@ == logo_text()[0]);
        }
        let mut i: usize = 0;
        while i < logo.len()
            invariant
                i <= logo@.len(),
                logo@.len() == 6,
                inner.wf(),
                inner.origin_col == 1,
                inner.origin_row == 1,
                inner.width + 2 <= u16::MAX,
                *final(inner.parent) == inner_final,
                inner.parent@.width == w,
                inner.parent@.height == h,
                inner.width == iw,
                inner.height == ih,
                unchanged_outside(m1, inner.parent@, 1, 1, iw, ih),
                i as int <= ih,
                inner_h == ih,
                forall|k: int| 0 <= k < 6 ==> (#[trigger] logo@[k])@ == logo_text()[k],
                inner.parent@ == logo_rows(m1, iw, ih, i as int),
                w >= 2 ==> iw == w - 2,
                h >= 2 ==> ih == h - 2,
            ensures
                i == (if ih < 6 { ih } else { 6 }),
                inner.wf(),
                inner.origin_col == 1,
                inner.origin_row == 1,
                *final(inner.parent) == inner_final,
                inner.parent@.width == w,
                inner.parent@.height == h,
                inner.width == iw,
                inner.height == ih,
                unchanged_outside(m1, inner.parent@, 1, 1, iw, ih),
                inner.parent@ == logo_rows(m1, iw, ih, i as int),
            decreases logo@.len() - i,
        {
            if i as u16 >= inner_h {
                break;
            }
            let ghost mb = inner.parent@;
            inner.print(0, i as u16, logo[i], Color::Basic(BasicColor::Cyan, false), Color::Default, StyleFlags::empty());
            proof { lemma_unchanged_outside_trans(m1, mb, inner.parent@, 1, 1, iw, ih); }
            i += 1;
        }

        let ghost ma = inner.parent@;
        let logo_h: u16 = 6 + 1;

        // Help line
        let help = " Arrow keys: navigate   Enter: select   q: quit ";
        if logo_h + 1 < inner_h {
            let ghost mb = inner.parent@;
            inner.print(1, logo_h, help, Color::Basic(BasicColor::White, false), Color::Default, StyleFlags::dim());
            proof { lemma_unchanged_outside_trans(m1, mb, inner.parent@, 1, 1, iw, ih); }
        }
        let ghost mh = inner.parent@;

        // Menu
        let menu_y = logo_h + 2;
        let menu_h = inner_h.saturating_sub(menu_y);
        if menu_h > 0 {
            let ghost mb = inner.parent@;
            let mut menu_area = inner.sub(2, menu_y, inner_w.saturating_sub(4), menu_h);
            self.menu.render(&mut menu_area, caps);
            proof {
                if menu_area.height == 0 {
                    lemma_unchanged_outside_no_rows(mb, menu_area.parent@, 3, 1 + menu_y, menu_area.width as int,
                        1, 1, iw, ih);
                } else if menu_area.width == 0 {
                    lemma_menu_rows_no_columns(mb, 3, 1 + menu_y, menu_area.height as int, &self.menu,
                        menu_area.height as int);
                    lemma_unchanged_outside_refl(mb, 1, 1, iw, ih);
                } else {
                    lemma_unchanged_outside_widen(mb, menu_area.parent@, 3, 1 + menu_y, menu_area.width as int,
                        menu_area.height as int, 1, 1, iw, ih);
                }
                lemma_unchanged_outside_trans(m1, mb, menu_area.parent@, 1, 1, iw, ih);
                assert(self.menu.drawn(caps, mh, menu_area.parent@, 3, 10, menu_area.width as int,
                    menu_area.height as int));
            }
        }
        proof {
            if w >= 2 && h >= 2 {
                assert(main_menu_inner(self@, caps, m1, inner.parent@, iw, ih));
                assert(panel.drawn(caps, m0, m1, 0, 0, m0.width, m0.height));
            }
        }
        proof {
            if w >= 2 && h >= 2 {
                lemma_outer_frame_kept(m1, inner.parent@, BorderStyle::Double, caps.unicode,
                    Color::Basic(BasicColor::Cyan, true));
            }
        }
    }

    /// `q` / `Esc` quit; `Enter` opens the selected entry; other keys move
    /// the menu's cursor.
    pub fn handle_key(&mut self, key: Key) -> (a: Action)
        ensures
            a == main_menu_action(old(self)@.cursor, key),
            (key == Key::Char('q') || key == Key::Escape || key == Key::Enter) ==> final(self)@ == old(self)@,
            !(key == Key::Char('q') || key == Key::Escape || key == Key::Enter) ==> {
                &&& final(self)@.cursor == menu_key_spec(old(self)@.cursor, old(self)@.items@.len() as usize, key).0
                &&& final(self)@.items == old(self)@.items
            },
    {
        match key {
            Key::Escape => return Action::Quit,
            Key::Char(c) => {
                if c == 'q' {
                    return Action::Quit;
                }
                self.menu.handle_key(key);
            },
            Key::Enter => {
                let sel = self.menu.selected();
                return if sel == 0 {
                    Action::GoTo(ScreenId::BorderDemo)
                } else if sel == 1 {
                    Action::GoTo(ScreenId::TableDemo)
                } else if sel == 2 {
                    Action::GoTo(ScreenId::LayoutDemo)
                } else if sel == 3 {
                    Action::GoTo(ScreenId::ColorPalette)
                } else if sel == 4 {
                    Action::GoTo(ScreenId::SaveToFile)
                } else if sel == 6 {
                    Action::Quit
                } else {
                    Action::Continue
                };
            },
            _ => {
                self.menu.handle_key(key);
            },
        }
        Action::Continue
    }
}

} // verus!
