use console_ui::canvas::Canvas;
use console_ui::color::{BasicColor, Color};
use console_ui::demo::{
    layout_demo_key, render_layout_demo, snapshot_lines, Action, BorderDemo, ColorPalette, Gradients, LayoutDemoStep,
    LayoutMode, MainMenu, SaveToFile, ScreenId, TableDemo,
};
use console_ui::event::keys::Key;
use console_ui::term::caps::{ColorLevel, TermCaps};

fn caps() -> TermCaps {
    TermCaps { color_level: ColorLevel::TrueColor, unicode: true, cols: 80, rows: 24 }
}

fn row_text(c: &Canvas, row: u16) -> String {
    (0..c.width()).map(|col| c.get(col, row).ch).collect()
}

#[test]
fn main_menu_navigation() {
    let mut m = MainMenu::new();
    assert_eq!(m.handle_key(Key::Enter), Action::GoTo(ScreenId::BorderDemo));
    assert_eq!(m.handle_key(Key::Down), Action::Continue);
    assert_eq!(m.handle_key(Key::Enter), Action::GoTo(ScreenId::TableDemo));
    assert_eq!(m.handle_key(Key::Down), Action::Continue);
    assert_eq!(m.handle_key(Key::Down), Action::Continue);
    assert_eq!(m.handle_key(Key::Down), Action::Continue);
    assert_eq!(m.handle_key(Key::Enter), Action::GoTo(ScreenId::SaveToFile));
    assert_eq!(m.handle_key(Key::Down), Action::Continue);
    assert_eq!(m.handle_key(Key::Enter), Action::Continue);
    assert_eq!(m.handle_key(Key::End), Action::Continue);
    assert_eq!(m.handle_key(Key::Enter), Action::Quit);
    assert_eq!(m.handle_key(Key::Char('q')), Action::Quit);
    assert_eq!(m.handle_key(Key::Escape), Action::Quit);
}

#[test]
fn main_menu_render_shows_frame_logo_and_menu() {
    let m = MainMenu::new();
    let mut canvas = Canvas::new(60, 20);
    m.render(&mut canvas, &caps());
    assert_eq!(canvas.get(0, 0).ch, '╔');
    assert!(row_text(&canvas, 0).contains(" console-ui demo "));
    assert!(row_text(&canvas, 1).contains("_____"));
    assert!(row_text(&canvas, 8).contains("Arrow keys: navigate"));
    assert!(row_text(&canvas, 10).contains("> Border Style Preview"));
}

#[test]
fn border_demo_cycles_styles_and_themes() {
    let mut d = BorderDemo::new();
    let mut canvas = Canvas::new(70, 30);
    d.render(&mut canvas, &caps());
    assert!(row_text(&canvas, 1).starts_with("│ Style: ASCII     Theme: Default "));
    assert_eq!(d.handle_key(Key::Left), Action::Continue);
    assert_eq!(d.handle_key(Key::Up), Action::Continue);
    let mut canvas = Canvas::new(70, 30);
    d.render(&mut canvas, &caps());
    assert!(row_text(&canvas, 1).starts_with("│ Style: Heavy     Theme: White "));
    assert_eq!(d.handle_key(Key::Right), Action::Continue);
    assert_eq!(d.handle_key(Key::Down), Action::Continue);
    let mut canvas = Canvas::new(70, 30);
    d.render(&mut canvas, &caps());
    assert!(row_text(&canvas, 1).starts_with("│ Style: ASCII     Theme: Default "));
    assert_eq!(d.handle_key(Key::Escape), Action::GoTo(ScreenId::MainMenu));
}

#[test]
fn table_demo_scrolls() {
    let mut t = TableDemo::new();
    assert_eq!(t.handle_key(Key::Up), Action::Continue);
    assert_eq!(t.handle_key(Key::Down), Action::Continue);
    let mut canvas = Canvas::new(80, 20);
    t.render(&mut canvas, &caps());
    assert_eq!(canvas.get(0, 0).ch, '┏');
    assert!(row_text(&canvas, 4).contains("ID"));
    // Scrolled by one row: the first record shown is 002.
    assert!(row_text(&canvas, 6).contains("002"));
    assert_eq!(t.handle_key(Key::Char('q')), Action::GoTo(ScreenId::MainMenu));
}

#[test]
fn color_palette_pages() {
    let mut p = ColorPalette::new();
    let g = Gradients {
        hue: vec![(255, 0, 0), (0, 255, 0)],
        saturation: vec![(1, 1, 1)],
        value: vec![],
    };
    let mut canvas = Canvas::new(100, 20);
    p.render(&mut canvas, &caps(), &g);
    assert!(row_text(&canvas, 0).contains("ANSI Basic (page 1/3)"));
    assert!(row_text(&canvas, 3).contains(" Normal colors:"));
    assert_eq!(p.handle_key(Key::Left), Action::Continue);
    assert_eq!(p.handle_key(Key::Right), Action::Continue);
    let mut canvas = Canvas::new(100, 20);
    p.render(&mut canvas, &caps(), &g);
    assert!(row_text(&canvas, 0).contains("xterm 256-color (page 2/3)"));
    assert_eq!(canvas.get(1, 4).bg, Color::Ansi256(16));
    assert_eq!(p.handle_key(Key::Right), Action::Continue);
    assert_eq!(p.handle_key(Key::Right), Action::Continue);
    let mut canvas = Canvas::new(100, 20);
    p.render(&mut canvas, &caps(), &g);
    assert!(row_text(&canvas, 0).contains("True Color gradient (page 3/3)"));
    assert_eq!(canvas.get(3, 5).fg, Color::TrueColor(255, 0, 0));
    assert_eq!(canvas.get(4, 5).fg, Color::TrueColor(0, 255, 0));
    assert_eq!(canvas.get(5, 5).ch, ' ');
    assert_eq!(canvas.get(3, 8).fg, Color::TrueColor(1, 1, 1));
    assert_eq!(p.handle_key(Key::Escape), Action::GoTo(ScreenId::MainMenu));
}

#[test]
fn save_screen_edits_path_and_reports() {
    let mut s = SaveToFile::new();
    assert_eq!(s.path, "console-ui-snapshot.txt");
    assert_eq!(s.handle_key(Key::Char('e')), (Action::Continue, false));
    assert!(s.editing);
    assert_eq!(s.handle_key(Key::Backspace), (Action::Continue, false));
    assert_eq!(s.handle_key(Key::Char('x')), (Action::Continue, false));
    assert_eq!(s.path, "console-ui-snapshot.txx");
    assert_eq!(s.handle_key(Key::Char('q')), (Action::Continue, false));
    assert_eq!(s.path, "console-ui-snapshot.txxq");
    assert_eq!(s.handle_key(Key::Enter), (Action::Continue, false));
    assert!(!s.editing);
    assert_eq!(s.handle_key(Key::Char('s')), (Action::Continue, true));
    s.record_save(Ok(24));
    assert_eq!(s.status.as_deref(), Some("Saved 24 rows to 'console-ui-snapshot.txxq'"));
    s.record_save(Err("denied".to_string()));
    assert_eq!(s.status.as_deref(), Some("Error: denied"));
    assert_eq!(s.handle_key(Key::Char('e')), (Action::Continue, false));
    assert_eq!(s.status, None);
    assert_eq!(s.handle_key(Key::Escape), (Action::Continue, false));
    assert_eq!(s.handle_key(Key::Escape), (Action::GoTo(ScreenId::MainMenu), false));
    let mut canvas = Canvas::new(60, 12);
    s.record_save(Ok(3));
    s.render(&mut canvas, &caps());
    assert!(row_text(&canvas, 8).contains("Saved 3 rows"));
    assert_eq!(canvas.get(1, 8).fg, Color::Basic(BasicColor::Green, true));
}

#[test]
fn snapshot_is_plain_text_without_trailing_spaces() {
    let mut canvas = Canvas::new(6, 3);
    {
        let mut sub = canvas.sub(0, 0, 6, 3);
        sub.print(0, 0, "ab", Color::Default, Color::Default, console_ui::color::StyleFlags::empty());
        sub.print(1, 2, "日x", Color::Default, Color::Default, console_ui::color::StyleFlags::empty());
    }
    assert_eq!(snapshot_lines(&canvas), vec!["ab".to_string(), "".to_string(), " 日x".to_string()]);
}

#[test]
fn layout_demo_keys() {
    let s = layout_demo_key(LayoutMode::Four, false, Key::Char('2'));
    assert_eq!(s, LayoutDemoStep { mode: LayoutMode::Two, resize_mode: false, h_step: 0, v_step: 0, action: Action::Continue });
    let s = layout_demo_key(LayoutMode::Two, false, Key::Char('r'));
    assert!(s.resize_mode);
    let s = layout_demo_key(LayoutMode::Two, true, Key::Left);
    assert_eq!((s.h_step, s.v_step, s.resize_mode), (-1, 0, true));
    let s = layout_demo_key(LayoutMode::Two, true, Key::Escape);
    assert_eq!((s.resize_mode, s.action), (false, Action::Continue));
    let s = layout_demo_key(LayoutMode::Two, false, Key::Escape);
    assert_eq!(s.action, Action::GoTo(ScreenId::MainMenu));
    let s = layout_demo_key(LayoutMode::Two, true, Key::Char('s'));
    assert_eq!(s.action, Action::GoTo(ScreenId::SaveToFile));
}

#[test]
fn layout_demo_render_four_panes() {
    let mut canvas = Canvas::new(20, 11);
    render_layout_demo(&mut canvas, &caps(), LayoutMode::Four, true, 10, 5);
    assert_eq!(canvas.get(10, 5).ch, '◆');
    assert_eq!(canvas.get(10, 0).ch, '│');
    assert_eq!(canvas.get(0, 5).ch, '─');
    assert_eq!(canvas.get(0, 0).ch, '╭');
    assert!(row_text(&canvas, 10).starts_with(" RESIZE MODE"));
}

#[test]
fn screens_keep_their_frame() {
    let mut canvas = Canvas::new(40, 12);
    SaveToFile::new().render(&mut canvas, &caps());
    assert_eq!(canvas.get(0, 0).ch, '╔');
    for r in 1..11 {
        assert_eq!(canvas.get(0, r).ch, '║');
        assert_eq!(canvas.get(0, r).fg, Color::Basic(BasicColor::Yellow, true));
    }
    assert_eq!(row_text(&canvas, 11), format!("╚{}╝", "═".repeat(38)));

    let ascii = TermCaps { color_level: ColorLevel::NoColor, unicode: false, cols: 40, rows: 12 };
    let mut canvas = Canvas::new(40, 12);
    TableDemo::new().render(&mut canvas, &ascii);
    assert_eq!(canvas.get(0, 0).ch, '+');
    assert_eq!(canvas.get(0, 5).ch, '|');
    assert_eq!(row_text(&canvas, 11), format!("+{}+", "-".repeat(38)));
}

#[test]
fn layout_demo_status_bar_stays_on_the_last_row() {
    let mut canvas = Canvas::new(30, 4);
    render_layout_demo(&mut canvas, &caps(), LayoutMode::Two, false, 15, 0);
    assert!(row_text(&canvas, 3).starts_with(" 2: 2-pane   3: 3-pane"));
    assert_eq!(canvas.get(0, 3).bg, Color::Basic(BasicColor::Cyan, false));
}

#[test]
fn main_menu_cursor_starts_on_the_first_item() {
    let m = MainMenu::new();
    let mut c = Canvas::new(80, 24);
    m.render(&mut c, &caps());
    assert_eq!(c.get(3, 10).ch, '>');
    assert_eq!(c.get(3, 10).style.bits(), 0b0010_0001);
    assert_eq!(c.get(5, 10).ch, 'B');
    assert_eq!(c.get(5, 11).ch, 'T');
    assert_eq!(c.get(3, 11).style.bits(), 0);
}

#[test]
fn border_demo_preview_box_uses_the_selected_style() {
    let d = BorderDemo::new();
    let mut c = Canvas::new(80, 24);
    d.render(&mut c, &caps());
    assert_eq!(c.get(10, 3).ch, '+');
    assert_eq!(c.get(69, 3).ch, '+');
    assert_eq!(c.get(10, 21).ch, '+');
    assert_eq!(c.get(69, 21).ch, '+');
    assert_eq!(c.get(11, 21).ch, '-');
    assert_eq!(c.get(10, 4).ch, '|');
}

#[test]
fn table_demo_scroll_is_clamped_to_the_last_row() {
    let mut d = TableDemo::new();
    for _ in 0..20 {
        d.handle_key(Key::Down);
    }
    let mut c = Canvas::new(80, 24);
    d.render(&mut c, &caps());
    assert_eq!(c.get(3, 4).ch, 'I');
    assert_eq!(c.get(3, 6).ch, '0');
    assert_eq!(c.get(4, 6).ch, '1');
    assert_eq!(c.get(5, 6).ch, '2');
    assert_eq!(c.get(3, 7).ch, ' ');
}

#[test]
fn border_demo_selector_row_highlights_the_selected_style() {
    let d = BorderDemo::new();
    let mut c = Canvas::new(80, 30);
    d.render(&mut c, &caps());
    assert_eq!(c.get(4, 24).ch, 'A');
    assert_eq!(c.get(4, 24).style.bits(), 32);
    assert_eq!(c.get(12, 24).ch, 'S');
    assert_eq!(c.get(12, 24).style.bits(), 0);
    assert_eq!(c.get(12, 4).ch, 'T');
    assert_eq!(c.get(13, 4).ch, 'h');
}
