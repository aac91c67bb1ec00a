use console_ui::canvas::{Canvas, Cell, CellDraw, Renderer};
use console_ui::color::{BasicColor, Color, StyleFlags};
use console_ui::event::keys::{translate, translate_key, InputEvent, Key, RawKey};
use console_ui::layout::split::{
    clamp_div, render_hsplit, render_split3, render_split4, render_vsplit, split2_key, split4_key, Pane2, Pane4,
    Split2Step, Split3Kind, Split4Step,
};
use console_ui::term::caps::{ColorLevel, TermCaps, TermEnv};
use console_ui::text::{str_contains, str_starts_with, trim_end, u16_to_string};
use console_ui::widget::{Panel, Table, Widget};

fn env() -> TermEnv {
    TermEnv {
        no_color: false,
        term: String::new(),
        colorterm: String::new(),
        wt_session: false,
        term_program: String::new(),
        lc_all: None,
        lc_ctype: None,
        lang: None,
        windows: false,
    }
}

fn caps(level: ColorLevel) -> TermCaps {
    TermCaps { color_level: level, unicode: true, cols: 4, rows: 2 }
}

fn row_text(c: &Canvas, row: u16) -> String {
    (0..c.width()).map(|col| c.get(col, row).ch).collect()
}

// ---------------------------------------------------------------------------
// Capability detection
// ---------------------------------------------------------------------------

#[test]
fn no_color_strips_everything() {
    let mut e = env();
    e.no_color = true;
    e.term = "xterm-256color".into();
    e.lang = Some("en_US.UTF-8".into());
    let c = TermCaps::detect(&e, 100, 30);
    assert_eq!(c.color_level, ColorLevel::NoColor);
    assert!(!c.unicode);
    assert_eq!((c.cols, c.rows), (100, 30));
}

#[test]
fn dumb_or_missing_term_gets_no_color_but_may_draw_unicode() {
    let mut e = env();
    e.lang = Some("en_US.UTF-8".into());
    let c = TermCaps::detect(&e, 80, 24);
    assert_eq!(c.color_level, ColorLevel::NoColor);
    assert!(c.unicode);
    e.term = "dumb".into();
    e.lang = Some("C".into());
    let c = TermCaps::detect(&e, 80, 24);
    assert_eq!(c.color_level, ColorLevel::NoColor);
    assert!(!c.unicode);
}

#[test]
fn color_level_signals_in_order() {
    let mut e = env();
    e.term = "vt100".into();
    assert_eq!(TermCaps::detect(&e, 80, 24).color_level, ColorLevel::Vt100Basic);
    e.term = "xterm".into();
    assert_eq!(TermCaps::detect(&e, 80, 24).color_level, ColorLevel::Ansi256);
    e.term = "screen-256color".into();
    assert_eq!(TermCaps::detect(&e, 80, 24).color_level, ColorLevel::Ansi256);
    e.term = "screen".into();
    e.term_program = "iTerm.app".into();
    assert_eq!(TermCaps::detect(&e, 80, 24).color_level, ColorLevel::TrueColor);
    e.term_program = "Apple_Terminal".into();
    assert_eq!(TermCaps::detect(&e, 80, 24).color_level, ColorLevel::Ansi256);
    e.colorterm = "TrueColor".into();
    assert_eq!(TermCaps::detect(&e, 80, 24).color_level, ColorLevel::TrueColor);
    e.colorterm = "24BIT".into();
    assert_eq!(TermCaps::detect(&e, 80, 24).color_level, ColorLevel::TrueColor);
    e.colorterm = "yes".into();
    e.term_program = String::new();
    e.wt_session = true;
    assert_eq!(TermCaps::detect(&e, 80, 24).color_level, ColorLevel::TrueColor);
}

#[test]
fn unicode_from_locale_or_windows_terminal() {
    let mut e = env();
    e.term = "xterm".into();
    assert!(!TermCaps::detect(&e, 80, 24).unicode);
    e.lc_ctype = Some("C.utf8".into());
    assert!(TermCaps::detect(&e, 80, 24).unicode);
    e.lc_ctype = None;
    e.wt_session = true;
    assert!(!TermCaps::detect(&e, 80, 24).unicode);
    e.windows = true;
    assert!(TermCaps::detect(&e, 80, 24).unicode);
}

#[test]
fn string_helpers() {
    assert!(str_contains("xterm-256color", "256color"));
    assert!(!str_contains("xterm", "256color"));
    assert!(str_contains("abc", ""));
    assert!(str_starts_with("rxvt-unicode-256color", "rxvt-unicode"));
    assert!(!str_starts_with("rx", "rxvt"));
    assert_eq!(trim_end(&"ab \t\n".to_string()), "ab");
    assert_eq!(trim_end(&"   ".to_string()), "");
    assert_eq!(u16_to_string(0), "0");
    assert_eq!(u16_to_string(65535), "65535");
    assert_eq!(u16_to_string(120), "120");
}

// ---------------------------------------------------------------------------
// Keys
// ---------------------------------------------------------------------------

#[test]
fn key_translation() {
    assert_eq!(translate_key(RawKey::Char('c'), true, false), Key::Ctrl('c'));
    assert_eq!(translate_key(RawKey::Char('x'), false, true), Key::Alt('x'));
    assert_eq!(translate_key(RawKey::Char('x'), true, true), Key::Ctrl('x'));
    assert_eq!(translate_key(RawKey::Char('a'), false, false), Key::Char('a'));
    assert_eq!(translate_key(RawKey::Esc, true, true), Key::Escape);
    assert_eq!(translate_key(RawKey::F(5), false, false), Key::F(5));
    assert_eq!(translate_key(RawKey::Other, false, false), Key::Unknown);
    let press = InputEvent::Key { code: RawKey::Enter, ctrl: false, alt: false, press: true };
    let release = InputEvent::Key { code: RawKey::Enter, ctrl: false, alt: false, press: false };
    assert_eq!(translate(press), Some(Key::Enter));
    assert_eq!(translate(release), None);
    assert_eq!(translate(InputEvent::Resize(100, 40)), Some(Key::Resize(100, 40)));
    assert_eq!(translate(InputEvent::Other), None);
}

// ---------------------------------------------------------------------------
// Renderer
// ---------------------------------------------------------------------------

#[test]
fn renderer_draws_only_changed_cells() {
    let mut r = Renderer::new(caps(ColorLevel::TrueColor));
    let mut canvas = Canvas::new(4, 2);
    canvas.set(1, 0, Cell { ch: 'a', fg: Color::Ansi256(9), bg: Color::Default, style: StyleFlags::bold(), wide_continuation: false });
    canvas.set(3, 1, Cell { ch: 'b', fg: Color::Default, bg: Color::Default, style: StyleFlags::empty(), wide_continuation: false });
    let draws = r.render(&canvas);
    assert_eq!(draws, vec![
        CellDraw { col: 1, row: 0, ch: 'a', fg: Color::Ansi256(9), bg: Color::Default, style: StyleFlags::bold() },
        CellDraw { col: 3, row: 1, ch: 'b', fg: Color::Default, bg: Color::Default, style: StyleFlags::empty() },
    ]);
    // The same frame again: nothing to draw.
    assert!(r.render(&canvas).is_empty());
    // A change of one cell draws just that cell.
    canvas.set(0, 0, Cell { ch: 'z', fg: Color::Default, bg: Color::Default, style: StyleFlags::empty(), wide_continuation: false });
    assert_eq!(r.render(&canvas).len(), 1);
}

#[test]
fn renderer_downgrades_colors_and_skips_continuations() {
    let mut r = Renderer::new(caps(ColorLevel::NoColor));
    let mut canvas = Canvas::new(4, 2);
    canvas.set(0, 0, Cell { ch: '日', fg: Color::TrueColor(1, 2, 3), bg: Color::Basic(BasicColor::Red, false), style: StyleFlags::empty(), wide_continuation: false });
    let draws = r.render(&canvas);
    assert_eq!(draws, vec![CellDraw { col: 0, row: 0, ch: '日', fg: Color::Default, bg: Color::Default, style: StyleFlags::empty() }]);
}

#[test]
fn force_render_redraws_every_cell() {
    let mut r = Renderer::new(caps(ColorLevel::TrueColor));
    let mut canvas = Canvas::new(4, 2);
    canvas.set(2, 1, Cell { ch: 'q', fg: Color::Default, bg: Color::Default, style: StyleFlags::empty(), wide_continuation: false });
    assert_eq!(r.render(&canvas).len(), 1);
    assert_eq!(r.force_render(&canvas).len(), 8);
    r.clear_screen();
    assert_eq!(r.render(&canvas).len(), 1);
}

#[test]
fn force_render_draws_a_blank_canvas() {
    let mut r = Renderer::new(caps(ColorLevel::TrueColor));
    let canvas = Canvas::new(1, 1);
    assert_eq!(r.force_render(&canvas).len(), 1);
}

#[test]
fn diff_does_not_commit() {
    let mut r = Renderer::new(caps(ColorLevel::TrueColor));
    let mut canvas = Canvas::new(3, 1);
    canvas.set(0, 0, Cell { ch: 'x', fg: Color::Default, bg: Color::Default, style: StyleFlags::empty(), wide_continuation: false });
    assert_eq!(r.diff(&canvas).len(), 1);
    assert_eq!(r.diff(&canvas).len(), 1);
    r.commit(&canvas);
    assert!(r.diff(&canvas).is_empty());
}

#[test]
fn wide_char_in_last_column_of_view_stays_inside() {
    let mut c = Canvas::new(4, 1);
    {
        let mut sub = c.sub(0, 0, 2, 1);
        sub.set(1, 0, Cell { ch: '日', fg: Color::Default, bg: Color::Default, style: StyleFlags::empty(), wide_continuation: false });
    }
    assert_eq!(c.get(1, 0).ch, '日');
    assert!(!c.get(2, 0).wide_continuation);
}

// ---------------------------------------------------------------------------
// Splits
// ---------------------------------------------------------------------------

#[test]
fn split2_keys() {
    assert_eq!(split2_key(Pane2::First, false, Key::Tab, true),
        Split2Step { focused: Pane2::Second, resize_mode: false, step: 0, consumed: true });
    assert_eq!(split2_key(Pane2::Second, false, Key::Char('r'), true),
        Split2Step { focused: Pane2::Second, resize_mode: true, step: 0, consumed: true });
    assert_eq!(split2_key(Pane2::First, true, Key::Left, true),
        Split2Step { focused: Pane2::First, resize_mode: true, step: -1, consumed: true });
    assert_eq!(split2_key(Pane2::First, true, Key::Left, false),
        Split2Step { focused: Pane2::First, resize_mode: true, step: 0, consumed: false });
    assert_eq!(split2_key(Pane2::First, true, Key::Down, false),
        Split2Step { focused: Pane2::First, resize_mode: true, step: 1, consumed: true });
    assert_eq!(split2_key(Pane2::First, true, Key::Escape, false),
        Split2Step { focused: Pane2::First, resize_mode: false, step: 0, consumed: true });
    assert_eq!(split2_key(Pane2::First, false, Key::Escape, false),
        Split2Step { focused: Pane2::First, resize_mode: false, step: 0, consumed: false });
}

#[test]
fn split4_keys() {
    let mut p = Pane4::TopLeft;
    let mut order = vec![];
    for _ in 0..4 {
        p = split4_key(p, false, Key::Tab).focused;
        order.push(p);
    }
    assert_eq!(order, vec![Pane4::TopRight, Pane4::BottomRight, Pane4::BottomLeft, Pane4::TopLeft]);
    assert_eq!(split4_key(Pane4::TopLeft, false, Key::BackTab).focused, Pane4::BottomLeft);
    assert_eq!(split4_key(Pane4::TopLeft, true, Key::Up),
        Split4Step { focused: Pane4::TopLeft, resize_mode: true, h_step: 0, v_step: -1, consumed: true });
    assert_eq!(split4_key(Pane4::TopLeft, true, Key::Char('r')).resize_mode, false);
    assert_eq!(split4_key(Pane4::TopLeft, false, Key::Char('r')).resize_mode, true);
    assert!(!split4_key(Pane4::TopLeft, false, Key::Enter).consumed);
}

#[test]
fn clamp_div_keeps_minimums() {
    assert_eq!(clamp_div(5, 10, 4, 4), 5);
    assert_eq!(clamp_div(0, 10, 4, 4), 4);
    assert_eq!(clamp_div(9, 10, 3, 4), 5);
}

fn boxed() -> Box<dyn Widget> {
    Box::new(Panel::new())
}

#[test]
fn hsplit_draws_panes_and_divider() {
    let mut canvas = Canvas::new(10, 3);
    {
        let mut sub = canvas.sub(0, 0, 10, 3);
        render_hsplit(&mut sub, &caps(ColorLevel::TrueColor), &boxed(), &boxed(), 5, 4, 4, false);
    }
    assert_eq!(row_text(&canvas, 0), "┌───┐│┌──┐");
    assert_eq!(canvas.get(5, 0).ch, '│');
    assert_eq!(canvas.get(5, 2).ch, '│');
    assert_eq!(canvas.get(0, 0).ch, '┌');
    assert_eq!(canvas.get(4, 0).ch, '┐');
    assert_eq!(canvas.get(6, 0).ch, '┌');
    assert_eq!(canvas.get(9, 2).ch, '┘');
}

#[test]
fn vsplit_draws_divider_row() {
    let mut canvas = Canvas::new(6, 9);
    {
        let mut sub = canvas.sub(0, 0, 6, 9);
        render_vsplit(&mut sub, &caps(ColorLevel::TrueColor), &boxed(), &boxed(), 4, 3, 3, true);
    }
    assert_eq!(row_text(&canvas, 4), "──────");
    assert_eq!(canvas.get(0, 4).fg, Color::Basic(BasicColor::Yellow, true));
    assert_eq!(canvas.get(0, 0).ch, '┌');
    assert_eq!(canvas.get(0, 5).ch, '┌');
}

#[test]
fn split3_and_split4_geometry() {
    let mut canvas = Canvas::new(10, 8);
    {
        let mut sub = canvas.sub(0, 0, 10, 8);
        render_split3(&mut sub, &caps(ColorLevel::TrueColor), Split3Kind::TopTwoBottomOne, &boxed(), &boxed(),
            &boxed(), 4, 3);
    }
    assert_eq!(canvas.get(0, 0).ch, '┌');
    assert_eq!(canvas.get(4, 0).ch, '┌');
    assert_eq!(canvas.get(0, 3).ch, '┌');
    assert_eq!(canvas.get(9, 7).ch, '┘');

    let mut canvas = Canvas::new(9, 9);
    {
        let mut sub = canvas.sub(0, 0, 9, 9);
        render_split4(&mut sub, &caps(ColorLevel::TrueColor), &boxed(), &boxed(), &boxed(), &boxed(), 4, 4,
            Pane4::BottomRight, false);
    }
    assert_eq!(canvas.get(4, 4).ch, '┼');
    assert_eq!(canvas.get(4, 0).ch, '│');
    assert_eq!(canvas.get(0, 4).ch, '─');
    assert_eq!(canvas.get(5, 5).ch, '●');
}

#[test]
fn truecolor_downgrades_into_cube_and_ramp() {
    assert_eq!(Color::TrueColor(255, 0, 0).downgrade(ColorLevel::Ansi256), Color::Ansi256(196));
    assert_eq!(Color::TrueColor(0, 0, 0).downgrade(ColorLevel::Ansi256), Color::Ansi256(16));
    assert_eq!(Color::TrueColor(128, 128, 128).downgrade(ColorLevel::Ansi256), Color::Ansi256(244));
}

#[test]
fn zero_width_column_still_gets_one_character() {
    let t = Table::new().headers(vec![String::from("a"), String::new()]);
    assert_eq!(t.compute_widths(10), vec![1, 1]);
}
