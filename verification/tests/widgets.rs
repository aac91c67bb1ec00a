use console_ui::canvas::{Canvas, Cell};
use console_ui::color::{BasicColor, Color, StyleFlags};
use console_ui::event::keys::Key;
use console_ui::term::caps::{ColorLevel, TermCaps};
use console_ui::widget::{Align, InteractiveWidget, Menu, Panel, Table, TextBlock, Widget, WrapMode};

fn caps(unicode: bool) -> TermCaps {
    TermCaps { color_level: ColorLevel::TrueColor, unicode, cols: 80, rows: 24 }
}

fn strings(v: &[&str]) -> Vec<String> {
    v.iter().map(|s| s.to_string()).collect()
}

fn row_text(c: &Canvas, row: u16) -> String {
    (0..c.width()).map(|col| c.get(col, row).ch).collect()
}

// ---------------------------------------------------------------------------
// TextBlock
// ---------------------------------------------------------------------------

#[test]
fn word_wrap_breaks_at_spaces() {
    let tb = TextBlock::new("hello world foo");
    assert_eq!(tb.wrap_lines(11), strings(&["hello world", "foo"]));
    assert_eq!(tb.wrap_lines(5), strings(&["hello", "world", "foo"]));
}

#[test]
fn word_wrap_splits_long_words_by_character() {
    let tb = TextBlock::new("a abcdefgh b");
    assert_eq!(tb.wrap_lines(4), strings(&["a", "abcd", "efgh", "b"]));
}

#[test]
fn word_wrap_collapses_whitespace_and_keeps_hard_newlines() {
    let tb = TextBlock::new("a   b\n\nc");
    assert_eq!(tb.wrap_lines(10), strings(&["a b", "", "c"]));
    assert_eq!(TextBlock::new("").wrap_lines(10), strings(&[""]));
}

#[test]
fn char_wrap_breaks_anywhere() {
    let tb = TextBlock::new("abcdef\nxy").wrap(WrapMode::Char);
    assert_eq!(tb.wrap_lines(4), strings(&["abcd", "ef", "xy"]));
}

#[test]
fn char_wrap_counts_wide_characters() {
    // Each CJK character takes two columns.
    let tb = TextBlock::new("日本語").wrap(WrapMode::Char);
    assert_eq!(tb.wrap_lines(4), strings(&["日本", "語"]));
    // A character wider than the line first closes the (empty) line.
    assert_eq!(tb.wrap_lines(1), strings(&["", "日", "本", "語"]));
}

#[test]
fn no_wrap_keeps_lines() {
    let tb = TextBlock::new("a long line\nshort").wrap(WrapMode::NoWrap);
    assert_eq!(tb.wrap_lines(3), strings(&["a long line", "short"]));
}

#[test]
fn zero_width_gives_no_lines() {
    assert!(TextBlock::new("abc").wrap_lines(0).is_empty());
}

#[test]
fn textblock_sizes() {
    let tb = TextBlock::new("hello world\nab");
    assert_eq!(tb.min_size(), (10, 1));
    assert_eq!(tb.preferred_size(), (11, 2));
}

#[test]
fn textblock_builders() {
    let tb = TextBlock::new("x")
        .fg(Color::Ansi256(3))
        .bg(Color::Basic(BasicColor::Red, false))
        .style(StyleFlags::italic())
        .wrap(WrapMode::Char);
    assert_eq!(tb.text, "x");
    assert_eq!(tb.fg, Color::Ansi256(3));
    assert_eq!(tb.bg, Color::Basic(BasicColor::Red, false));
    assert_eq!(tb.style, StyleFlags::italic());
    assert_eq!(tb.wrap, WrapMode::Char);
    assert_eq!(TextBlock::default().wrap, WrapMode::Word);
}

#[test]
fn textblock_renders_visible_lines_from_scroll_position() {
    let mut tb = TextBlock::new("one\ntwo\nthree\nfour");
    tb.scroll_row = 1;
    let mut canvas = Canvas::new(6, 2);
    {
        let mut sub = canvas.sub(0, 0, 6, 2);
        tb.render(&mut sub, &caps(true));
    }
    assert_eq!(row_text(&canvas, 0), "two   ");
    assert_eq!(row_text(&canvas, 1), "three ");
    // A scroll position past the end shows the last line.
    tb.scroll_row = 99;
    let mut canvas = Canvas::new(6, 2);
    {
        let mut sub = canvas.sub(0, 0, 6, 2);
        tb.render(&mut sub, &caps(true));
    }
    assert_eq!(row_text(&canvas, 0), "four  ");
    assert_eq!(row_text(&canvas, 1), "      ");
}

// ---------------------------------------------------------------------------
// Table
// ---------------------------------------------------------------------------

fn sample_table() -> Table {
    Table::new()
        .headers(strings(&["ID", "Name"]))
        .rows(vec![strings(&["1", "Alice"]), strings(&["22", "Bob"])])
}

#[test]
fn table_natural_widths_and_columns() {
    let t = sample_table();
    assert_eq!(t.col_count(), 2);
    assert_eq!(t.natural_widths(), vec![2, 5]);
    assert_eq!(Table::new().col_count(), 1);
    assert_eq!(Table::new().natural_widths(), vec![0]);
    let ragged = Table::new().rows(vec![strings(&["a"]), strings(&["b", "cc", "ddd"])]);
    assert_eq!(ragged.col_count(), 3);
    assert_eq!(ragged.natural_widths(), vec![1, 2, 3]);
}

#[test]
fn table_widths_natural_when_they_fit() {
    assert_eq!(sample_table().compute_widths(40), vec![2, 5]);
    // 7 columns of content + 3 separators.
    assert_eq!(sample_table().compute_widths(10), vec![2, 5]);
}

#[test]
fn table_widths_shrink_widest_first() {
    // 8 available, 3 separators: 5 columns for 7 of content.
    assert_eq!(sample_table().compute_widths(8), vec![2, 2]);
    let t = Table::new().rows(vec![strings(&["aaaaaa", "bbbbbbbb", "cc"])]);
    // content = 12 - 4 = 8: the widest (8) gets 8/3 = 2, the next (6) 6/2 = 3, the last min(3/1, 2) = 2.
    assert_eq!(t.compute_widths(12), vec![3, 2, 2]);
}

#[test]
fn table_widths_one_each_when_cramped() {
    assert_eq!(sample_table().compute_widths(4), vec![1, 1]);
    assert_eq!(sample_table().compute_widths(0), vec![1, 1]);
}

#[test]
fn table_justify() {
    assert_eq!(Table::justify("abc", 5, Align::Left), "abc  ");
    assert_eq!(Table::justify("abc", 5, Align::Right), "  abc");
    assert_eq!(Table::justify("abc", 5, Align::Center), " abc ");
    assert_eq!(Table::justify("a", 4, Align::Center), " a  ");
    assert_eq!(Table::justify("abcdef", 3, Align::Right), "abc");
    assert_eq!(Table::justify("abc", 3, Align::Right), "abc");
    assert_eq!(Table::justify("日本", 3, Align::Left), "日");
}

#[test]
fn table_col_align_repeats_last() {
    let t = Table::new().col_align(vec![Align::Center, Align::Right]);
    assert_eq!(t.col_align_for(0), Align::Center);
    assert_eq!(t.col_align_for(1), Align::Right);
    assert_eq!(t.col_align_for(7), Align::Right);
    let none = Table::new().col_align(vec![]);
    assert_eq!(none.col_align_for(0), Align::Left);
}

#[test]
fn table_sizes() {
    let t = sample_table();
    assert_eq!(t.min_size(), (11, 5));
    assert_eq!(t.preferred_size(), (14, 6));
    assert_eq!(Table::new().min_size(), (6, 3));
}

#[test]
fn table_render_draws_rules_and_cells() {
    let t = sample_table();
    let mut canvas = Canvas::new(20, 6);
    {
        let mut sub = canvas.sub(0, 0, 20, 6);
        t.render(&mut sub, &caps(true));
    }
    assert_eq!(row_text(&canvas, 0), "┌────┬───────┐      ");
    assert_eq!(row_text(&canvas, 1), "│ ID │ Name  │      ");
    assert_eq!(row_text(&canvas, 2), "├────┼───────┤      ");
    assert_eq!(row_text(&canvas, 3), "│ 1  │ Alice │      ");
    assert_eq!(row_text(&canvas, 4), "├────┼───────┤      ");
    assert_eq!(row_text(&canvas, 5), "└────┴───────┘      ");
}

#[test]
fn table_render_ascii_without_unicode() {
    let t = sample_table();
    let mut canvas = Canvas::new(14, 3);
    {
        let mut sub = canvas.sub(0, 0, 14, 3);
        t.render(&mut sub, &caps(false));
    }
    assert_eq!(row_text(&canvas, 0), "+----+-------+");
    assert_eq!(row_text(&canvas, 1), "| ID | Name  |");
    assert_eq!(row_text(&canvas, 2), "+----+-------+");
}

#[test]
fn table_too_small_draws_nothing() {
    let t = sample_table();
    let mut canvas = Canvas::new(2, 10);
    {
        let mut sub = canvas.sub(0, 0, 2, 10);
        t.render(&mut sub, &caps(true));
    }
    assert_eq!(row_text(&canvas, 0), "  ");
}

#[test]
fn table_builders() {
    let t = Table::new()
        .border_style(console_ui::border::style::BorderStyle::Heavy)
        .border_fg(Color::Ansi256(9))
        .alt_row_bg(Color::Ansi256(235));
    assert_eq!(t.border_fg, Color::Ansi256(9));
    assert_eq!(t.alt_row_bg, Some(Color::Ansi256(235)));
    assert_eq!(t.header_style, StyleFlags::bold());
}

// ---------------------------------------------------------------------------
// Panel and Menu
// ---------------------------------------------------------------------------

#[test]
fn panel_draws_border_and_title() {
    let p = Panel::new().title("Hi");
    let mut canvas = Canvas::new(10, 3);
    {
        let mut sub = canvas.sub(0, 0, 10, 3);
        p.render(&mut sub, &caps(true));
    }
    assert_eq!(row_text(&canvas, 0), "┌├ Hi ┤──┐");
    assert_eq!(row_text(&canvas, 1), "│        │");
    assert_eq!(row_text(&canvas, 2), "└────────┘");
}

#[test]
fn menu_moves_cursor_within_items() {
    let mut m = Menu::new(strings(&["a", "b", "c"]));
    assert!(m.handle_key(Key::Down));
    assert!(m.handle_key(Key::Char('j')));
    assert!(m.handle_key(Key::Down));
    assert_eq!(m.selected(), 2);
    assert_eq!(m.selected_item(), Some("c"));
    assert!(m.handle_key(Key::Home));
    assert_eq!(m.selected(), 0);
    assert!(m.handle_key(Key::Up));
    assert_eq!(m.selected(), 0);
    assert!(m.handle_key(Key::End));
    assert_eq!(m.selected(), 2);
    assert!(m.handle_key(Key::PageUp));
    assert_eq!(m.selected(), 0);
    assert!(m.handle_key(Key::PageDown));
    assert_eq!(m.selected(), 2);
    assert!(!m.handle_key(Key::Char('x')));
    assert!(!m.handle_key(Key::Enter));
}

#[test]
fn menu_renders_prefix_on_cursor_row() {
    let m = Menu::new(strings(&["one", "two"]));
    let mut canvas = Canvas::new(6, 3);
    {
        let mut sub = canvas.sub(0, 0, 6, 3);
        m.render(&mut sub, &caps(true));
    }
    assert_eq!(row_text(&canvas, 0), "> one ");
    assert_eq!(row_text(&canvas, 1), "  two ");
    assert_eq!(row_text(&canvas, 2), "      ");
    assert_eq!(canvas.get(0, 0).style, StyleFlags::reverse());
    assert_eq!(m.preferred_size(), (5, 2));
    assert_eq!(Menu::new(vec![]).min_size(), (10, 1));
    let _ = Cell::blank();
}


#[test]
fn table_render_fills_the_gap_above_the_bottom_rule() {
    let mut t = sample_table().alt_row_bg(Color::Ansi256(235));
    t.scroll_row = 5;
    let mut canvas = Canvas::new(16, 8);
    {
        let mut sub = canvas.sub(0, 0, 16, 8);
        t.render(&mut sub, &caps(true));
    }
    // Scrolled past the end: the last record is shown, then the gap.
    assert_eq!(row_text(&canvas, 1), "│ ID │ Name  │  ");
    assert_eq!(row_text(&canvas, 3), "│ 22 │ Bob   │  ");
    assert_eq!(canvas.get(2, 3).bg, Color::Default);
    assert_eq!(row_text(&canvas, 4), "│              │");
    assert_eq!(row_text(&canvas, 6), "│              │");
    assert_eq!(row_text(&canvas, 7), "└────┴───────┘  ");
}

#[test]
fn table_alternate_rows_use_the_alternate_background() {
    let t = sample_table().alt_row_bg(Color::Ansi256(235));
    let mut canvas = Canvas::new(16, 7);
    {
        let mut sub = canvas.sub(0, 0, 16, 7);
        t.render(&mut sub, &caps(true));
    }
    assert_eq!(row_text(&canvas, 3), "│ 1  │ Alice │  ");
    assert_eq!(row_text(&canvas, 5), "│ 22 │ Bob   │  ");
    assert_eq!(canvas.get(2, 3).bg, Color::Default);
    assert_eq!(canvas.get(2, 5).bg, Color::Ansi256(235));
    assert_eq!(row_text(&canvas, 6), "└────┴───────┘  ");
}
