use vstd::prelude::*;
use crate::border::style::BorderStyle;
use crate::canvas::canvas::{lemma_unchanged_outside_refl, lemma_unchanged_outside_trans, print_spec, Canvas,
    CanvasModel};
use crate::color::types::{BasicColor, Color, StyleFlags};
use crate::demo::screens::{is_screen_panel, lemma_outer_frame_kept, lemma_panel_frames, outer_frame, redrawn,
    screen_drawn, Action, ScreenId};
use crate::event::keys::Key;
use crate::term::caps::TermCaps;
use crate::text::{concat_str, decimal, pop_char, push_char, seq_starts_with, str_starts_with, to_owned_string,
    trim_end, trim_end_spec, u16_to_string};
use crate::widget::panel::{Align, Panel};
use crate::widget::traits::Widget;
use crate::widget::wrap::views;

verus! {

/// The screen that saves the current view as plain text.
pub struct SaveToFile {
    pub path: String,
    pub status: Option<String>,
    pub editing: bool,
}

/// The status line after a save: how many rows went to which file, or the
/// error that stopped it.
pub open spec fn save_status(path: Seq<char>, outcome: Result<u16, Seq<char>>) -> Seq<char> {
    match outcome {
        Ok(rows) => "Saved "@ + decimal(rows as nat) + " rows to '"@ + path + "'"@,
        Err(e) => "Error: "@ + e,
    }
}

/// The explanation, the caption and the path field printed over `m1` in
/// the inside `iw × ih`: the path padded by a space on each side, in bright
/// cyan, reversed while it is edited and underlined otherwise.
pub open spec fn save_fields(m1: CanvasModel, iw: int, ih: int, path: Seq<char>, editing: bool) -> CanvasModel {
    print_spec(
        print_spec(
            print_spec(m1, 1, 1, iw, ih, 0, 1, " Saves the current canvas as plain text (no escape codes)."@,
                Color::Default, Color::Default, StyleFlags { bits: 2 }),
            1, 1, iw, ih, 0, 3, " Output file:"@, Color::Default, Color::Default, StyleFlags { bits: 1 }),
        1, 1, iw, ih, 16, 3, " "@ + path + " "@, Color::Basic(BasicColor::Cyan, true), Color::Default,
        if editing { StyleFlags { bits: 32 } } else { StyleFlags { bits: 8 } })
}

/// The key help on row 5 printed over `m`, for editing or not.
pub open spec fn save_help(m: CanvasModel, iw: int, ih: int, editing: bool) -> CanvasModel {
    if editing {
        print_spec(m, 1, 1, iw, ih, 0, 5, " Type filename, Enter to confirm, Esc to cancel."@,
            Color::Basic(BasicColor::Yellow, false), Color::Default, StyleFlags { bits: 2 })
    } else {
        print_spec(m, 1, 1, iw, ih, 0, 5, " e: edit path   Enter / s: save   Esc: back"@, Color::Default,
            Color::Default, StyleFlags { bits: 2 })
    }
}

/// The status of the last save, when there is one, printed bold on row 7
/// over `m`: green when it reports a save, red otherwise.
pub open spec fn save_status_line(m: CanvasModel, iw: int, ih: int, status: Option<Seq<char>>) -> CanvasModel {
    match status {
        Some(st) => print_spec(m, 1, 1, iw, ih, 0, 7, st, if seq_starts_with(st, "Saved"@) {
            Color::Basic(BasicColor::Green, true)
        } else {
            Color::Basic(BasicColor::Red, true)
        }, Color::Default, StyleFlags { bits: 1 }),
        None => m,
    }
}

/// The inside `iw × ih` of the save screen drawn over `m1`.
pub open spec fn save_inner(m1: CanvasModel, iw: int, ih: int, path: Seq<char>, editing: bool,
    status: Option<Seq<char>>) -> CanvasModel {
    save_status_line(save_help(save_fields(m1, iw, ih, path, editing), iw, ih, editing), iw, ih, status)
}

/// The characters of row `row` of `m`, leaving out the right halves of
/// wide characters.
pub open spec fn row_chars(m: crate::canvas::canvas::CanvasModel, row: int, upto: int) -> Seq<char>
    decreases upto,
{
    if upto <= 0 {
        Seq::empty()
    } else {
        let rest = row_chars(m, row, upto - 1);
        let cell = m.get(upto - 1, row);
        if cell.wide_continuation { rest } else { rest.push(cell.ch) }
    }
}

/// The text of a canvas, one line per row without trailing whitespace.
pub open spec fn snapshot_spec(m: crate::canvas::canvas::CanvasModel) -> Seq<Seq<char>> {
    Seq::new(m.height as nat, |row: int| trim_end_spec(row_chars(m, row, m.width)))
}

/// The canvas as plain text: one line per row, without escape codes, the
/// right halves of wide characters or trailing whitespace.
pub fn snapshot_lines(canvas: &Canvas) -> (lines: Vec<String>)
    requires
        canvas@.wf(),
    ensures
        views(lines@) == snapshot_spec(canvas@),
{
    let mut lines: Vec<String> = Vec::new();
    let mut row: u16 = 0;
    while row < canvas.height()
        invariant
            row <= canvas@.height,
            canvas@.wf(),
            views(lines@) == snapshot_spec(canvas@).take(row as int),
        decreases canvas@.height - row,
    {
        let mut line = String::new();
        let mut col: u16 = 0;
        while col < canvas.width()
            invariant
                col <= canvas@.width,
                row < canvas@.height,
                canvas@.wf(),
                line@ == row_chars(canvas@, row as int, col as int),
            decreases canvas@.width - col,
        {
            let cell = canvas.get(col, row);
            if !cell.wide_continuation {
                push_char(&mut line, cell.ch);
            }
            col += 1;
        }
        assert(line@ == row_chars(canvas@, row as int, canvas@.width));
        let trimmed = trim_end(&line);
        let ghost before = lines@;
        lines.push(trimmed);
        assert(views(lines@) =~= views(before).push(trimmed@));
        assert(snapshot_spec(canvas@)[row as int] == trimmed@);
        assert(snapshot_spec(canvas@).take(row + 1) =~= snapshot_spec(canvas@).take(row as int).push(trimmed@));
        row += 1;
    }
    assert(snapshot_spec(canvas@).take(canvas@.height) =~= snapshot_spec(canvas@));
    lines
}

impl SaveToFile {
    pub fn new() -> (s: Self)
        ensures
            s.path@ == "console-ui-snapshot.txt"@,
            s.status is None,
            !s.editing,
    {
        SaveToFile { path: to_owned_string("console-ui-snapshot.txt"), status: None, editing: false }
    }

    /// A frame with the explanation, the output path (reversed while it is
    /// edited), the keys, and the status of the last save in green or red.
    pub fn render(&self, canvas: &mut Canvas, caps: &TermCaps)
        requires
            old(canvas)@.wf(),
            old(canvas)@.width + 2 <= u16::MAX,
        ensures
            redrawn(old(canvas)@, final(canvas)@),
            outer_frame(final(canvas)@, BorderStyle::Double, caps.unicode, Color::Basic(BasicColor::Yellow, true)),
            old(canvas)@.width >= 2 && old(canvas)@.height >= 2 ==> screen_drawn(caps, old(canvas)@, final(canvas)@,
                " Save View to File "@, BorderStyle::Double, Color::Basic(BasicColor::Yellow, true),
                (|m1: CanvasModel, m2: CanvasModel| m2 == save_inner(m1, old(canvas)@.width - 2,
                    old(canvas)@.height - 2, self.path@, self.editing, match self.status {
                        Some(st) => Some(st@),
                        None => None,
                    }))),
    {
        let w = canvas.width();
        let h = canvas.height();
        let ghost m0 = canvas@;
        let mut root = canvas.sub(0, 0, w, h);

        let outer = Panel::new()
            .title(" Save View to File ")
            .title_align(Align::Center)
            .border_style(BorderStyle::Double)
            .border_fg(Color::Basic(BasicColor::Yellow, true));
        outer.render(&mut root, caps);
        let ghost m1 = root.parent@;
        proof { lemma_panel_frames(outer, *caps, m1); }

        let inner_w = w.saturating_sub(2);
        let inner_h = h.saturating_sub(2);
        let mut inner = root.sub(1, 1, inner_w, inner_h);
        let ghost iw = inner.width as int;
        let ghost ih = inner.height as int;
        proof { lemma_unchanged_outside_refl(m1, 1, 1, iw, ih); }

        let ghost mb = inner.parent@;
        inner.print(0, 1, " Saves the current canvas as plain text (no escape codes).", Color::Default, Color::Default,
            StyleFlags::dim());
        proof { lemma_unchanged_outside_trans(m1, mb, inner.parent@, 1, 1, iw, ih); }
        let ghost mb = inner.parent@;
        inner.print(0, 3, " Output file:", Color::Default, Color::Default, StyleFlags::bold());
        proof { lemma_unchanged_outside_trans(m1, mb, inner.parent@, 1, 1, iw, ih); }

        let path_display = concat_str(concat_str(" ", self.path.as_str()).as_str(), " ");
        let path_style = if self.editing { StyleFlags::reverse() } else { StyleFlags::underline() };
        let ghost mb = inner.parent@;
        inner.print(16, 3, path_display.as_str(), Color::Basic(BasicColor::Cyan, true), Color::Default, path_style);
        proof { lemma_unchanged_outside_trans(m1, mb, inner.parent@, 1, 1, iw, ih); }

        if self.editing {
            let ghost mb = inner.parent@;
            inner.print(0, 5, " Type filename, Enter to confirm, Esc to cancel.", Color::Basic(BasicColor::Yellow, false),
                Color::Default, StyleFlags::dim());
            proof { lemma_unchanged_outside_trans(m1, mb, inner.parent@, 1, 1, iw, ih); }
        } else {
            let ghost mb = inner.parent@;
            inner.print(0, 5, " e: edit path   Enter / s: save   Esc: back", Color::Default, Color::Default,
                StyleFlags::dim());
            proof { lemma_unchanged_outside_trans(m1, mb, inner.parent@, 1, 1, iw, ih); }
        }

        match &self.status {
            Some(status) => {
                let fg = if str_starts_with(status.as_str(), "Saved") {
                    Color::Basic(BasicColor::Green, true)
                } else {
                    Color::Basic(BasicColor::Red, true)
                };
                let ghost mb = inner.parent@;
                inner.print(0, 7, status.as_str(), fg, Color::Default, StyleFlags::bold());
                proof { lemma_unchanged_outside_trans(m1, mb, inner.parent@, 1, 1, iw, ih); }
            },
            None => {},
        }
        proof {
            if w >= 2 && h >= 2 {
                lemma_outer_frame_kept(m1, inner.parent@, BorderStyle::Double, caps.unicode,
                    Color::Basic(BasicColor::Yellow, true));
                reveal_strlit(" ");
                assert(is_screen_panel(outer, " Save View to File "@, BorderStyle::Double,
                    Color::Basic(BasicColor::Yellow, true)));
                assert(outer.drawn(caps, m0, m1, 0, 0, m0.width, m0.height));
                assert(inner.parent@ == save_inner(m1, iw, ih, self.path@, self.editing, match self.status {
                    Some(st) => Some(st@),
                    None => None,
                }));
            }
        }
    }

    /// While the path is edited, `Enter` / `Esc` stop editing, `Backspace`
    /// deletes the last character and a character is appended.  Otherwise
    /// `Esc` / `q` go back, `e` starts editing (clearing the status), and
    /// `Enter` / `s` ask for the view to be saved: the second result is
    /// `true` exactly then, and `record_save` takes the outcome.
    pub fn handle_key(&mut self, key: Key) -> (r: (Action, bool))
        ensures
            old(self).editing ==> {
                &&& r == (Action::Continue, false)
                &&& final(self).status == old(self).status
                &&& final(self).editing == !(key == Key::Enter || key == Key::Escape)
                &&& final(self).path@ == (match key {
                    Key::Backspace => if old(self).path@.len() > 0 { old(self).path@.drop_last() } else { old(self).path@ },
                    Key::Char(c) => old(self).path@.push(c),
                    _ => old(self).path@,
                })
            },
            !old(self).editing ==> {
                &&& r == (if key == Key::Escape || key == Key::Char('q') {
                    (Action::GoTo(ScreenId::MainMenu), false)
                } else if key == Key::Enter || key == Key::Char('s') {
                    (Action::Continue, true)
                } else {
                    (Action::Continue, false)
                })
                &&& final(self).path == old(self).path
                &&& final(self).editing == (key == Key::Char('e'))
                &&& final(self).status == (if key == Key::Char('e') { None } else { old(self).status })
            },
    {
        if self.editing {
            match key {
                Key::Enter => {
                    self.editing = false;
                },
                Key::Escape => {
                    self.editing = false;
                },
                Key::Backspace => {
                    pop_char(&mut self.path);
                },
                Key::Char(c) => {
                    push_char(&mut self.path, c);
                },
                _ => {},
            }
            return (Action::Continue, false);
        }
        match key {
            Key::Escape => (Action::GoTo(ScreenId::MainMenu), false),
            Key::Enter => (Action::Continue, true),
            Key::Char(c) => {
                if c == 'q' {
                    (Action::GoTo(ScreenId::MainMenu), false)
                } else if c == 'e' {
                    self.editing = true;
                    self.status = None;
                    (Action::Continue, false)
                } else if c == 's' {
                    (Action::Continue, true)
                } else {
                    (Action::Continue, false)
                }
            },
            _ => (Action::Continue, false),
        }
    }

    /// Record how a save went: the number of rows written, or the error.
    pub fn record_save(&mut self, outcome: Result<u16, String>)
        ensures
            final(self).path == old(self).path,
            final(self).editing == old(self).editing,
            final(self).status matches Some(s) && s@ == save_status(old(self).path@, match outcome {
                Ok(n) => Ok(n),
                Err(e) => Err(e@),
            }),
    {
        let status = match outcome {
            Ok(rows) => {
                let a = concat_str("Saved ", u16_to_string(rows).as_str());
                let b = concat_str(a.as_str(), " rows to '");
                let c = concat_str(b.as_str(), self.path.as_str());
                concat_str(c.as_str(), "'")
            },
            Err(e) => concat_str("Error: ", e.as_str()),
        };
        self.status = Some(status);
    }
}

} // verus!
