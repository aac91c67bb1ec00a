use vstd::prelude::*;
use crate::canvas::canvas::{lemma_unchanged_outside_refl, lemma_unchanged_outside_trans, print_spec,
    unchanged_outside, CanvasModel, SubCanvas};
use crate::color::types::{Color, StyleFlags};
use crate::term::caps::TermCaps;
use crate::text::{byte_len, chars_of, string_of, to_owned_string};
use crate::widget::traits::Widget;
use crate::widget::wrap::{char_wrap, char_wrap_lines, cviews, fits, lemma_char_wrap_lines, lemma_word_wrap_fits,
    split_newlines, split_newlines_exec, views, word_wrap, word_wrap_lines};

verus! {

/// How text should wrap when it exceeds the canvas width.
#[derive(Debug, Clone, Copy, PartialEq, Eq, Structural)]
pub enum WrapMode {
    /// Break at word boundaries (spaces).
    Word,
    /// Break at any character boundary.
    Char,
    /// No wrapping — long lines are truncated.
    NoWrap,
}

impl Default for WrapMode {
    fn default() -> (m: WrapMode)
        ensures
            m == WrapMode::Word,
    {
        WrapMode::Word
    }
}

/// The output lines of one hard line.
pub open spec fn wrap_one(line: Seq<char>, mode: WrapMode, width: int) -> Seq<Seq<char>> {
    match mode {
        WrapMode::NoWrap => seq![line],
        WrapMode::Char => char_wrap_lines(line, width),
        WrapMode::Word => word_wrap_lines(line, width),
    }
}

/// The output lines of the hard lines `hls`, one hard line after the other.
pub open spec fn wrap_hard_lines(hls: Seq<Seq<char>>, mode: WrapMode, width: int) -> Seq<Seq<char>>
    decreases hls.len(),
{
    if hls.len() == 0 {
        Seq::empty()
    } else {
        wrap_hard_lines(hls.drop_last(), mode, width) + wrap_one(hls.last(), mode, width)
    }
}

/// `text` wrapped to `width` columns in `mode`; every newline starts a new
/// line, and a width of zero gives no lines at all.
pub open spec fn wrap_text(text: Seq<char>, mode: WrapMode, width: int) -> Seq<Seq<char>> {
    if width == 0 {
        Seq::empty()
    } else {
        wrap_hard_lines(split_newlines(text), mode, width)
    }
}

/// The lines shown in a region `h` rows high, scrolled to `scroll_row`: the
/// scroll position is kept on the last line at most.
pub open spec fn visible_lines(lines: Seq<Seq<char>>, scroll_row: int, h: int) -> Seq<Seq<char>> {
    let last = if lines.len() > 0 { lines.len() - 1 } else { 0 };
    let start = if scroll_row < last { scroll_row } else { last };
    let end = if start + h < lines.len() { start + h } else { lines.len() as int };
    lines.subrange(start, end)
}

/// `lines` printed on the rows `0, 1, ...` of a region, from column 0.
pub open spec fn print_rows(
    m: CanvasModel, oc: int, or: int, w: int, h: int,
    lines: Seq<Seq<char>>, fg: Color, bg: Color, style: StyleFlags,
) -> CanvasModel
    decreases lines.len(),
{
    if lines.len() == 0 {
        m
    } else {
        print_spec(print_rows(m, oc, or, w, h, lines.drop_last(), fg, bg, style), oc, or, w, h,
            0, lines.len() - 1, lines.last(), fg, bg, style)
    }
}

/// Printing rows into a region with no columns changes nothing.
pub proof fn lemma_print_rows_no_columns(
    m: CanvasModel, oc: int, or: int, h: int, lines: Seq<Seq<char>>, fg: Color, bg: Color, style: StyleFlags,
)
    ensures
        print_rows(m, oc, or, 0, h, lines, fg, bg, style) == m,
    decreases lines.len(),
{
    if lines.len() > 0 {
        lemma_print_rows_no_columns(m, oc, or, h, lines.drop_last(), fg, bg, style);
    }
}

/// Largest number of UTF-8 bytes of a line of `lines` (0 for none).
pub open spec fn max_bytes(lines: Seq<Seq<char>>) -> usize
    decreases lines.len(),
{
    if lines.len() == 0 {
        0
    } else {
        let rest = max_bytes(lines.drop_last());
        let here = vstd::utf8::encode_utf8(lines.last()).len() as usize;
        if here > rest { here } else { rest }
    }
}

/// A scrollable block of word-wrapped text.
pub struct TextBlock {
    pub text: String,
    pub fg: Color,
    pub bg: Color,
    pub style: StyleFlags,
    pub wrap: WrapMode,
    pub scroll_row: usize,
}

impl Default for TextBlock {
    fn default() -> (t: Self)
        ensures
            t.text@.len() == 0,
            t.fg == Color::Default,
            t.bg == Color::Default,
            t.style@ == 0,
            t.wrap == WrapMode::Word,
            t.scroll_row == 0,
    {
        TextBlock {
            text: String::new(),
            fg: Color::Default,
            bg: Color::Default,
            style: StyleFlags::empty(),
            wrap: WrapMode::Word,
            scroll_row: 0,
        }
    }
}

impl TextBlock {
    pub fn new(text: &str) -> (t: Self)
        ensures
            t.text@ == text@,
            t.fg == Color::Default,
            t.bg == Color::Default,
            t.style@ == 0,
            t.wrap == WrapMode::Word,
            t.scroll_row == 0,
    {
        let mut t = Self::default();
        t.text = to_owned_string(text);
        t
    }

    pub fn fg(self, c: Color) -> (t: Self)
        ensures
            t == (TextBlock { fg: c, ..self }),
    {
        let mut t = self;
        t.fg = c;
        t
    }

    pub fn bg(self, c: Color) -> (t: Self)
        ensures
            t == (TextBlock { bg: c, ..self }),
    {
        let mut t = self;
        t.bg = c;
        t
    }

    pub fn style(self, s: StyleFlags) -> (t: Self)
        ensures
            t == (TextBlock { style: s, ..self }),
    {
        let mut t = self;
        t.style = s;
        t
    }

    pub fn wrap(self, m: WrapMode) -> (t: Self)
        ensures
            t == (TextBlock { wrap: m, ..self }),
    {
        let mut t = self;
        t.wrap = m;
        t
    }

    /// Wrap `self.text` to `width` columns.  Hard newlines are always honoured.
    pub fn wrap_lines(&self, width: u16) -> (r: Vec<String>)
        ensures
            views(r@) == wrap_text(self.text@, self.wrap, width as int),
    {
        let w = width as usize;
        if w == 0 {
            return Vec::new();
        }
        let chars = chars_of(self.text.as_str());
        let hard = split_newlines_exec(&chars);
        let ghost hls = cviews(hard@);
        let mut lines: Vec<String> = Vec::new();
        let mut i: usize = 0;
        assert(hls.take(0) =~= Seq::<Seq<char>>::empty());
        assert(views(lines@) =~= Seq::<Seq<char>>::empty());
        while i < hard.len()
            invariant
                i <= hard@.len(),
                1 <= w <= u16::MAX,
                hls == cviews(hard@),
                views(lines@) == wrap_hard_lines(hls.take(i as int), self.wrap, w as int),
            decreases hard@.len() - i,
        {
            assert(hls.take(i + 1).drop_last() =~= hls.take(i as int));
            assert(hls.take(i + 1).last() == hard@[i as int]@);
            let ghost before = views(lines@);
            match self.wrap {
                WrapMode::NoWrap => {
                    let s = string_of(&hard[i], 0, hard[i].len());
                    assert(s@ =~= hard@[i as int]@);
                    lines.push(s);
                    assert(views(lines@) =~= before + seq![s@]);
                },
                WrapMode::Char => char_wrap(&hard[i], w, &mut lines),
                WrapMode::Word => word_wrap(&hard[i], w, &mut lines),
            }
            i += 1;
        }
        assert(hls.take(hls.len() as int) =~= hls);
        lines
    }
}

impl Widget for TextBlock {
    /// The visible lines of the wrapped text, one per row from the top.
    open spec fn drawn(&self, caps: &TermCaps, before: CanvasModel, after: CanvasModel, oc: int, or: int, w: int,
        h: int) -> bool {
        after == print_rows(before, oc, or, w, h, visible_lines(wrap_text(self.text@, self.wrap, w),
            self.scroll_row as int, h), self.fg, self.bg, self.style)
    }

    fn render(&self, canvas: &mut SubCanvas<'_>, caps: &TermCaps)
        ensures
            final(canvas).parent@ == print_rows(old(canvas).parent@, old(canvas).origin_col as int,
                old(canvas).origin_row as int, old(canvas).width as int, old(canvas).height as int,
                visible_lines(wrap_text(self.text@, self.wrap, old(canvas).width as int), self.scroll_row as int,
                    old(canvas).height as int), self.fg, self.bg, self.style),
    {
        let w = canvas.width();
        let h = canvas.height();
        let lines = self.wrap_lines(w);
        let ghost all = views(lines@);
        let n = lines.len();
        let last = if n > 0 { n - 1 } else { 0 };
        let start = if self.scroll_row < last { self.scroll_row } else { last };
        let end = if start < n && n - start > h as usize { start + h as usize } else { n };
        let ghost vis = visible_lines(all, self.scroll_row as int, h as int);
        assert(vis =~= all.subrange(start as int, end as int));
        let ghost m0 = canvas.parent@;
        let ghost oc = canvas.origin_col as int;
        let ghost or = canvas.origin_row as int;
        proof {
            lemma_unchanged_outside_refl(m0, oc, or, w as int, h as int);
        }
        let mut idx: usize = start;
        assert(vis.take(0) =~= Seq::<Seq<char>>::empty());
        while idx < end
            invariant
                start <= idx <= end <= n,
                n == lines@.len(),
                end - start <= h,
                all == views(lines@),
                vis == all.subrange(start as int, end as int),
                canvas.wf(),
                canvas.origin_col == oc,
                canvas.origin_row == or,
                canvas.width == w,
                canvas.height == h,
                w + 2 <= u16::MAX,
                canvas.parent@ == print_rows(m0, oc, or, w as int, h as int, vis.take(idx - start), self.fg,
                    self.bg, self.style),
                unchanged_outside(m0, canvas.parent@, oc, or, w as int, h as int),
                *final(canvas.parent) == *final(old(canvas).parent),
            decreases end - idx,
        {
            let row = (idx - start) as u16;
            assert(vis.take(idx - start + 1).drop_last() =~= vis.take(idx - start));
            assert(vis.take(idx - start + 1).last() == lines@[idx as int]@);
            let ghost m = canvas.parent@;
            canvas.print(0, row, lines[idx].as_str(), self.fg, self.bg, self.style);
            proof { lemma_unchanged_outside_trans(m0, m, canvas.parent@, oc, or, w as int, h as int); }
            idx += 1;
        }
        assert(vis.take(end - start) =~= vis);
    }

    open spec fn min_size_spec(&self) -> (u16, u16) {
        (10u16, 1u16)
    }

    fn min_size(&self) -> (r: (u16, u16))
        ensures
            r == (10u16, 1u16),
    {
        (10, 1)
    }

    /// Widest line (in bytes) and number of lines when wrapped to 80
    /// columns; 20 wide when there is no line.
    open spec fn preferred_size_spec(&self) -> (u16, u16) {
        (if wrap_text(self.text@, self.wrap, 80).len() == 0 { 20 } else {
            max_bytes(wrap_text(self.text@, self.wrap, 80)) as u16 },
            wrap_text(self.text@, self.wrap, 80).len() as u16)
    }

    /// Widest line (in bytes) and number of lines when wrapped to 80 columns.
    fn preferred_size(&self) -> (r: (u16, u16))
        ensures
            r.0 == (if wrap_text(self.text@, self.wrap, 80).len() == 0 { 20 } else {
                max_bytes(wrap_text(self.text@, self.wrap, 80)) as u16 }),
            r.1 == wrap_text(self.text@, self.wrap, 80).len() as u16,
    {
        let lines = self.wrap_lines(80);
        let ghost all = views(lines@);
        let mut best: usize = 0;
        let mut i: usize = 0;
        assert(all.take(0) =~= Seq::<Seq<char>>::empty());
        while i < lines.len()
            invariant
                i <= lines@.len(),
                all == views(lines@),
                best == max_bytes(all.take(i as int)),
            decreases lines@.len() - i,
        {
            let b = byte_len(lines[i].as_str());
            assert(all.take(i + 1).drop_last() =~= all.take(i as int));
            assert(all.take(i + 1).last() == lines@[i as int]@);
            if b > best {
                best = b;
            }
            i += 1;
        }
        assert(all.take(all.len() as int) =~= all);
        let max_w: usize = if lines.len() == 0 { 20 } else { best };
        (max_w as u16, lines.len() as u16)
    }
}

proof fn lemma_wrap_hard_lines_fit(hls: Seq<Seq<char>>, mode: WrapMode, width: int)
    requires
        width >= 0,
        mode != WrapMode::NoWrap,
    ensures
        forall|i: int| 0 <= i < wrap_hard_lines(hls, mode, width).len() ==>
            fits(#[trigger] wrap_hard_lines(hls, mode, width)[i], width),
    decreases hls.len(),
{
    if hls.len() > 0 {
        lemma_wrap_hard_lines_fit(hls.drop_last(), mode, width);
        let a = wrap_hard_lines(hls.drop_last(), mode, width);
        let b = wrap_one(hls.last(), mode, width);
        if mode == WrapMode::Char {
            lemma_char_wrap_lines(hls.last(), width);
        } else {
            lemma_word_wrap_fits(hls.last(), width);
        }
        assert forall|i: int| 0 <= i < (a + b).len() implies fits(#[trigger] (a + b)[i], width) by {
            if i >= a.len() {
                assert((a + b)[i] == b[i - a.len()]);
            }
        }
    }
}

/// Wrapping by words or by characters keeps every line within the width,
/// but for a character wider than the width standing alone.
pub proof fn lemma_wrap_text_fits(text: Seq<char>, mode: WrapMode, width: int)
    requires
        width >= 0,
        mode != WrapMode::NoWrap,
    ensures
        forall|i: int| 0 <= i < wrap_text(text, mode, width).len() ==>
            fits(#[trigger] wrap_text(text, mode, width)[i], width),
{
    if width > 0 {
        lemma_wrap_hard_lines_fit(split_newlines(text), mode, width);
    }
}

} // verus!
