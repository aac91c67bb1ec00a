use vstd::prelude::*;
use crate::border::style::{border_glyphs, style_for_caps, BorderGlyphs, BorderStyle};
use crate::canvas::cell::Cell;
use crate::canvas::canvas::{lemma_only_row_changed, lemma_only_row_changed_trans, lemma_print_row,
    lemma_print_row_local, lemma_print_spec, lemma_region_set, lemma_region_set_row, lemma_region_set_row_local,
    lemma_row_kept_elsewhere, lemma_row_kept_trans,
    lemma_unchanged_outside_refl, lemma_unchanged_outside_trans, only_row_changed, print_spec, row_kept,
    region_set, unchanged_outside, CanvasModel, SubCanvas};
use crate::color::types::{Color, StyleFlags};
use crate::term::caps::TermCaps;
use crate::text::{advance_width, concat_str, cw, pad_one_space, push_char, str_width, to_owned_string, unicode_str_width};
use crate::widget::panel::{border_cell, border_cell_spec, Align};
use crate::widget::traits::Widget;

verus! {

/// A bordered table with optional header row and auto-justified columns.
pub struct Table {
    pub headers: Option<Vec<String>>,
    pub rows: Vec<Vec<String>>,
    /// Per-column alignment.  The last entry is repeated for excess columns.
    pub col_align: Vec<Align>,
    pub border_style: BorderStyle,
    pub border_fg: Color,
    pub border_bg: Color,
    pub header_fg: Color,
    pub header_bg: Color,
    pub header_style: StyleFlags,
    pub row_fg: Color,
    pub row_bg: Color,
    pub alt_row_bg: Option<Color>,
    /// Current scroll offset (first visible data row).
    pub scroll_row: usize,
}

// ---------------------------------------------------------------------------
// Columns and their natural widths
// ---------------------------------------------------------------------------

/// Number of header cells (0 without a header row).
pub open spec fn header_count(headers: Option<Vec<String>>) -> nat {
    match headers {
        Some(h) => h@.len(),
        None => 0,
    }
}

/// Number of cells of the longest row.
pub open spec fn max_row_len(rows: Seq<Vec<String>>) -> nat
    decreases rows.len(),
{
    if rows.len() == 0 {
        0
    } else {
        let rest = max_row_len(rows.drop_last());
        if rows.last()@.len() > rest { rows.last()@.len() } else { rest }
    }
}

/// Number of columns: the longest of the header and the rows, and at least one.
pub open spec fn col_count_spec(headers: Option<Vec<String>>, rows: Seq<Vec<String>>) -> nat {
    let m = if header_count(headers) > max_row_len(rows) { header_count(headers) } else { max_row_len(rows) };
    if m > 1 { m } else { 1 }
}

/// Display width of cell `i` of `cells`, 0 when the row is shorter.
pub open spec fn cell_width(cells: Seq<String>, i: int) -> usize {
    if 0 <= i < cells.len() { unicode_str_width(cells[i]@) } else { 0 }
}

/// Display width of header cell `i` (0 without a header row).
pub open spec fn header_width(headers: Option<Vec<String>>, i: int) -> usize {
    match headers {
        Some(h) => cell_width(h@, i),
        None => 0,
    }
}

/// Widest cell of column `i` among `rows`.
pub open spec fn rows_width(rows: Seq<Vec<String>>, i: int) -> usize
    decreases rows.len(),
{
    if rows.len() == 0 {
        0
    } else {
        let rest = rows_width(rows.drop_last(), i);
        let here = cell_width(rows.last()@, i);
        if here > rest { here } else { rest }
    }
}

/// Natural width of each column: its widest cell, header included.
pub open spec fn natural_spec(headers: Option<Vec<String>>, rows: Seq<Vec<String>>) -> Seq<usize> {
    Seq::new(col_count_spec(headers, rows), |i: int| {
        let a = header_width(headers, i);
        let b = rows_width(rows, i);
        if a > b { a } else { b }
    })
}

/// Alignment of column `col`: its own entry, else the last one, else left.
pub open spec fn col_align_spec(aligns: Seq<Align>, col: int) -> Align {
    if 0 <= col < aligns.len() {
        aligns[col]
    } else if aligns.len() > 0 {
        aligns.last()
    } else {
        Align::Left
    }
}

// ---------------------------------------------------------------------------
// Justification
// ---------------------------------------------------------------------------

/// The longest prefix of `s` whose characters fit in `w` columns.
pub open spec fn fit_prefix(s: Seq<char>, w: int) -> Seq<char>
    decreases s.len(),
{
    if s.len() == 0 || cw(s[0]) > w {
        Seq::empty()
    } else {
        seq![s[0]] + fit_prefix(s.drop_first(), w - cw(s[0]))
    }
}

/// `n` spaces.
pub open spec fn spaces(n: nat) -> Seq<char> {
    Seq::new(n, |i: int| ' ')
}

/// `s` justified into a field `w` columns wide: cut to fit when it is at
/// least as wide, otherwise padded with spaces as `align` says (centred text
/// gets the odd space on its right).
pub open spec fn justify_spec(s: Seq<char>, w: nat, align: Align) -> Seq<char> {
    let vis = unicode_str_width(s) as nat;
    if vis >= w {
        fit_prefix(s, w as int)
    } else {
        let pad = (w - vis) as nat;
        match align {
            Align::Left => s + spaces(pad),
            Align::Right => spaces(pad) + s,
            Align::Center => spaces(pad / 2) + s + spaces((pad - pad / 2) as nat),
        }
    }
}

/// Appends `n` spaces to `out`.
fn push_spaces(out: &mut String, n: usize)
    ensures
        final(out)@ == old(out)@ + spaces(n as nat),
{
    let mut k: usize = 0;
    while k < n
        invariant
            k <= n,
            out@ == old(out)@ + spaces(k as nat),
        decreases n - k,
    {
        push_char(out, ' ');
        k += 1;
        assert(out@ =~= old(out)@ + spaces(k as nat));
    }
}

// ---------------------------------------------------------------------------
// Horizontal rules
// ---------------------------------------------------------------------------

/// `n` copies of `c`.
pub open spec fn repeat_char(c: char, n: nat) -> Seq<char> {
    Seq::new(n, |i: int| c)
}

/// One run of `seg` per column (two wider than the column, for the padding),
/// with `mid` between runs.
pub open spec fn rule_body(mid: char, seg: char, widths: Seq<u16>) -> Seq<char>
    decreases widths.len(),
{
    if widths.len() == 0 {
        Seq::empty()
    } else if widths.len() == 1 {
        repeat_char(seg, (widths[0] + 2) as nat)
    } else {
        rule_body(mid, seg, widths.drop_last()) + seq![mid] + repeat_char(seg, (widths.last() + 2) as nat)
    }
}

/// A horizontal rule across columns of the given widths.
pub open spec fn h_rule_spec(left: char, mid: char, seg: char, right: char, widths: Seq<u16>) -> Seq<char> {
    seq![left] + rule_body(mid, seg, widths) + seq![right]
}

/// Build a horizontal rule across all columns.
fn h_rule(left: char, mid: char, seg: char, right: char, widths: &Vec<u16>) -> (s: String)
    ensures
        s@ == h_rule_spec(left, mid, seg, right, widths@),
{
    let mut s = String::new();
    push_char(&mut s, left);
    let n = widths.len();
    let mut i: usize = 0;
    assert(widths@.take(0) =~= Seq::<u16>::empty());
    while i < n
        invariant
            i <= n,
            n == widths@.len(),
            s@ == seq![left] + rule_body(mid, seg, widths@.take(i as int)) + (if i > 0 && i < n { seq![mid] } else { Seq::empty() }),
        decreases n - i,
    {
        let ghost before = s@;
        let run = widths[i] as usize + 2;
        let mut k: usize = 0;
        while k < run
            invariant
                k <= run,
                s@ == before + repeat_char(seg, k as nat),
            decreases run - k,
        {
            push_char(&mut s, seg);
            k += 1;
            assert(s@ =~= before + repeat_char(seg, k as nat));
        }
        let ghost t = widths@.take(i + 1);
        assert(t.drop_last() =~= widths@.take(i as int));
        if i == 0 {
            assert(before + repeat_char(seg, run as nat) =~= seq![left] + rule_body(mid, seg, t));
        } else {
            assert(before + repeat_char(seg, run as nat) =~= seq![left] + rule_body(mid, seg, t));
        }
        if i + 1 < n {
            push_char(&mut s, mid);
        }
        i += 1;
    }
    assert(widths@.take(n as int) =~= widths@);
    push_char(&mut s, right);
    assert(s@ =~= h_rule_spec(left, mid, seg, right, widths@));
    s
}

// ---------------------------------------------------------------------------
// Distributing the width among columns
// ---------------------------------------------------------------------------

/// Position where column `i` goes among the columns `sorted`: before the
/// first narrower one (so equal columns keep their order).
pub open spec fn insert_pos(natural: Seq<usize>, sorted: Seq<usize>, i: int) -> int
    decreases sorted.len(),
{
    if sorted.len() == 0 || natural[sorted[0] as int] < natural[i] {
        0
    } else {
        1 + insert_pos(natural, sorted.drop_first(), i)
    }
}

/// The first `k` column indices ordered widest first; equally wide columns
/// keep their left-to-right order.
pub open spec fn widest_first(natural: Seq<usize>, k: nat) -> Seq<usize>
    decreases k,
{
    if k == 0 {
        Seq::empty()
    } else {
        let s = widest_first(natural, (k - 1) as nat);
        s.insert(insert_pos(natural, s, k - 1), (k - 1) as usize)
    }
}

/// Widths after giving the first `k` columns of `order` their share, and the
/// space still left: each column gets an equal share of what is left among
/// the columns still waiting, but no more than its natural width and at
/// least one character.  Columns not yet served have width 1.
pub open spec fn share_out(natural: Seq<usize>, order: Seq<usize>, content: int, k: nat) -> (Seq<u16>, int)
    decreases k,
{
    if k == 0 {
        (Seq::new(natural.len(), |i: int| 1u16), content)
    } else {
        let (w, rem) = share_out(natural, order, content, (k - 1) as nat);
        let i = order[k - 1] as int;
        let fair = rem / (natural.len() - (k - 1));
        let capped = if fair < natural[i] { fair } else { natural[i] as int };
        let wi = if capped > 1 { capped } else { 1 };
        (w.update(i, wi as u16), if rem > wi { rem - wi } else { 0 })
    }
}

/// Sum of the elements of `s`.
pub open spec fn sum_usize(s: Seq<usize>) -> int
    decreases s.len(),
{
    if s.len() == 0 { 0 } else { sum_usize(s.drop_last()) + s.last() }
}

/// Sum of the elements of `s`.
pub open spec fn sum_u16(s: Seq<u16>) -> int
    decreases s.len(),
{
    if s.len() == 0 { 0 } else { sum_u16(s.drop_last()) + s.last() }
}

/// Separator columns: one per column plus one, counted in `u16` as the
/// column count is, and no more than what is available.
pub open spec fn sep_total(n: nat, available: u16) -> u16 {
    let want = (n as u16).wrapping_add(1);
    if want < available { want } else { available }
}

/// Column widths for a table `available` columns wide: the natural widths
/// (at least one character each) when they all fit beside the separators;
/// otherwise, when every column can have one character, the space is shared
/// out widest column first; otherwise every column is one character wide.
pub open spec fn compute_widths_spec(natural: Seq<usize>, available: u16) -> Seq<u16> {
    let n = natural.len();
    if n == 0 {
        Seq::empty()
    } else {
        let content = available - sep_total(n, available);
        if sum_usize(natural) <= content {
            natural.map_values(|x: usize| if x < 1 { 1u16 } else { x as u16 })
        } else if content >= n {
            share_out(natural, widest_first(natural, n), content, n).0
        } else {
            Seq::new(n, |i: int| 1u16)
        }
    }
}

/// The first `k` column indices, widest first (see `widest_first`).
fn widest_first_exec(natural: &Vec<usize>) -> (r: Vec<usize>)
    ensures
        r@ == widest_first(natural@, natural@.len()),
{
    let n = natural.len();
    let mut sorted: Vec<usize> = Vec::new();
    let mut i: usize = 0;
    while i < n
        invariant
            i <= n,
            n == natural@.len(),
            sorted@ == widest_first(natural@, i as nat),
        decreases n - i,
    {
        let mut p: usize = 0;
        proof { lemma_widest_first_len(natural@, i as nat); }
        assert(sorted@.subrange(0, sorted@.len() as int) =~= sorted@);
        while p < sorted.len() && !(natural[sorted[p]] < natural[i])
            invariant
                p <= sorted@.len(),
                sorted@.len() == i,
                i < n,
                n == natural@.len(),
                forall|q: int| 0 <= q < sorted@.len() ==> #[trigger] sorted@[q] < i,
                insert_pos(natural@, sorted@, i as int) == p + insert_pos(natural@, sorted@.subrange(p as int, sorted@.len() as int), i as int),
            decreases sorted@.len() - p,
        {
            assert(sorted@.subrange(p as int, sorted@.len() as int).drop_first() =~= sorted@.subrange(p + 1, sorted@.len() as int));
            p += 1;
        }
        sorted.insert(p, i);
        i += 1;
    }
    sorted
}

proof fn lemma_widest_first_len(natural: Seq<usize>, k: nat)
    requires
        k <= natural.len(),
    ensures
        widest_first(natural, k).len() == k,
        forall|q: int| 0 <= q < k ==> #[trigger] widest_first(natural, k)[q] < k,
    decreases k,
{
    if k > 0 {
        lemma_widest_first_len(natural, (k - 1) as nat);
        lemma_insert_pos_range(natural, widest_first(natural, (k - 1) as nat), k - 1);
    }
}

proof fn lemma_insert_pos_range(natural: Seq<usize>, sorted: Seq<usize>, i: int)
    ensures
        0 <= insert_pos(natural, sorted, i) <= sorted.len(),
    decreases sorted.len(),
{
    if sorted.len() > 0 {
        lemma_insert_pos_range(natural, sorted.drop_first(), i);
    }
}

impl Default for Table {
    fn default() -> (t: Self)
        ensures
            t.headers is None,
            t.rows@.len() == 0,
            t.col_align@ == seq![Align::Left],
            t.border_style == BorderStyle::Single,
            t.border_fg == Color::Default,
            t.border_bg == Color::Default,
            t.header_fg == Color::Default,
            t.header_bg == Color::Default,
            t.header_style == StyleFlags::bold_spec(),
            t.row_fg == Color::Default,
            t.row_bg == Color::Default,
            t.alt_row_bg is None,
            t.scroll_row == 0,
    {
        let mut col_align: Vec<Align> = Vec::new();
        col_align.push(Align::Left);
        Table {
            headers: None,
            rows: Vec::new(),
            col_align,
            border_style: BorderStyle::Single,
            border_fg: Color::Default,
            border_bg: Color::Default,
            header_fg: Color::Default,
            header_bg: Color::Default,
            header_style: StyleFlags::bold(),
            row_fg: Color::Default,
            row_bg: Color::Default,
            alt_row_bg: None,
            scroll_row: 0,
        }
    }
}

impl Table {
    pub fn new() -> (t: Self)
        ensures
            t.headers is None,
            t.rows@.len() == 0,
            t.col_align@ == seq![Align::Left],
            t.border_style == BorderStyle::Single,
            t.border_fg == Color::Default,
            t.border_bg == Color::Default,
            t.header_fg == Color::Default,
            t.header_bg == Color::Default,
            t.header_style == StyleFlags::bold_spec(),
            t.row_fg == Color::Default,
            t.row_bg == Color::Default,
            t.alt_row_bg is None,
            t.scroll_row == 0,
    {
        Self::default()
    }

    pub fn headers(self, h: Vec<String>) -> (t: Self)
        ensures
            t == (Table { headers: Some(h), ..self }),
    {
        let mut t = self;
        t.headers = Some(h);
        t
    }

    pub fn rows(self, r: Vec<Vec<String>>) -> (t: Self)
        ensures
            t == (Table { rows: r, ..self }),
    {
        let mut t = self;
        t.rows = r;
        t
    }

    pub fn border_style(self, s: BorderStyle) -> (t: Self)
        ensures
            t == (Table { border_style: s, ..self }),
    {
        let mut t = self;
        t.border_style = s;
        t
    }

    pub fn border_fg(self, c: Color) -> (t: Self)
        ensures
            t == (Table { border_fg: c, ..self }),
    {
        let mut t = self;
        t.border_fg = c;
        t
    }

    pub fn col_align(self, a: Vec<Align>) -> (t: Self)
        ensures
            t == (Table { col_align: a, ..self }),
    {
        let mut t = self;
        t.col_align = a;
        t
    }

    pub fn alt_row_bg(self, c: Color) -> (t: Self)
        ensures
            t == (Table { alt_row_bg: Some(c), ..self }),
    {
        let mut t = self;
        t.alt_row_bg = Some(c);
        t
    }

    /// Number of columns: the longest of the header and the rows, at least one.
    pub fn col_count(&self) -> (n: usize)
        ensures
            n == col_count_spec(self.headers, self.rows@),
    {
        let from_headers: usize = match &self.headers {
            Some(h) => h.len(),
            None => 0,
        };
        let mut from_rows: usize = 0;
        let mut r: usize = 0;
        assert(self.rows@.take(0) =~= Seq::<Vec<String>>::empty());
        while r < self.rows.len()
            invariant
                r <= self.rows@.len(),
                from_rows == max_row_len(self.rows@.take(r as int)),
            decreases self.rows@.len() - r,
        {
            assert(self.rows@.take(r + 1).drop_last() =~= self.rows@.take(r as int));
            if self.rows[r].len() > from_rows {
                from_rows = self.rows[r].len();
            }
            r += 1;
        }
        assert(self.rows@.take(self.rows@.len() as int) =~= self.rows@);
        let m = if from_headers > from_rows { from_headers } else { from_rows };
        if m > 1 { m } else { 1 }
    }

    /// Compute natural column widths (max content width per column).
    pub fn natural_widths(&self) -> (r: Vec<usize>)
        ensures
            r@ == natural_spec(self.headers, self.rows@),
    {
        let n_cols = self.col_count();
        let mut widths: Vec<usize> = Vec::new();
        while widths.len() < n_cols
            invariant
                widths@.len() <= n_cols,
                forall|j: int| 0 <= j < widths@.len() ==> widths@[j] == 0,
            decreases n_cols - widths@.len(),
        {
            widths.push(0);
        }
        match &self.headers {
            Some(hdrs) => {
                let mut i: usize = 0;
                while i < hdrs.len()
                    invariant
                        i <= hdrs@.len(),
                        widths@.len() == n_cols,
                        self.headers == Some(*hdrs),
                        forall|j: int| 0 <= j < n_cols ==> #[trigger] widths@[j] == (if j < i { header_width(self.headers, j) } else { 0 }),
                    decreases hdrs@.len() - i,
                {
                    let sw = str_width(hdrs[i].as_str());
                    if i < n_cols {
                        let cur = widths[i];
                        widths.set(i, if cur > sw { cur } else { sw });
                    }
                    i += 1;
                }
            },
            None => {},
        }
        assert forall|j: int| 0 <= j < n_cols implies #[trigger] widths@[j] == header_width(self.headers, j) by {}
        let mut r: usize = 0;
        assert(self.rows@.take(0) =~= Seq::<Vec<String>>::empty());
        while r < self.rows.len()
            invariant
                r <= self.rows@.len(),
                widths@.len() == n_cols,
                forall|j: int| 0 <= j < n_cols ==> #[trigger] widths@[j] == ({
                    let a = header_width(self.headers, j);
                    let b = rows_width(self.rows@.take(r as int), j);
                    if a > b { a } else { b }
                }),
            decreases self.rows@.len() - r,
        {
            let row = &self.rows[r];
            let ghost prev = widths@;
            let mut c: usize = 0;
            while c < row.len()
                invariant
                    c <= row@.len(),
                    widths@.len() == n_cols,
                    prev.len() == n_cols,
                    forall|j: int| 0 <= j < n_cols ==> #[trigger] widths@[j] == (if j < c {
                        let here = cell_width(row@, j);
                        if here > prev[j] { here } else { prev[j] }
                    } else {
                        prev[j]
                    }),
                decreases row@.len() - c,
            {
                let sw = str_width(row[c].as_str());
                if c < n_cols {
                    let cur = widths[c];
                    widths.set(c, if cur > sw { cur } else { sw });
                }
                c += 1;
            }
            assert(self.rows@.take(r + 1).drop_last() =~= self.rows@.take(r as int));
            assert(self.rows@.take(r + 1).last() == *row);
            r += 1;
        }
        assert(self.rows@.take(self.rows@.len() as int) =~= self.rows@);
        assert(widths@ =~= natural_spec(self.headers, self.rows@));
        widths
    }

    /// Alignment of column `col`: its own entry, else the last one, else left.
    pub fn col_align_for(&self, col: usize) -> (a: Align)
        ensures
            a == col_align_spec(self.col_align@, col as int),
    {
        if col < self.col_align.len() {
            self.col_align[col]
        } else if self.col_align.len() > 0 {
            self.col_align[self.col_align.len() - 1]
        } else {
            Align::Left
        }
    }

    /// Distribute available width among columns.  Each column gets at minimum
    /// 1 character.  If there's extra space, distribute proportionally to
    /// natural widths.  If there's not enough space, shrink widest columns first.
    pub fn compute_widths(&self, available: u16) -> (r: Vec<u16>)
        ensures
            r@ == compute_widths_spec(natural_spec(self.headers, self.rows@), available),
            r@.len() == col_count_spec(self.headers, self.rows@),
    {
        let natural = self.natural_widths();
        let n = natural.len();
        if n == 0 {
            return Vec::new();
        }
        // Separators: n+1 borders (left edge + divider per col + right edge).
        let want = (n as u16).wrapping_add(1);
        let sep = if want < available { want } else { available };
        let content_space = (available - sep) as usize;

        let mut natural_sum: usize = 0;
        let mut i: usize = 0;
        assert(natural@.take(0) =~= Seq::<usize>::empty());
        while i < n
            invariant
                i <= n,
                n == natural@.len(),
                natural_sum == (if sum_usize(natural@.take(i as int)) < usize::MAX { sum_usize(natural@.take(i as int)) } else { usize::MAX as int }),
            decreases n - i,
        {
            assert(natural@.take(i + 1).drop_last() =~= natural@.take(i as int));
            natural_sum = natural_sum.saturating_add(natural[i]);
            i += 1;
        }
        assert(natural@.take(n as int) =~= natural@);

        let mut widths: Vec<u16> = Vec::new();
        while widths.len() < n
            invariant
                widths@.len() <= n,
                forall|j: int| 0 <= j < widths@.len() ==> widths@[j] == 1,
            decreases n - widths@.len(),
        {
            widths.push(1);
        }
        assert(widths@ =~= Seq::new(n as nat, |j: int| 1u16));

        if natural_sum <= content_space {
            // All columns fit at their natural width.
            let mut k: usize = 0;
            while k < n
                invariant
                    k <= n,
                    n == natural@.len(),
                    widths@.len() == n,
                    forall|j: int| 0 <= j < n ==> #[trigger] widths@[j] == (if j < k {
                    if natural@[j] < 1 { 1u16 } else { natural@[j] as u16 }
                } else { 1u16 }),
                decreases n - k,
            {
                let nk = natural[k];
                widths.set(k, if nk < 1 { 1 } else { nk as u16 });
                k += 1;
            }
            assert(widths@ =~= natural@.map_values(|x: usize| if x < 1 { 1u16 } else { x as u16 }));
        } else if content_space >= n {
            // Scale down proportionally from widest to narrowest.
            let order = widest_first_exec(&natural);
            proof { lemma_widest_first_len(natural@, n as nat); }
            let mut remaining: usize = content_space;
            let mut k: usize = 0;
            while k < n
                invariant
                    k <= n,
                    n == natural@.len(),
                    order@.len() == n,
                    widths@.len() == n,
                    forall|q: int| 0 <= q < n ==> #[trigger] order@[q] < n,
                    content_space <= u16::MAX,
                    remaining <= content_space,
                    (widths@, remaining as int) == share_out(natural@, order@, content_space as int, k as nat),
                decreases n - k,
            {
                let idx = order[k];
                let cols_left = n - k;
                let fair_share = remaining / cols_left;
                let capped = if fair_share < natural[idx] { fair_share } else { natural[idx] };
                let wi = if capped > 1 { capped } else { 1 };
                widths.set(idx, wi as u16);
                remaining = remaining.saturating_sub(wi);
                k += 1;
            }
        }
        widths
    }

    /// Justify a string into a field of width `w` using the given alignment.
    pub fn justify(s: &str, w: usize, align: Align) -> (r: String)
        ensures
            r@ == justify_spec(s@, w as nat, align),
    {
        let vis_w = str_width(s);
        if vis_w >= w {
            // Truncate to fit.
            let mut out = String::new();
            let mut used: usize = 0;
            let n = s.unicode_len();
            let mut i: usize = 0;
            let mut stop = false;
            assert(s@.skip(0) =~= s@);
            while i < n && !stop
                invariant
                    i <= n,
                    n == s@.len(),
                    used <= w,
                    out@ + fit_prefix(s@.skip(i as int), w - used) == fit_prefix(s@, w as int),
                    stop ==> fit_prefix(s@.skip(i as int), w - used) == Seq::<char>::empty(),
                decreases n - i + (if stop { 0int } else { 1int }),
            {
                let ch = s.get_char(i);
                let c = advance_width(ch);
                let ghost rest = s@.skip(i as int);
                assert(rest[0] == ch);
                assert(rest.drop_first() =~= s@.skip(i + 1));
                if c > w - used {
                    stop = true;
                } else {
                    let ghost o0 = out@;
                    push_char(&mut out, ch);
                    assert(o0 + fit_prefix(rest, w - used) =~= out@ + fit_prefix(s@.skip(i + 1), w - (used + c)));
                    used += c;
                    i += 1;
                }
            }
            proof {
                if !stop {
                    assert(s@.skip(n as int) =~= Seq::<char>::empty());
                }
                assert(out@ + Seq::<char>::empty() =~= out@);
            }
            return out;
        }
        let pad = w - vis_w;
        match align {
            Align::Left => {
                let mut out = to_owned_string(s);
                push_spaces(&mut out, pad);
                out
            },
            Align::Right => {
                let mut lead = String::new();
                push_spaces(&mut lead, pad);
                let out = concat_str(lead.as_str(), s);
                assert(out@ =~= spaces(pad as nat) + s@);
                out
            },
            Align::Center => {
                let lpad = pad / 2;
                let rpad = pad - lpad;
                let mut lead = String::new();
                push_spaces(&mut lead, lpad);
                let mut out = concat_str(lead.as_str(), s);
                push_spaces(&mut out, rpad);
                assert(out@ =~= spaces(lpad as nat) + s@ + spaces(rpad as nat));
                out
            },
        }
    }
}

// ---------------------------------------------------------------------------
// Laws of the width distribution
// ---------------------------------------------------------------------------

proof fn lemma_widest_first_distinct(natural: Seq<usize>, k: nat)
    requires
        k <= natural.len() <= usize::MAX,
    ensures
        widest_first(natural, k).len() == k,
        forall|q: int| 0 <= q < k ==> #[trigger] widest_first(natural, k)[q] < k,
        forall|a: int, b: int| 0 <= a < b < k ==> widest_first(natural, k)[a] != widest_first(natural, k)[b],
    decreases k,
{
    if k > 0 {
        let s = widest_first(natural, (k - 1) as nat);
        lemma_widest_first_distinct(natural, (k - 1) as nat);
        let p = insert_pos(natural, s, k - 1);
        lemma_insert_pos_range(natural, s, k - 1);
        s.insert_ensures(p, (k - 1) as usize);
        let r = s.insert(p, (k - 1) as usize);
        assert forall|q: int| 0 <= q < k implies #[trigger] r[q] < k by {
            if q < p {
            } else if q == p {
            } else {
                assert(r[(q - 1) + 1] == s[q - 1]);
            }
        }
        assert forall|a: int, b: int| 0 <= a < b < k implies r[a] != r[b] by {
            if b < p {
            } else if b == p {
                if a < p { assert(r[a] == s[a]); }
            } else {
                assert(r[(b - 1) + 1] == s[b - 1]);
                if a < p {
                    assert(r[a] == s[a]);
                } else if a == p {
                } else {
                    assert(r[(a - 1) + 1] == s[a - 1]);
                }
            }
        }
    }
}

proof fn lemma_sum_u16_update(s: Seq<u16>, i: int, x: u16)
    requires
        0 <= i < s.len(),
    ensures
        sum_u16(s.update(i, x)) == sum_u16(s) - s[i] + x,
    decreases s.len(),
{
    if i < s.len() - 1 {
        lemma_sum_u16_update(s.drop_last(), i, x);
        assert(s.update(i, x).drop_last() =~= s.drop_last().update(i, x));
    } else {
        assert(s.update(i, x).drop_last() =~= s.drop_last());
    }
}

proof fn lemma_sum_u16_ones(n: nat)
    ensures
        sum_u16(Seq::new(n, |i: int| 1u16)) == n,
    decreases n,
{
    if n > 0 {
        lemma_sum_u16_ones((n - 1) as nat);
        assert(Seq::new(n, |i: int| 1u16).drop_last() =~= Seq::new((n - 1) as nat, |i: int| 1u16));
    }
}

proof fn lemma_sum_usize_nonneg(s: Seq<usize>)
    ensures
        sum_usize(s) >= 0,
    decreases s.len(),
{
    if s.len() > 0 {
        lemma_sum_usize_nonneg(s.drop_last());
    }
}

proof fn lemma_share_step(rem: int, c: int, wi: int)
    requires
        c >= 1,
        rem >= c,
        1 <= wi <= rem / c,
    ensures
        rem - wi >= c - 1,
        wi <= rem,
{
    assert(rem / c >= 1) by (nonlinear_arith) requires rem >= c, c >= 1;
    assert(rem - rem / c >= c - 1) by (nonlinear_arith) requires rem >= c, c >= 1;
    assert(rem / c <= rem) by (nonlinear_arith) requires rem >= c, c >= 1;
}

proof fn lemma_share_out(natural: Seq<usize>, order: Seq<usize>, content: int, k: nat)
    requires
        order.len() == natural.len(),
        forall|q: int| 0 <= q < order.len() ==> #[trigger] order[q] < natural.len(),
        forall|a: int, b: int| 0 <= a < b < order.len() ==> order[a] != order[b],
        natural.len() <= content <= u16::MAX,
        k <= natural.len(),
    ensures
        share_out(natural, order, content, k).0.len() == natural.len(),
        share_out(natural, order, content, k).1 >= natural.len() - k,
        share_out(natural, order, content, k).1 <= content,
        sum_u16(share_out(natural, order, content, k).0) == content - share_out(natural, order, content, k).1 + (natural.len() - k),
        forall|j: int| 0 <= j < natural.len() && (forall|q: int| 0 <= q < k ==> order[q] != j)
            ==> #[trigger] share_out(natural, order, content, k).0[j] == 1,
        forall|j: int| 0 <= j < natural.len() ==> #[trigger] share_out(natural, order, content, k).0[j] >= 1,
        forall|j: int| 0 <= j < natural.len() ==> #[trigger] share_out(natural, order, content, k).0[j] <= 1
            || share_out(natural, order, content, k).0[j] <= natural[j],
    decreases k,
{
    let n = natural.len();
    if k == 0 {
        lemma_sum_u16_ones(n);
    } else {
        lemma_share_out(natural, order, content, (k - 1) as nat);
        let (w, rem) = share_out(natural, order, content, (k - 1) as nat);
        let i = order[k - 1] as int;
        let c = n - (k - 1);
        let fair = rem / c;
        let capped = if fair < natural[i] { fair } else { natural[i] as int };
        let wi = if capped > 1 { capped } else { 1 };
        assert(fair >= 1) by (nonlinear_arith) requires rem >= c, c >= 1, fair == rem / c;
        lemma_share_step(rem, c, wi);
        assert forall|q: int| 0 <= q < k - 1 implies order[q] != i by {}
        assert(w[i] == 1);
        lemma_sum_u16_update(w, i, wi as u16);
    }
}

/// Every column gets at least one character.  When the natural widths fit
/// beside the separators, every column gets at least its natural width;
/// when they do not but every column can have one character, the columns
/// take no more room than there is and none is widened past its natural
/// width (only wide columns are narrowed).
pub proof fn lemma_compute_widths_fit(natural: Seq<usize>, available: u16)
    requires
        0 < natural.len() <= usize::MAX,
    ensures
        compute_widths_spec(natural, available).len() == natural.len(),
        forall|j: int| 0 <= j < natural.len() ==> #[trigger] compute_widths_spec(natural, available)[j] >= 1,
        sum_usize(natural) <= available - sep_total(natural.len(), available) ==>
            forall|j: int| 0 <= j < natural.len() ==> #[trigger] compute_widths_spec(natural, available)[j] >= natural[j],
        sum_usize(natural) > available - sep_total(natural.len(), available) >= natural.len() ==> {
            &&& sum_u16(compute_widths_spec(natural, available)) + sep_total(natural.len(), available) <= available
            &&& forall|j: int| 0 <= j < natural.len() ==> #[trigger] compute_widths_spec(natural, available)[j] <= 1
                || compute_widths_spec(natural, available)[j] <= natural[j]
        },
{
    let n = natural.len();
    let content = available - sep_total(n, available);
    if sum_usize(natural) <= content {
        assert forall|j: int| 0 <= j < n implies #[trigger] natural[j] <= sum_usize(natural) by {
            lemma_elem_le_sum(natural, j);
        }
    } else if content >= n {
        lemma_widest_first_distinct(natural, n);
        lemma_share_out(natural, widest_first(natural, n), content, n);
    }
}

proof fn lemma_elem_le_sum(s: Seq<usize>, j: int)
    requires
        0 <= j < s.len(),
    ensures
        s[j] <= sum_usize(s),
    decreases s.len(),
{
    lemma_sum_usize_nonneg(s.drop_last());
    if j < s.len() - 1 {
        lemma_elem_le_sum(s.drop_last(), j);
    }
}

proof fn lemma_insert_pos_props(natural: Seq<usize>, sorted: Seq<usize>, i: int)
    ensures
        forall|q: int| 0 <= q < insert_pos(natural, sorted, i) ==> !(natural[#[trigger] sorted[q] as int] < natural[i]),
        insert_pos(natural, sorted, i) < sorted.len() ==> natural[sorted[insert_pos(natural, sorted, i)] as int] < natural[i],
    decreases sorted.len(),
{
    if sorted.len() > 0 && !(natural[sorted[0] as int] < natural[i]) {
        lemma_insert_pos_props(natural, sorted.drop_first(), i);
        lemma_insert_pos_range(natural, sorted.drop_first(), i);
        let p1 = insert_pos(natural, sorted.drop_first(), i);
        if p1 < sorted.len() - 1 {
            assert(sorted[p1 + 1] == sorted.drop_first()[p1]);
        }
        assert forall|q: int| 0 <= q < insert_pos(natural, sorted, i) implies !(natural[#[trigger] sorted[q] as int] < natural[i]) by {
            if q > 0 {
                assert(sorted[q] == sorted.drop_first()[q - 1]);
            }
        }
    }
}

/// Column `x` comes before column `y`: it is wider, or as wide and to its left.
pub open spec fn wider_first(natural: Seq<usize>, x: int, y: int) -> bool {
    natural[x] > natural[y] || (natural[x] == natural[y] && x < y)
}

/// `widest_first` orders the columns widest first, equally wide columns from
/// left to right.
#[verifier::spinoff_prover]
pub proof fn lemma_widest_first_sorted(natural: Seq<usize>, k: nat)
    requires
        k <= natural.len() <= usize::MAX,
    ensures
        forall|a: int, b: int| 0 <= a < b < k ==>
            wider_first(natural, #[trigger] widest_first(natural, k)[a] as int, #[trigger] widest_first(natural, k)[b] as int),
    decreases k,
{
    if k > 0 {
        let s = widest_first(natural, (k - 1) as nat);
        lemma_widest_first_sorted(natural, (k - 1) as nat);
        lemma_widest_first_distinct(natural, (k - 1) as nat);
        let x = k - 1;
        let p = insert_pos(natural, s, x);
        lemma_insert_pos_range(natural, s, x);
        lemma_insert_pos_props(natural, s, x);
        s.insert_ensures(p, x as usize);
        let r = s.insert(p, x as usize);
        assert forall|a: int, b: int| 0 <= a < b < k implies
            wider_first(natural, #[trigger] r[a] as int, #[trigger] r[b] as int) by {
            if b < p {
                assert(r[a] == s[a] && r[b] == s[b]);
            } else if b == p {
                assert(r[a] == s[a]);
                assert(!(natural[s[a] as int] < natural[x]));
            } else {
                assert(r[(b - 1) + 1] == s[b - 1]);
                if a < p {
                    assert(r[a] == s[a]);
                    assert(wider_first(natural, s[a] as int, s[b - 1] as int));
                } else if a == p {
                    if p < b - 1 {
                        assert(wider_first(natural, s[p] as int, s[b - 1] as int));
                    }
                    assert(natural[s[p] as int] < natural[x]);
                } else {
                    assert(r[(a - 1) + 1] == s[a - 1]);
                    assert(wider_first(natural, s[a - 1] as int, s[b - 1] as int));
                }
            }
        }
    }
}

// ---------------------------------------------------------------------------
// Drawing
// ---------------------------------------------------------------------------

/// Sum of `w + 2` over the natural widths, in wrapping `u16` arithmetic.
pub open spec fn padded_sum(natural: Seq<usize>) -> u16
    decreases natural.len(),
{
    if natural.len() == 0 {
        0
    } else {
        padded_sum(natural.drop_last()).wrapping_add((natural.last() as u16).wrapping_add(2))
    }
}

/// The texts of a row's cells (none for a row drawn without cells).
pub open spec fn row_texts(cells: Option<Seq<String>>) -> Seq<Seq<char>> {
    match cells {
        Some(c) => c.map_values(|s: String| s@),
        None => Seq::empty(),
    }
}

/// The text of cell `i`, empty past the end of the row.
pub open spec fn text_at(texts: Seq<Seq<char>>, i: int) -> Seq<char> {
    if 0 <= i < texts.len() { texts[i] } else { Seq::empty() }
}

impl Table {
    /// What drawing the cells of a row does from column `col_x` on, cell `i`
    /// first: each cell is printed justified in its column with a space of
    /// padding on both sides, the cursor moves past it, and a vertical border
    /// follows every cell but the last; the closing border goes where the
    /// cursor ends (cursor arithmetic wraps at `u16`, as the drawing does).
    pub open spec fn row_cells(&self, m: CanvasModel, oc: int, or: int, w: int, h: int, row: int, col_x: u16,
        widths: Seq<u16>, texts: Seq<Seq<char>>, i: nat, fg: Color, bg: Color, style: StyleFlags, v: Cell)
        -> CanvasModel
        decreases widths.len() - i,
    {
        if i >= widths.len() {
            region_set(m, oc, or, w, h, col_x as int, row, v)
        } else {
            let text = seq![' '] + justify_spec(text_at(texts, i as int), widths[i as int] as nat,
                col_align_spec(self.col_align@, i as int)) + seq![' '];
            let m1 = print_spec(m, oc, or, w, h, col_x as int, row, text, fg, bg, style);
            let x1 = col_x.wrapping_add(widths[i as int]).wrapping_add(2);
            if i + 1 < widths.len() {
                self.row_cells(region_set(m1, oc, or, w, h, x1 as int, row, v), oc, or, w, h, row, x1.wrapping_add(1),
                    widths, texts, i + 1, fg, bg, style, v)
            } else {
                self.row_cells(m1, oc, or, w, h, row, x1, widths, texts, i + 1, fg, bg, style, v)
            }
        }
    }

    /// What drawing a whole row does: the opening border, then the cells.
    pub open spec fn row_drawn(&self, m: CanvasModel, oc: int, or: int, w: int, h: int, row: int, widths: Seq<u16>,
        texts: Seq<Seq<char>>, fg: Color, bg: Color, style: StyleFlags, v: Cell) -> CanvasModel {
        self.row_cells(region_set(m, oc, or, w, h, 0, row, v), oc, or, w, h, row, 1u16, widths, texts, 0, fg, bg,
            style, v)
    }
}

/// What drawing a row leaves on that row depends only on that row.
proof fn lemma_row_cells_local(t: &Table, a: CanvasModel, b: CanvasModel, oc: int, or: int, w: int, h: int, row: int,
    col_x: u16, widths: Seq<u16>, texts: Seq<Seq<char>>, i: nat, fg: Color, bg: Color, style: StyleFlags, v: Cell)
    requires
        a.wf(),
        b.wf(),
        a.width == b.width,
        a.height == b.height,
        0 <= or + row < a.height,
        w > 0 ==> 0 <= oc && oc + w <= a.width,
        h > 0 ==> 0 <= or && or + h <= a.height,
        row_kept(a, b, or + row),
    ensures
        row_kept(t.row_cells(a, oc, or, w, h, row, col_x, widths, texts, i, fg, bg, style, v),
            t.row_cells(b, oc, or, w, h, row, col_x, widths, texts, i, fg, bg, style, v), or + row),
    decreases widths.len() - i,
{
    if i >= widths.len() {
        lemma_region_set_row_local(a, b, oc, or, w, h, col_x as int, row, v);
    } else {
        let text = seq![' '] + justify_spec(text_at(texts, i as int), widths[i as int] as nat,
            col_align_spec(t.col_align@, i as int)) + seq![' '];
        let a1 = print_spec(a, oc, or, w, h, col_x as int, row, text, fg, bg, style);
        let b1 = print_spec(b, oc, or, w, h, col_x as int, row, text, fg, bg, style);
        lemma_print_row_local(a, b, oc, or, w, h, col_x as int, row, text, fg, bg, style);
        lemma_print_spec(a, oc, or, w, h, col_x as int, row, text, fg, bg, style);
        lemma_print_spec(b, oc, or, w, h, col_x as int, row, text, fg, bg, style);
        let x1 = col_x.wrapping_add(widths[i as int]).wrapping_add(2);
        if i + 1 < widths.len() {
            lemma_region_set_row_local(a1, b1, oc, or, w, h, x1 as int, row, v);
            lemma_region_set(a1, oc, or, w, h, x1 as int, row, v);
            lemma_region_set(b1, oc, or, w, h, x1 as int, row, v);
            lemma_row_cells_local(t, region_set(a1, oc, or, w, h, x1 as int, row, v),
                region_set(b1, oc, or, w, h, x1 as int, row, v), oc, or, w, h, row, x1.wrapping_add(1), widths,
                texts, i + 1, fg, bg, style, v);
        } else {
            lemma_row_cells_local(t, a1, b1, oc, or, w, h, row, x1, widths, texts, i + 1, fg, bg, style, v);
        }
    }
}

impl Table {
    /// One row of cells between vertical borders: each cell justified in its
    /// column with a space of padding on both sides.
    fn draw_row(
        &self, canvas: &mut SubCanvas<'_>, row: u16, col_widths: &Vec<u16>, cells: Option<&Vec<String>>,
        text_fg: Color, text_bg: Color, text_style: StyleFlags, g: &BorderGlyphs,
    )
        requires
            old(canvas).wf(),
            old(canvas).width + 2 <= u16::MAX,
        ensures
            final(canvas).same_frame(old(canvas)),
            final(canvas).wf(),
            unchanged_outside(old(canvas).parent@, final(canvas).parent@, old(canvas).origin_col as int,
                old(canvas).origin_row as int, old(canvas).width as int, old(canvas).height as int),
            only_row_changed(old(canvas).parent@, final(canvas).parent@, old(canvas).origin_row + row),
            final(canvas).parent@ == self.row_drawn(old(canvas).parent@, old(canvas).origin_col as int,
                old(canvas).origin_row as int, old(canvas).width as int, old(canvas).height as int, row as int,
                col_widths@, row_texts(match cells { Some(c) => Some(c@), None => None }), text_fg, text_bg, text_style,
                border_cell_spec(g.vertical, self.border_fg, self.border_bg)),
            *final(final(canvas).parent) == *final(old(canvas).parent),
    {
        let w = canvas.width();
        let h = canvas.height();
        let ghost m0 = canvas.parent@;
        let ghost oc = canvas.origin_col as int;
        let ghost or = canvas.origin_row as int;
        proof { lemma_unchanged_outside_refl(m0, oc, or, w as int, h as int); }
        let fg = self.border_fg;
        let bg = self.border_bg;
        let ghost m = canvas.parent@;
        proof {
            lemma_region_set_row(m, oc, or, w as int, h as int, 0, row as int, border_cell_spec(g.vertical, fg, bg));
            lemma_only_row_changed(m, crate::canvas::canvas::region_set(m, oc, or, w as int, h as int, 0, row as int,
                border_cell_spec(g.vertical, fg, bg)), or + row, oc, oc + 1);
        }
        canvas.set(0, row, border_cell(g.vertical, fg, bg));
        proof { lemma_unchanged_outside_trans(m0, m, canvas.parent@, oc, or, w as int, h as int); }
        let ghost vcell = border_cell_spec(g.vertical, fg, bg);
        let ghost texts = row_texts(match cells { Some(c) => Some(c@), None => None });
        let ghost target = self.row_drawn(m0, oc, or, w as int, h as int, row as int, col_widths@, texts, text_fg,
            text_bg, text_style, vcell);
        let n = col_widths.len();
        let mut col_x: u16 = 1;
        let mut i: usize = 0;
        while i < n
            invariant
                self.row_cells(canvas.parent@, oc, or, w as int, h as int, row as int, col_x, col_widths@, texts,
                    i as nat, text_fg, text_bg, text_style, vcell) == target,
                vcell == border_cell_spec(g.vertical, fg, bg),
                texts == row_texts(match cells { Some(c) => Some(c@), None => None }),
                fg == self.border_fg,
                bg == self.border_bg,
                i <= n,
                n == col_widths@.len(),
                canvas.wf(),
                canvas.origin_col == oc,
                canvas.origin_row == or,
                canvas.width == w,
                canvas.height == h,
                w + 2 <= u16::MAX,
                unchanged_outside(m0, canvas.parent@, oc, or, w as int, h as int),
                only_row_changed(m0, canvas.parent@, or + row),
                *final(canvas.parent) == *final(old(canvas).parent),
            decreases n - i,
        {
            let cwid = col_widths[i];
            let text: &str = match cells {
                Some(c) => if i < c.len() { c[i].as_str() } else { "" },
                None => "",
            };
            proof { reveal_strlit(""); }
            assert(text@ == text_at(texts, i as int));
            let justified = pad_one_space(Self::justify(text, cwid as usize, self.col_align_for(i)).as_str());
            let ghost m = canvas.parent@;
            proof {
                lemma_print_row(m, oc, or, w as int, h as int, col_x as int, row as int, justified@, text_fg, text_bg, text_style);
            }
            canvas.print(col_x, row, justified.as_str(), text_fg, text_bg, text_style);
            proof {
                lemma_unchanged_outside_trans(m0, m, canvas.parent@, oc, or, w as int, h as int);
                lemma_only_row_changed(m, canvas.parent@, or + row, oc + col_x, oc + w);
                lemma_only_row_changed_trans(m0, m, canvas.parent@, or + row);
            }
            col_x = col_x.wrapping_add(cwid).wrapping_add(2);
            if i + 1 < n {
                let ghost m = canvas.parent@;
                proof { lemma_region_set_row(m, oc, or, w as int, h as int, col_x as int, row as int, border_cell_spec(g.vertical, fg, bg)); }
                canvas.set(col_x, row, border_cell(g.vertical, fg, bg));
                proof {
                    lemma_unchanged_outside_trans(m0, m, canvas.parent@, oc, or, w as int, h as int);
                    lemma_only_row_changed(m, canvas.parent@, or + row, oc + col_x, oc + col_x + 1);
                    lemma_only_row_changed_trans(m0, m, canvas.parent@, or + row);
                }
                col_x = col_x.wrapping_add(1);
            }
            i += 1;
        }
        let ghost m = canvas.parent@;
        proof { lemma_region_set_row(m, oc, or, w as int, h as int, col_x as int, row as int, border_cell_spec(g.vertical, fg, bg)); }
        canvas.set(col_x, row, border_cell(g.vertical, fg, bg));
        proof {
            lemma_unchanged_outside_trans(m0, m, canvas.parent@, oc, or, w as int, h as int);
            lemma_only_row_changed(m, canvas.parent@, or + row, oc + col_x, oc + col_x + 1);
            lemma_only_row_changed_trans(m0, m, canvas.parent@, or + row);
        }
    }
}

impl Table {
    /// The column widths on a region `w` columns wide.
    pub open spec fn widths_for(&self, w: u16) -> Seq<u16> {
        compute_widths_spec(natural_spec(self.headers, self.rows@), w)
    }

    /// The rule drawn across the top of a region `w` columns wide.
    pub open spec fn top_rule(&self, caps: &TermCaps, w: u16) -> Seq<char> {
        let g = border_glyphs(style_for_caps(self.border_style, caps.unicode));
        h_rule_spec(g.top_left, g.tee_top, g.horizontal, g.top_right, self.widths_for(w))
    }

    /// The rule drawn across the bottom of a region `w` columns wide.
    pub open spec fn bottom_rule(&self, caps: &TermCaps, w: u16) -> Seq<char> {
        let g = border_glyphs(style_for_caps(self.border_style, caps.unicode));
        h_rule_spec(g.bottom_left, g.tee_bottom, g.horizontal, g.bottom_right, self.widths_for(w))
    }

    /// `m` is `before` with `rule` printed in the border colors at local row
    /// `row` of the region, as far as that row goes.
    pub open spec fn rule_row(&self, before: CanvasModel, m: CanvasModel, oc: int, or: int, w: int, h: int, row: int,
        rule: Seq<char>) -> bool {
        row_kept(print_spec(before, oc, or, w, h, 0, row, rule, self.border_fg, self.border_bg, StyleFlags { bits: 0 }),
            m, or + row)
    }
}

impl Table {
    /// The canvas row of the first record: after the top rule, and after the
    /// header and its rule when there is a header.
    pub open spec fn first_data_row(&self) -> int {
        if self.headers is Some { 3 } else { 1 }
    }

    /// The first record shown: the scroll position, held on the last record.
    pub open spec fn window_start(&self) -> int {
        let len = self.rows@.len() as int;
        let last = if len > 0 { len - 1 } else { 0 };
        if (self.scroll_row as int) < last { self.scroll_row as int } else { last }
    }

    /// How many records are shown in a region `h` rows tall: as many as
    /// there are rows between the first record's row and the bottom rule,
    /// and as many as remain from the first one shown.
    pub open spec fn window_count(&self, h: int) -> int {
        let len = self.rows@.len() as int;
        let visible = if h - self.first_data_row() - 1 > 0 { h - self.first_data_row() - 1 } else { 0 };
        let start = self.window_start();
        let end = if start + visible < len { start + visible } else { len };
        end - start
    }

    /// The background of the `k`-th record shown: the alternate one on odd
    /// records when there is one.
    pub open spec fn record_bg(&self, k: int) -> Color {
        if k % 2 == 1 {
            match self.alt_row_bg {
                Some(c) => c,
                None => self.row_bg,
            }
        } else {
            self.row_bg
        }
    }

    /// The `k`-th record shown, drawn on its row of `m`.
    pub open spec fn record_drawn(&self, m: CanvasModel, oc: int, or: int, w: int, h: int, widths: Seq<u16>, v: Cell,
        k: int) -> CanvasModel {
        self.row_drawn(m, oc, or, w, h, self.first_data_row() + 2 * k, widths,
            row_texts(Some(self.rows@[self.window_start() + k]@)), self.row_fg, self.record_bg(k), StyleFlags { bits: 0 },
            v)
    }

    /// `rule` printed in the border colors from the first column of local row `row`.
    pub open spec fn rule_printed(&self, m: CanvasModel, oc: int, or: int, w: int, h: int, row: int, rule: Seq<char>)
        -> CanvasModel {
        print_spec(m, oc, or, w, h, 0, row, rule, self.border_fg, self.border_bg, StyleFlags { bits: 0 })
    }

    /// The records shown and the rules between them, as drawn over `m0` in
    /// the region at `(oc, or)` of size `w × h`: the `k`-th record on row
    /// `first + 2k` and a rule after it when another record follows, as long
    /// as they stay above the bottom rule.
    pub open spec fn records_drawn(&self, m0: CanvasModel, m: CanvasModel, oc: int, or: int, w: int, h: int,
        widths: Seq<u16>, g: BorderGlyphs) -> bool {
        let v = border_cell_spec(g.vertical, self.border_fg, self.border_bg);
        let sep = h_rule_spec(g.tee_left, g.cross, g.horizontal, g.tee_right, widths);
        let first = self.first_data_row();
        let count = self.window_count(h);
        &&& forall|k: int| 0 <= k < count && first + 2 * k < h - 1
            ==> row_kept(#[trigger] self.record_drawn(m0, oc, or, w, h, widths, v, k), m, or + first + 2 * k)
        &&& forall|k: int| 0 <= k && k + 1 < count && first + 2 * k + 1 < h - 1
            ==> row_kept(#[trigger] self.rule_printed(m0, oc, or, w, h, first + 2 * k + 1, sep), m, or + first + 2 * k + 1)
    }
}

/// A row kept through one change is kept through the next when that one
/// touches another row.
proof fn lemma_row_kept_step(x: CanvasModel, a: CanvasModel, b: CanvasModel, changed: int, row: int)
    requires
        row_kept(x, a, row),
        only_row_changed(a, b, changed),
        row != changed,
        0 <= row < a.height,
        x.width == a.width,
    ensures
        row_kept(x, b, row),
{
    lemma_row_kept_elsewhere(a, b, changed, row);
    lemma_row_kept_trans(x, a, b, row);
}

/// Drawing a row keeps the canvas well formed and its size.
proof fn lemma_row_cells_wf(t: &Table, m: CanvasModel, oc: int, or: int, w: int, h: int, row: int, col_x: u16,
    widths: Seq<u16>, texts: Seq<Seq<char>>, i: nat, fg: Color, bg: Color, style: StyleFlags, v: Cell)
    requires
        m.wf(),
        w > 0 ==> 0 <= oc && oc + w <= m.width,
        h > 0 ==> 0 <= or && or + h <= m.height,
    ensures
        t.row_cells(m, oc, or, w, h, row, col_x, widths, texts, i, fg, bg, style, v).wf(),
        t.row_cells(m, oc, or, w, h, row, col_x, widths, texts, i, fg, bg, style, v).width == m.width,
        t.row_cells(m, oc, or, w, h, row, col_x, widths, texts, i, fg, bg, style, v).height == m.height,
    decreases widths.len() - i,
{
    if i >= widths.len() {
        lemma_region_set(m, oc, or, w, h, col_x as int, row, v);
    } else {
        let text = seq![' '] + justify_spec(text_at(texts, i as int), widths[i as int] as nat,
            col_align_spec(t.col_align@, i as int)) + seq![' '];
        let m1 = print_spec(m, oc, or, w, h, col_x as int, row, text, fg, bg, style);
        lemma_print_spec(m, oc, or, w, h, col_x as int, row, text, fg, bg, style);
        let x1 = col_x.wrapping_add(widths[i as int]).wrapping_add(2);
        if i + 1 < widths.len() {
            lemma_region_set(m1, oc, or, w, h, x1 as int, row, v);
            lemma_row_cells_wf(t, region_set(m1, oc, or, w, h, x1 as int, row, v), oc, or, w, h, row,
                x1.wrapping_add(1), widths, texts, i + 1, fg, bg, style, v);
        } else {
            lemma_row_cells_wf(t, m1, oc, or, w, h, row, x1, widths, texts, i + 1, fg, bg, style, v);
        }
    }
}

/// What drawing a whole row leaves on it depends only on that row.
proof fn lemma_row_drawn_local(t: &Table, a: CanvasModel, b: CanvasModel, oc: int, or: int, w: int, h: int, row: int,
    widths: Seq<u16>, texts: Seq<Seq<char>>, fg: Color, bg: Color, style: StyleFlags, v: Cell)
    requires
        a.wf(),
        b.wf(),
        a.width == b.width,
        a.height == b.height,
        0 <= or + row < a.height,
        w > 0 ==> 0 <= oc && oc + w <= a.width,
        h > 0 ==> 0 <= or && or + h <= a.height,
        row_kept(a, b, or + row),
    ensures
        row_kept(t.row_drawn(a, oc, or, w, h, row, widths, texts, fg, bg, style, v),
            t.row_drawn(b, oc, or, w, h, row, widths, texts, fg, bg, style, v), or + row),
{
    lemma_region_set_row_local(a, b, oc, or, w, h, 0, row, v);
    lemma_region_set(a, oc, or, w, h, 0, row, v);
    lemma_region_set(b, oc, or, w, h, 0, row, v);
    lemma_row_cells_local(t, region_set(a, oc, or, w, h, 0, row, v), region_set(b, oc, or, w, h, 0, row, v), oc, or,
        w, h, row, 1u16, widths, texts, 0, fg, bg, style, v);
}

impl Table {
    /// Draws the records shown from canvas row `first` down, with a rule
    /// between consecutive ones, and returns the row after the last one
    /// drawn.  `m0` is the canvas before the table was drawn; the rows from
    /// `first` on are still as they were there.
    fn draw_records(&self, canvas: &mut SubCanvas<'_>, col_widths: &Vec<u16>, g: &BorderGlyphs, first: u16,
        Ghost(m0): Ghost<CanvasModel>) -> (cur_row: u16)
        requires
            old(canvas).wf(),
            old(canvas).width >= 3,
            old(canvas).height >= 3,
            old(canvas).width + 2 <= u16::MAX,
            first as int == self.first_data_row(),
            m0.wf(),
            m0.width == old(canvas).parent@.width,
            m0.height == old(canvas).parent@.height,
            forall|r: int| first <= r < old(canvas).height ==>
                #[trigger] row_kept(m0, old(canvas).parent@, old(canvas).origin_row + r),
        ensures
            final(canvas).same_frame(old(canvas)),
            final(canvas).wf(),
            unchanged_outside(old(canvas).parent@, final(canvas).parent@, old(canvas).origin_col as int,
                old(canvas).origin_row as int, old(canvas).width as int, old(canvas).height as int),
            *final(final(canvas).parent) == *final(old(canvas).parent),
            forall|r: int| 0 <= r < first ==>
                #[trigger] row_kept(old(canvas).parent@, final(canvas).parent@, old(canvas).origin_row + r),
            first <= cur_row <= old(canvas).height,
            forall|r: int| cur_row <= r < old(canvas).height ==>
                #[trigger] row_kept(m0, final(canvas).parent@, old(canvas).origin_row + r),
            cur_row >= old(canvas).height - 1 || cur_row == (if self.window_count(old(canvas).height as int) == 0 {
                first as int } else { first + 2 * self.window_count(old(canvas).height as int) - 1 }),
            cur_row <= (if self.window_count(old(canvas).height as int) == 0 {
                first as int } else { first + 2 * self.window_count(old(canvas).height as int) - 1 }),
            first <= old(canvas).height - 1 ==> cur_row <= old(canvas).height - 1,
            self.records_drawn(m0, final(canvas).parent@, old(canvas).origin_col as int, old(canvas).origin_row as int,
                old(canvas).width as int, old(canvas).height as int, col_widths@, *g),
    {
        let w = canvas.width();
        let h = canvas.height();
        let ghost mstart = canvas.parent@;
        let ghost oc = canvas.origin_col as int;
        let ghost or = canvas.origin_row as int;
        let ghost v = border_cell_spec(g.vertical, self.border_fg, self.border_bg);
        let ghost sep_rule = h_rule_spec(g.tee_left, g.cross, g.horizontal, g.tee_right, col_widths@);
        proof { lemma_unchanged_outside_refl(mstart, oc, or, w as int, h as int); }
        let fg = self.border_fg;
        let bg = self.border_bg;
        let mut cur_row: u16 = first;
        let data_rows_visible = h.saturating_sub(cur_row).saturating_sub(1) as usize;
        let len = self.rows.len();
        let last = if len > 0 { len - 1 } else { 0 };
        let start = if self.scroll_row < last { self.scroll_row } else { last };
        let reach = start.saturating_add(data_rows_visible);
        let end = if reach < len { reach } else { len };
        let count = if end > start { end - start } else { 0 };
        assert(start as int == self.window_start());
        assert(count as int == self.window_count(h as int));
        let mut row_idx: usize = 0;
        while row_idx < count
            invariant
                row_idx <= count,
                start + count <= len,
                len == self.rows@.len(),
                start as int == self.window_start(),
                count as int == self.window_count(h as int),
                first as int == self.first_data_row(),
                first <= cur_row <= h,
                first <= h - 1 ==> cur_row <= h - 1,
                (row_idx == 0 && cur_row == first) || (row_idx > 0 && ((cur_row == first + 2 * row_idx && row_idx < count)
                    || (cur_row == first + 2 * row_idx - 1 && (row_idx == count || cur_row >= h - 1)))),
                canvas.wf(),
                canvas.origin_col == oc,
                canvas.origin_row == or,
                canvas.width == w,
                canvas.height == h,
                w + 2 <= u16::MAX,
                w >= 3,
                h >= 3,
                m0.wf(),
                m0.width == mstart.width,
                m0.height == mstart.height,
                v == border_cell_spec(g.vertical, self.border_fg, self.border_bg),
                sep_rule == h_rule_spec(g.tee_left, g.cross, g.horizontal, g.tee_right, col_widths@),
                fg == self.border_fg,
                bg == self.border_bg,
                unchanged_outside(mstart, canvas.parent@, oc, or, w as int, h as int),
                forall|r: int| 0 <= r < first ==> #[trigger] row_kept(mstart, canvas.parent@, or + r),
                forall|r: int| cur_row <= r < h ==> #[trigger] row_kept(m0, canvas.parent@, or + r),
                forall|k: int| 0 <= k < row_idx && first + 2 * k < h - 1
                    ==> row_kept(#[trigger] self.record_drawn(m0, oc, or, w as int, h as int, col_widths@, v, k),
                        canvas.parent@, or + first + 2 * k),
                forall|k: int| 0 <= k < row_idx && k + 1 < count && first + 2 * k + 1 < h - 1
                    ==> row_kept(#[trigger] self.rule_printed(m0, oc, or, w as int, h as int, first + 2 * k + 1, sep_rule),
                        canvas.parent@, or + first + 2 * k + 1),
                *final(canvas.parent) == *final(old(canvas).parent),
            ensures
                row_idx >= count || cur_row >= h - 1,
            decreases count - row_idx,
        {
            if cur_row >= h - 1 {
                break;
            }
            let row_bg = if row_idx % 2 == 1 {
                match self.alt_row_bg {
                    Some(c) => c,
                    None => self.row_bg,
                }
            } else {
                self.row_bg
            };
            let ghost m = canvas.parent@;
            let ghost at = cur_row as int;
            self.draw_row(canvas, cur_row, col_widths, Some(&self.rows[start + row_idx]), self.row_fg, row_bg,
                StyleFlags::empty(), g);
            let ghost m1 = canvas.parent@;
            proof {
                lemma_unchanged_outside_trans(mstart, m, m1, oc, or, w as int, h as int);
                assert(row_kept(m0, m, or + at));
                assert forall|k: int| 0 <= k < row_idx implies
                    #[trigger] self.record_drawn(m0, oc, or, w as int, h as int, col_widths@, v, k).width == m0.width by {
                    lemma_region_set(m0, oc, or, w as int, h as int, 0, first + 2 * k, v);
                    lemma_row_cells_wf(self, region_set(m0, oc, or, w as int, h as int, 0, first + 2 * k, v), oc, or,
                        w as int, h as int, first + 2 * k, 1u16, col_widths@,
                        row_texts(Some(self.rows@[self.window_start() + k]@)), 0, self.row_fg, self.record_bg(k),
                        StyleFlags { bits: 0 }, v);
                }
                assert forall|k: int| 0 <= k < row_idx implies
                    #[trigger] self.rule_printed(m0, oc, or, w as int, h as int, first + 2 * k + 1, sep_rule).width
                        == m0.width by {
                    lemma_print_spec(m0, oc, or, w as int, h as int, 0, first + 2 * k + 1, sep_rule, fg, bg,
                        StyleFlags { bits: 0 });
                }
                lemma_row_drawn_local(self, m0, m, oc, or, w as int, h as int, at, col_widths@,
                    row_texts(Some(self.rows@[start + row_idx]@)), self.row_fg, row_bg, StyleFlags { bits: 0 }, v);
                assert(self.record_drawn(m0, oc, or, w as int, h as int, col_widths@, v, row_idx as int)
                    == self.row_drawn(m0, oc, or, w as int, h as int, at, col_widths@,
                    row_texts(Some(self.rows@[start + row_idx]@)), self.row_fg, row_bg, StyleFlags { bits: 0 }, v));
                assert forall|r: int| 0 <= r < first implies #[trigger] row_kept(mstart, m1, or + r) by {
                    lemma_row_kept_step(mstart, m, m1, or + at, or + r);
                }
                assert forall|r: int| at + 1 <= r < h implies #[trigger] row_kept(m0, m1, or + r) by {
                    lemma_row_kept_step(m0, m, m1, or + at, or + r);
                }
                assert forall|k: int| 0 <= k < row_idx + 1 && first + 2 * k < h - 1
                    implies row_kept(#[trigger] self.record_drawn(m0, oc, or, w as int, h as int, col_widths@, v, k),
                        m1, or + first + 2 * k) by {
                    if k < row_idx {
                        lemma_row_kept_step(self.record_drawn(m0, oc, or, w as int, h as int, col_widths@, v, k), m, m1,
                            or + at, or + first + 2 * k);
                    }
                }
                assert forall|k: int| 0 <= k < row_idx && k + 1 < count && first + 2 * k + 1 < h - 1
                    implies row_kept(#[trigger] self.rule_printed(m0, oc, or, w as int, h as int, first + 2 * k + 1, sep_rule),
                        m1, or + first + 2 * k + 1) by {
                    lemma_row_kept_step(self.rule_printed(m0, oc, or, w as int, h as int, first + 2 * k + 1, sep_rule), m,
                        m1, or + at, or + first + 2 * k + 1);
                }
            }

            // Row separator (only between rows, not after last)
            cur_row += 1;
            let is_last = row_idx + 1 >= count;
            if !is_last && cur_row < h - 1 {
                let sep = h_rule(g.tee_left, g.cross, g.horizontal, g.tee_right, col_widths);
                let ghost sat = cur_row as int;
                proof { lemma_print_row(m1, oc, or, w as int, h as int, 0, sat, sep@, fg, bg, StyleFlags { bits: 0 }); }
                canvas.print(0, cur_row, sep.as_str(), fg, bg, StyleFlags::empty());
                let ghost m2 = canvas.parent@;
                proof {
                    lemma_unchanged_outside_trans(mstart, m1, m2, oc, or, w as int, h as int);
                    lemma_only_row_changed(m1, m2, or + sat, oc, oc + w);
                    assert(row_kept(m0, m1, or + sat));
                    lemma_print_row_local(m0, m1, oc, or, w as int, h as int, 0, sat, sep@, fg, bg, StyleFlags { bits: 0 });
                    lemma_print_spec(m0, oc, or, w as int, h as int, 0, sat, sep@, fg, bg, StyleFlags { bits: 0 });
                    assert forall|k: int| 0 <= k < row_idx + 1 implies
                        #[trigger] self.record_drawn(m0, oc, or, w as int, h as int, col_widths@, v, k).width == m0.width by {
                        lemma_region_set(m0, oc, or, w as int, h as int, 0, first + 2 * k, v);
                        lemma_row_cells_wf(self, region_set(m0, oc, or, w as int, h as int, 0, first + 2 * k, v), oc, or,
                            w as int, h as int, first + 2 * k, 1u16, col_widths@,
                            row_texts(Some(self.rows@[self.window_start() + k]@)), 0, self.row_fg, self.record_bg(k),
                            StyleFlags { bits: 0 }, v);
                    }
                    assert forall|k: int| 0 <= k < row_idx implies
                        #[trigger] self.rule_printed(m0, oc, or, w as int, h as int, first + 2 * k + 1, sep_rule).width
                            == m0.width by {
                        lemma_print_spec(m0, oc, or, w as int, h as int, 0, first + 2 * k + 1, sep_rule, fg, bg,
                            StyleFlags { bits: 0 });
                    }
                    assert forall|r: int| 0 <= r < first implies #[trigger] row_kept(mstart, m2, or + r) by {
                        lemma_row_kept_step(mstart, m1, m2, or + sat, or + r);
                    }
                    assert forall|r: int| sat + 1 <= r < h implies #[trigger] row_kept(m0, m2, or + r) by {
                        lemma_row_kept_step(m0, m1, m2, or + sat, or + r);
                    }
                    assert forall|k: int| 0 <= k < row_idx + 1 && first + 2 * k < h - 1
                        implies row_kept(#[trigger] self.record_drawn(m0, oc, or, w as int, h as int, col_widths@, v, k),
                            m2, or + first + 2 * k) by {
                        lemma_row_kept_step(self.record_drawn(m0, oc, or, w as int, h as int, col_widths@, v, k), m1, m2,
                            or + sat, or + first + 2 * k);
                    }
                    assert forall|k: int| 0 <= k < row_idx + 1 && k + 1 < count && first + 2 * k + 1 < h - 1
                        implies row_kept(#[trigger] self.rule_printed(m0, oc, or, w as int, h as int, first + 2 * k + 1,
                            sep_rule), m2, or + first + 2 * k + 1) by {
                        if k < row_idx {
                            lemma_row_kept_step(self.rule_printed(m0, oc, or, w as int, h as int, first + 2 * k + 1,
                                sep_rule), m1, m2, or + sat, or + first + 2 * k + 1);
                        }
                    }
                }
                cur_row += 1;
            }
            row_idx += 1;
        }
        proof {
            let mf = canvas.parent@;
            assert forall|k: int| 0 <= k < count && first + 2 * k < h - 1
                implies row_kept(#[trigger] self.record_drawn(m0, oc, or, w as int, h as int, col_widths@, v, k), mf,
                    or + first + 2 * k) by {
                if k >= row_idx {
                    assert(cur_row <= first + 2 * row_idx);
                }
            }
            assert forall|k: int| 0 <= k && k + 1 < count && first + 2 * k + 1 < h - 1
                implies row_kept(#[trigger] self.rule_printed(m0, oc, or, w as int, h as int, first + 2 * k + 1, sep_rule),
                    mf, or + first + 2 * k + 1) by {
                if k >= row_idx {
                    assert(cur_row <= first + 2 * row_idx);
                }
            }
        }
        cur_row
    }
}

/// A row of the gap between the last record and the bottom rule: the
/// vertical border in the first and the last column.
pub open spec fn gap_row(m: CanvasModel, oc: int, or: int, w: int, h: int, row: int, v: Cell) -> CanvasModel {
    region_set(region_set(m, oc, or, w, h, 0, row, v), oc, or, w, h, w - 1, row, v)
}

impl Table {
    /// What a render draws below the top rule, over `m0`, in the region at
    /// `(oc, or)` of size `w × h`: the header on row 1 with a rule under it
    /// when there is a header, the records shown with rules between them,
    /// and the side borders on the rows left between the last record and the
    /// bottom rule.
    pub open spec fn body_drawn(&self, caps: &TermCaps, m0: CanvasModel, m: CanvasModel, oc: int, or: int, w: u16,
        h: int) -> bool {
        let g = border_glyphs(style_for_caps(self.border_style, caps.unicode));
        let widths = self.widths_for(w);
        let v = border_cell_spec(g.vertical, self.border_fg, self.border_bg);
        let sep = h_rule_spec(g.tee_left, g.cross, g.horizontal, g.tee_right, widths);
        let first = self.first_data_row();
        let count = self.window_count(h);
        &&& self.headers matches Some(hd) ==> row_kept(self.row_drawn(m0, oc, or, w as int, h, 1, widths,
            row_texts(Some(hd@)), self.header_fg, self.header_bg, self.header_style, v), m, or + 1)
        &&& self.headers is Some ==> row_kept(self.rule_printed(m0, oc, or, w as int, h, 2, sep), m, or + 2)
        &&& self.records_drawn(m0, m, oc, or, w as int, h, widths, g)
        &&& forall|r: int| first <= r && first + 2 * count - 1 <= r && r < h - 1
            ==> row_kept(#[trigger] gap_row(m0, oc, or, w as int, h, r, v), m, or + r)
    }
}

/// The records and rules stay drawn through a change on a row below them
/// (or on the last row, which none of them reaches).
proof fn lemma_records_drawn_step(t: &Table, m0: CanvasModel, a: CanvasModel, b: CanvasModel, oc: int, or: int, w: int,
    h: int, widths: Seq<u16>, g: BorderGlyphs, changed: int)
    requires
        t.records_drawn(m0, a, oc, or, w, h, widths, g),
        only_row_changed(a, b, or + changed),
        changed >= t.first_data_row() + 2 * t.window_count(h) - 1 || changed >= h - 1,
        m0.wf(),
        m0.width == a.width,
        m0.height == a.height,
        w > 0,
        h > 0,
        0 <= oc && oc + w <= m0.width,
        0 <= or && or + h <= m0.height,
    ensures
        t.records_drawn(m0, b, oc, or, w, h, widths, g),
{
    let v = border_cell_spec(g.vertical, t.border_fg, t.border_bg);
    let sep = h_rule_spec(g.tee_left, g.cross, g.horizontal, g.tee_right, widths);
    let first = t.first_data_row();
    let count = t.window_count(h);
    assert forall|k: int| 0 <= k < count && first + 2 * k < h - 1
        implies row_kept(#[trigger] t.record_drawn(m0, oc, or, w, h, widths, v, k), b, or + first + 2 * k) by {
        lemma_region_set(m0, oc, or, w, h, 0, first + 2 * k, v);
        lemma_row_cells_wf(t, region_set(m0, oc, or, w, h, 0, first + 2 * k, v), oc, or, w, h, first + 2 * k, 1u16,
            widths, row_texts(Some(t.rows@[t.window_start() + k]@)), 0, t.row_fg, t.record_bg(k), StyleFlags { bits: 0 }, v);
        lemma_row_kept_step(t.record_drawn(m0, oc, or, w, h, widths, v, k), a, b, or + changed, or + first + 2 * k);
    }
    assert forall|k: int| 0 <= k && k + 1 < count && first + 2 * k + 1 < h - 1
        implies row_kept(#[trigger] t.rule_printed(m0, oc, or, w, h, first + 2 * k + 1, sep), b, or + first + 2 * k + 1) by {
        lemma_print_spec(m0, oc, or, w, h, 0, first + 2 * k + 1, sep, t.border_fg, t.border_bg, StyleFlags { bits: 0 });
        lemma_row_kept_step(t.rule_printed(m0, oc, or, w, h, first + 2 * k + 1, sep), a, b, or + changed,
            or + first + 2 * k + 1);
    }
}

impl Table {
    /// Draws the header on row 1 and the rule under it on row 2.
    fn draw_header(&self, canvas: &mut SubCanvas<'_>, col_widths: &Vec<u16>, g: &BorderGlyphs)
        requires
            old(canvas).wf(),
            old(canvas).width >= 3,
            old(canvas).height >= 3,
            old(canvas).width + 2 <= u16::MAX,
            self.headers is Some,
        ensures
            final(canvas).same_frame(old(canvas)),
            final(canvas).wf(),
            unchanged_outside(old(canvas).parent@, final(canvas).parent@, old(canvas).origin_col as int,
                old(canvas).origin_row as int, old(canvas).width as int, old(canvas).height as int),
            *final(final(canvas).parent) == *final(old(canvas).parent),
            forall|r: int| 0 <= r < old(canvas).height && r != 1 && r != 2 ==>
                #[trigger] row_kept(old(canvas).parent@, final(canvas).parent@, old(canvas).origin_row + r),
            row_kept(self.row_drawn(old(canvas).parent@, old(canvas).origin_col as int, old(canvas).origin_row as int,
                old(canvas).width as int, old(canvas).height as int, 1, col_widths@,
                row_texts(Some(self.headers->0@)), self.header_fg, self.header_bg, self.header_style,
                border_cell_spec(g.vertical, self.border_fg, self.border_bg)), final(canvas).parent@,
                old(canvas).origin_row + 1),
            row_kept(self.rule_printed(old(canvas).parent@, old(canvas).origin_col as int, old(canvas).origin_row as int,
                old(canvas).width as int, old(canvas).height as int, 2,
                h_rule_spec(g.tee_left, g.cross, g.horizontal, g.tee_right, col_widths@)), final(canvas).parent@,
                old(canvas).origin_row + 2),
    {
        let w = canvas.width();
        let h = canvas.height();
        let ghost m0 = canvas.parent@;
        let ghost oc = canvas.origin_col as int;
        let ghost or = canvas.origin_row as int;
        let ghost v = border_cell_spec(g.vertical, self.border_fg, self.border_bg);
        let hdrs = match &self.headers { Some(hd) => hd, None => { return; } };
        self.draw_row(canvas, 1, col_widths, Some(hdrs), self.header_fg, self.header_bg, self.header_style, g);
        let ghost m1 = canvas.parent@;
        proof {
            lemma_region_set(m0, oc, or, w as int, h as int, 0, 1, v);
            lemma_row_cells_wf(self, region_set(m0, oc, or, w as int, h as int, 0, 1, v), oc, or, w as int, h as int, 1,
                1u16, col_widths@, row_texts(Some(hdrs@)), 0, self.header_fg, self.header_bg, self.header_style, v);
            assert(row_kept(m1, m1, or + 1));
            assert(row_kept(m0, m1, or + 2)) by { lemma_row_kept_elsewhere(m0, m1, or + 1, or + 2); }
        }
        let sep = h_rule(g.tee_left, g.cross, g.horizontal, g.tee_right, col_widths);
        let fg = self.border_fg;
        let bg = self.border_bg;
        proof { lemma_print_row(m1, oc, or, w as int, h as int, 0, 2, sep@, fg, bg, StyleFlags { bits: 0 }); }
        canvas.print(0, 2, sep.as_str(), fg, bg, StyleFlags::empty());
        let ghost m2 = canvas.parent@;
        proof {
            lemma_unchanged_outside_trans(m0, m1, m2, oc, or, w as int, h as int);
            lemma_only_row_changed(m1, m2, or + 2, oc, oc + w);
            lemma_print_row_local(m0, m1, oc, or, w as int, h as int, 0, 2, sep@, fg, bg, StyleFlags { bits: 0 });
            lemma_row_kept_step(m1, m1, m2, or + 2, or + 1);
            assert forall|r: int| 0 <= r < h && r != 1 && r != 2 implies #[trigger] row_kept(m0, m2, or + r) by {
                lemma_row_kept_elsewhere(m0, m1, or + 1, or + r);
                lemma_row_kept_step(m0, m1, m2, or + 2, or + r);
            }
        }
    }
}

impl Table {
    /// Draws the side borders on the rows from `cur_row` to the bottom rule,
    /// then the bottom rule, when `cur_row` is above the last row.  `m0` is
    /// the canvas before the table was drawn; the rows from `cur_row` on are
    /// still as they were there.
    fn draw_tail(&self, canvas: &mut SubCanvas<'_>, col_widths: &Vec<u16>, g: &BorderGlyphs, cur_row: u16,
        Ghost(m0): Ghost<CanvasModel>)
        requires
            old(canvas).wf(),
            old(canvas).width >= 3,
            old(canvas).height >= 3,
            old(canvas).width + 2 <= u16::MAX,
            m0.wf(),
            m0.width == old(canvas).parent@.width,
            m0.height == old(canvas).parent@.height,
            self.first_data_row() <= cur_row,
            cur_row <= (if self.window_count(old(canvas).height as int) == 0 { self.first_data_row() } else {
                self.first_data_row() + 2 * self.window_count(old(canvas).height as int) - 1 }),
            cur_row >= old(canvas).height - 1 || cur_row == (if self.window_count(old(canvas).height as int) == 0 {
                self.first_data_row() } else {
                self.first_data_row() + 2 * self.window_count(old(canvas).height as int) - 1 }),
            forall|r: int| cur_row <= r < old(canvas).height ==>
                #[trigger] row_kept(m0, old(canvas).parent@, old(canvas).origin_row + r),
            self.records_drawn(m0, old(canvas).parent@, old(canvas).origin_col as int, old(canvas).origin_row as int,
                old(canvas).width as int, old(canvas).height as int, col_widths@, *g),
        ensures
            final(canvas).same_frame(old(canvas)),
            final(canvas).wf(),
            unchanged_outside(old(canvas).parent@, final(canvas).parent@, old(canvas).origin_col as int,
                old(canvas).origin_row as int, old(canvas).width as int, old(canvas).height as int),
            *final(final(canvas).parent) == *final(old(canvas).parent),
            forall|r: int| 0 <= r < cur_row ==>
                #[trigger] row_kept(old(canvas).parent@, final(canvas).parent@, old(canvas).origin_row + r),
            self.records_drawn(m0, final(canvas).parent@, old(canvas).origin_col as int, old(canvas).origin_row as int,
                old(canvas).width as int, old(canvas).height as int, col_widths@, *g),
            forall|r: int| self.first_data_row() <= r && self.first_data_row()
                + 2 * self.window_count(old(canvas).height as int) - 1 <= r && r < old(canvas).height - 1
                ==> row_kept(#[trigger] gap_row(m0, old(canvas).origin_col as int, old(canvas).origin_row as int,
                    old(canvas).width as int, old(canvas).height as int, r,
                    border_cell_spec(g.vertical, self.border_fg, self.border_bg)), final(canvas).parent@,
                    old(canvas).origin_row + r),
            cur_row <= old(canvas).height - 1 ==> row_kept(self.rule_printed(m0, old(canvas).origin_col as int,
                old(canvas).origin_row as int, old(canvas).width as int, old(canvas).height as int,
                old(canvas).height - 1, h_rule_spec(g.bottom_left, g.tee_bottom, g.horizontal, g.bottom_right,
                col_widths@)), final(canvas).parent@, old(canvas).origin_row + old(canvas).height - 1),
    {
        let w = canvas.width();
        let h = canvas.height();
        let ghost mstart = canvas.parent@;
        let ghost oc = canvas.origin_col as int;
        let ghost or = canvas.origin_row as int;
        let ghost v = border_cell_spec(g.vertical, self.border_fg, self.border_bg);
        let fg = self.border_fg;
        let bg = self.border_bg;
        proof { lemma_unchanged_outside_refl(mstart, oc, or, w as int, h as int); }
        let bot_row = h - 1;
        if cur_row <= bot_row {
            // Fill any gap between last data row and bottom.
            let mut r: u16 = cur_row;
            while r < bot_row
                invariant
                    cur_row <= r <= bot_row,
                    bot_row == h - 1,
                    canvas.wf(),
                    canvas.origin_col == oc,
                    canvas.origin_row == or,
                    canvas.width == w,
                    canvas.height == h,
                    w + 2 <= u16::MAX,
                    w >= 3,
                    h >= 3,
                    m0.wf(),
                    m0.width == mstart.width,
                    m0.height == mstart.height,
                    v == border_cell_spec(g.vertical, self.border_fg, self.border_bg),
                    fg == self.border_fg,
                    bg == self.border_bg,
                    self.first_data_row() <= cur_row,
                    r > cur_row ==> cur_row == (if self.window_count(h as int) == 0 { self.first_data_row() } else {
                        self.first_data_row() + 2 * self.window_count(h as int) - 1 }),
                    cur_row <= (if self.window_count(h as int) == 0 { self.first_data_row() } else {
                        self.first_data_row() + 2 * self.window_count(h as int) - 1 }),
                    cur_row >= h - 1 || cur_row == (if self.window_count(h as int) == 0 { self.first_data_row() } else {
                        self.first_data_row() + 2 * self.window_count(h as int) - 1 }),
                    unchanged_outside(mstart, canvas.parent@, oc, or, w as int, h as int),
                    forall|y: int| 0 <= y < cur_row ==> #[trigger] row_kept(mstart, canvas.parent@, or + y),
                    forall|y: int| r <= y < h ==> #[trigger] row_kept(m0, canvas.parent@, or + y),
                    forall|y: int| cur_row <= y < r ==> row_kept(#[trigger] gap_row(m0, oc, or, w as int, h as int, y, v),
                        canvas.parent@, or + y),
                    self.records_drawn(m0, canvas.parent@, oc, or, w as int, h as int, col_widths@, *g),
                    *final(canvas.parent) == *final(old(canvas).parent),
                decreases bot_row - r,
            {
                let ghost m = canvas.parent@;
                let ghost y0 = r as int;
                canvas.set(0, r, border_cell(g.vertical, fg, bg));
                let ghost m1 = canvas.parent@;
                proof {
                    lemma_region_set_row(m, oc, or, w as int, h as int, 0, y0, v);
                    lemma_region_set_row(m1, oc, or, w as int, h as int, w - 1, y0, v);
                }
                canvas.set(w - 1, r, border_cell(g.vertical, fg, bg));
                let ghost m2 = canvas.parent@;
                proof {
                    lemma_unchanged_outside_trans(mstart, m, m1, oc, or, w as int, h as int);
                    lemma_unchanged_outside_trans(mstart, m1, m2, oc, or, w as int, h as int);
                    lemma_only_row_changed(m, m1, or + y0, oc, oc + 1);
                    lemma_only_row_changed(m1, m2, or + y0, oc + w - 1, oc + w);
                    lemma_only_row_changed_trans(m, m1, m2, or + y0);
                    // The new gap row, as drawn over `m0`.
                    assert(row_kept(m0, m, or + y0));
                    lemma_region_set_row_local(m0, m, oc, or, w as int, h as int, 0, y0, v);
                    lemma_region_set(m0, oc, or, w as int, h as int, 0, y0, v);
                    lemma_region_set_row_local(region_set(m0, oc, or, w as int, h as int, 0, y0, v), m1, oc, or, w as int,
                        h as int, w - 1, y0, v);
                    lemma_region_set(region_set(m0, oc, or, w as int, h as int, 0, y0, v), oc, or, w as int, h as int,
                        w - 1, y0, v);
                    assert(row_kept(gap_row(m0, oc, or, w as int, h as int, y0, v), m2, or + y0));
                    // Every other row stays as it was.
                    assert forall|y: int| 0 <= y < cur_row implies #[trigger] row_kept(mstart, m2, or + y) by {
                        lemma_row_kept_step(mstart, m, m2, or + y0, or + y);
                    }
                    assert forall|y: int| y0 + 1 <= y < h implies #[trigger] row_kept(m0, m2, or + y) by {
                        lemma_row_kept_step(m0, m, m2, or + y0, or + y);
                    }
                    assert forall|y: int| cur_row <= y < y0 + 1
                        implies row_kept(#[trigger] gap_row(m0, oc, or, w as int, h as int, y, v), m2, or + y) by {
                        if y < y0 {
                            lemma_region_set(m0, oc, or, w as int, h as int, 0, y, v);
                            lemma_region_set(region_set(m0, oc, or, w as int, h as int, 0, y, v), oc, or, w as int,
                                h as int, w - 1, y, v);
                            lemma_row_kept_step(gap_row(m0, oc, or, w as int, h as int, y, v), m, m2, or + y0, or + y);
                        }
                    }
                    lemma_records_drawn_step(self, m0, m, m2, oc, or, w as int, h as int, col_widths@, *g, y0);
                }
                r += 1;
            }
            let bot_rule = h_rule(g.bottom_left, g.tee_bottom, g.horizontal, g.bottom_right, col_widths);
            let ghost m = canvas.parent@;
            proof {
                lemma_print_row(m, oc, or, w as int, h as int, 0, bot_row as int, bot_rule@, fg, bg, StyleFlags { bits: 0 });
                lemma_print_row_local(m0, m, oc, or, w as int, h as int, 0, bot_row as int, bot_rule@, fg, bg,
                    StyleFlags { bits: 0 });
            }
            canvas.print(0, bot_row, bot_rule.as_str(), fg, bg, StyleFlags::empty());
            let ghost mf = canvas.parent@;
            proof {
                lemma_unchanged_outside_trans(mstart, m, mf, oc, or, w as int, h as int);
                lemma_only_row_changed(m, mf, or + bot_row, oc, oc + w);
                assert forall|y: int| 0 <= y < cur_row implies #[trigger] row_kept(mstart, mf, or + y) by {
                    lemma_row_kept_step(mstart, m, mf, or + bot_row, or + y);
                }
                assert forall|y: int| self.first_data_row() <= y && self.first_data_row()
                    + 2 * self.window_count(h as int) - 1 <= y && y < h - 1
                    implies row_kept(#[trigger] gap_row(m0, oc, or, w as int, h as int, y, v), mf, or + y) by {
                    lemma_region_set(m0, oc, or, w as int, h as int, 0, y, v);
                    lemma_region_set(region_set(m0, oc, or, w as int, h as int, 0, y, v), oc, or, w as int, h as int,
                        w - 1, y, v);
                    lemma_row_kept_step(gap_row(m0, oc, or, w as int, h as int, y, v), m, mf, or + bot_row, or + y);
                }
                lemma_records_drawn_step(self, m0, m, mf, oc, or, w as int, h as int, col_widths@, *g, bot_row as int);
            }
        }
    }
}

impl Widget for Table {
    /// Nothing on a region under 3 × 3; otherwise the top rule, the header
    /// and its rule, the records shown with rules between them, the side
    /// borders below them, and the bottom rule when it is reached.
    open spec fn drawn(&self, caps: &TermCaps, before: CanvasModel, after: CanvasModel, oc: int, or: int, w: int,
        h: int) -> bool {
        &&& (w < 3 || h < 3) ==> after == before
        &&& (w >= 3 && h >= 3) ==> self.rule_row(before, after, oc, or, w, h, 0, self.top_rule(caps, w as u16))
        &&& (w >= 3 && h >= 3) ==> self.body_drawn(caps, before, after, oc, or, w as u16, h)
        &&& (w >= 3 && h >= 3 && (self.headers is None || h >= 4)) ==> self.rule_row(before, after, oc, or, w, h,
            h - 1, self.bottom_rule(caps, w as u16))
    }

    fn render(&self, canvas: &mut SubCanvas<'_>, caps: &TermCaps)
        ensures
            (old(canvas).width < 3 || old(canvas).height < 3) ==> final(canvas).parent@ == old(canvas).parent@,
            (old(canvas).width >= 3 && old(canvas).height >= 3) ==> self.rule_row(old(canvas).parent@,
                final(canvas).parent@, old(canvas).origin_col as int, old(canvas).origin_row as int,
                old(canvas).width as int, old(canvas).height as int, 0, self.top_rule(caps, old(canvas).width)),
            (old(canvas).width >= 3 && old(canvas).height >= 3) ==> self.body_drawn(caps, old(canvas).parent@,
                final(canvas).parent@, old(canvas).origin_col as int, old(canvas).origin_row as int, old(canvas).width,
                old(canvas).height as int),
            (old(canvas).width >= 3 && old(canvas).height >= 3 && (self.headers is None || old(canvas).height >= 4))
                ==> self.rule_row(old(canvas).parent@, final(canvas).parent@, old(canvas).origin_col as int,
                old(canvas).origin_row as int, old(canvas).width as int, old(canvas).height as int,
                old(canvas).height - 1, self.bottom_rule(caps, old(canvas).width)),
    {
        let w = canvas.width();
        let h = canvas.height();
        if w < 3 || h < 3 {
            return;
        }
        let ghost m0 = canvas.parent@;
        let ghost oc = canvas.origin_col as int;
        let ghost or = canvas.origin_row as int;
        proof { lemma_unchanged_outside_refl(m0, oc, or, w as int, h as int); }

        let style = self.border_style.with_caps(caps);
        let g = style.glyphs();
        let fg = self.border_fg;
        let bg = self.border_bg;
        let ghost v = border_cell_spec(g.vertical, fg, bg);
        let ghost sep_rule = h_rule_spec(g.tee_left, g.cross, g.horizontal, g.tee_right,
            compute_widths_spec(natural_spec(self.headers, self.rows@), w));

        let col_widths = self.compute_widths(w);
        let n = col_widths.len();
        if n == 0 {
            return;
        }

        // ── Top border ────────────────────────────────────────────────────────
        let top_rule = h_rule(g.top_left, g.tee_top, g.horizontal, g.top_right, &col_widths);
        proof { lemma_print_row(m0, oc, or, w as int, h as int, 0, 0, top_rule@, fg, bg, StyleFlags { bits: 0 }); }
        canvas.print(0, 0, top_rule.as_str(), fg, bg, StyleFlags::empty());
        let ghost mtop = canvas.parent@;
        proof {
            lemma_only_row_changed(m0, mtop, or, 0, oc + w);
            assert(row_kept(mtop, mtop, or));
        }

        // ── Header row and the rule under it ──────────────────────────────────
        let first: u16 = if self.headers.is_some() { 3 } else { 1 };
        if self.headers.is_some() {
            self.draw_header(canvas, &col_widths, &g);
        }
        let ghost mh = canvas.parent@;
        proof {
            lemma_unchanged_outside_trans(m0, mtop, mh, oc, or, w as int, h as int);
            assert(row_kept(mtop, mh, or));
            assert forall|r: int| first <= r < h implies #[trigger] row_kept(m0, mh, or + r) by {
                lemma_row_kept_elsewhere(m0, mtop, or, or + r);
                assert(row_kept(mtop, mh, or + r));
                lemma_row_kept_trans(m0, mtop, mh, or + r);
            }
            if self.headers is Some {
                let hd = self.headers->0;
                lemma_row_kept_elsewhere(m0, mtop, or, or + 1);
                lemma_row_kept_elsewhere(m0, mtop, or, or + 2);
                lemma_row_drawn_local(self, m0, mtop, oc, or, w as int, h as int, 1, col_widths@, row_texts(Some(hd@)),
                    self.header_fg, self.header_bg, self.header_style, v);
                lemma_region_set(m0, oc, or, w as int, h as int, 0, 1, v);
                lemma_row_cells_wf(self, region_set(m0, oc, or, w as int, h as int, 0, 1, v), oc, or, w as int,
                    h as int, 1, 1u16, col_widths@, row_texts(Some(hd@)), 0, self.header_fg, self.header_bg,
                    self.header_style, v);
                lemma_region_set(mtop, oc, or, w as int, h as int, 0, 1, v);
                lemma_row_cells_wf(self, region_set(mtop, oc, or, w as int, h as int, 0, 1, v), oc, or, w as int,
                    h as int, 1, 1u16, col_widths@, row_texts(Some(hd@)), 0, self.header_fg, self.header_bg,
                    self.header_style, v);
                lemma_row_kept_trans(self.row_drawn(m0, oc, or, w as int, h as int, 1, col_widths@, row_texts(Some(hd@)),
                    self.header_fg, self.header_bg, self.header_style, v), self.row_drawn(mtop, oc, or, w as int,
                    h as int, 1, col_widths@, row_texts(Some(hd@)), self.header_fg, self.header_bg, self.header_style, v),
                    mh, or + 1);
                lemma_print_row_local(m0, mtop, oc, or, w as int, h as int, 0, 2, sep_rule, fg, bg, StyleFlags { bits: 0 });
                lemma_print_spec(m0, oc, or, w as int, h as int, 0, 2, sep_rule, fg, bg, StyleFlags { bits: 0 });
                lemma_print_spec(mtop, oc, or, w as int, h as int, 0, 2, sep_rule, fg, bg, StyleFlags { bits: 0 });
                lemma_row_kept_trans(self.rule_printed(m0, oc, or, w as int, h as int, 2, sep_rule),
                    self.rule_printed(mtop, oc, or, w as int, h as int, 2, sep_rule), mh, or + 2);
            }
        }

        // ── Data rows ─────────────────────────────────────────────────────────
        let cur_row = self.draw_records(canvas, &col_widths, &g, first, Ghost(m0));
        let ghost mr = canvas.parent@;

        // ── Gap rows and bottom border ────────────────────────────────────────
        self.draw_tail(canvas, &col_widths, &g, cur_row, Ghost(m0));
        let ghost mf = canvas.parent@;
        proof {
            lemma_unchanged_outside_trans(m0, mh, mr, oc, or, w as int, h as int);
            lemma_unchanged_outside_trans(m0, mr, mf, oc, or, w as int, h as int);
            // Rows above the records: kept by the records and by the tail.
            assert forall|r: int| 0 <= r < first implies #[trigger] row_kept(mh, mf, or + r) by {
                assert(row_kept(mh, mr, or + r));
                assert(row_kept(mr, mf, or + r));
                lemma_row_kept_trans(mh, mr, mf, or + r);
            }
            lemma_row_kept_trans(mtop, mh, mf, or);
            if self.headers is Some {
                let hd = self.headers->0;
                lemma_region_set(m0, oc, or, w as int, h as int, 0, 1, v);
                lemma_row_cells_wf(self, region_set(m0, oc, or, w as int, h as int, 0, 1, v), oc, or, w as int,
                    h as int, 1, 1u16, col_widths@, row_texts(Some(hd@)), 0, self.header_fg, self.header_bg,
                    self.header_style, v);
                lemma_row_kept_trans(self.row_drawn(m0, oc, or, w as int, h as int, 1, col_widths@, row_texts(Some(hd@)),
                    self.header_fg, self.header_bg, self.header_style, v), mh, mf, or + 1);
                lemma_print_spec(m0, oc, or, w as int, h as int, 0, 2, sep_rule, fg, bg, StyleFlags { bits: 0 });
                lemma_row_kept_trans(self.rule_printed(m0, oc, or, w as int, h as int, 2, sep_rule), mh, mf, or + 2);
            }
            assert(self.body_drawn(caps, m0, mf, oc, or, w, h as int));
        }
    }

    /// Each column three wide (a character and its padding) plus separators,
    /// and three rows (two more with a header), in wrapping `u16` arithmetic.
    open spec fn min_size_spec(&self) -> (u16, u16) {
        (((col_count_spec(self.headers, self.rows@) as u16).wrapping_mul(5)).wrapping_add(1),
            if self.headers is Some { 5u16 } else { 3u16 })
    }

    fn min_size(&self) -> (r: (u16, u16))
        ensures
            r.0 == ((col_count_spec(self.headers, self.rows@) as u16).wrapping_mul(5)).wrapping_add(1),
            r.1 == (if self.headers is Some { 5u16 } else { 3u16 }),
    {
        let n = self.col_count() as u16;
        (n.wrapping_mul(5).wrapping_add(1), 3 + if self.headers.is_some() { 2 } else { 0 })
    }

    /// Natural widths with their padding and separators; all rows with the
    /// header, its separator and the two borders (wrapping `u16` arithmetic).
    open spec fn preferred_size_spec(&self) -> (u16, u16) {
        (padded_sum(natural_spec(self.headers, self.rows@))
            .wrapping_add(natural_spec(self.headers, self.rows@).len() as u16).wrapping_add(1),
            (self.rows@.len() as u16).wrapping_add(if self.headers is Some { 2u16 } else { 0u16 }).wrapping_add(2))
    }

    /// Natural widths with their padding and separators; all rows with the
    /// header, its separator and the two borders (wrapping `u16` arithmetic).
    fn preferred_size(&self) -> (r: (u16, u16))
        ensures
            r.0 == padded_sum(natural_spec(self.headers, self.rows@))
                .wrapping_add(natural_spec(self.headers, self.rows@).len() as u16).wrapping_add(1),
            r.1 == (self.rows@.len() as u16).wrapping_add(if self.headers is Some { 2u16 } else { 0u16 }).wrapping_add(2),
    {
        let natural = self.natural_widths();
        let mut total: u16 = 0;
        let mut i: usize = 0;
        assert(natural@.take(0) =~= Seq::<usize>::empty());
        while i < natural.len()
            invariant
                i <= natural@.len(),
                total == padded_sum(natural@.take(i as int)),
            decreases natural@.len() - i,
        {
            assert(natural@.take(i + 1).drop_last() =~= natural@.take(i as int));
            total = total.wrapping_add((natural[i] as u16).wrapping_add(2));
            i += 1;
        }
        assert(natural@.take(natural@.len() as int) =~= natural@);
        let total_w = total.wrapping_add(natural.len() as u16).wrapping_add(1);
        let rows = (self.rows.len() as u16).wrapping_add(if self.headers.is_some() { 2 } else { 0 }).wrapping_add(2);
        (total_w, rows)
    }
}

} // verus!
