use vstd::prelude::*;
use crate::canvas::canvas::{lemma_unchanged_outside_refl, lemma_unchanged_outside_trans, print_spec, unchanged_outside,
    CanvasModel, SubCanvas};
use crate::color::types::{Color, StyleFlags};
use crate::event::keys::Key;
use crate::term::caps::TermCaps;
use crate::text::{byte_len, concat_str, pad_right, to_owned_string};
use crate::widget::traits::{InteractiveWidget, Widget};

verus! {

/// A scrollable, keyboard-navigable list menu.
pub struct Menu {
    pub items: Vec<String>,
    pub cursor: usize,
    pub scroll_offset: usize,
    pub focused: bool,
    pub fg: Color,
    pub bg: Color,
    pub cursor_fg: Color,
    pub cursor_bg: Color,
    pub cursor_style: StyleFlags,
    pub prefix_normal: String,
    pub prefix_cursor: String,
}

impl Default for Menu {
    fn default() -> (m: Self)
        ensures
            m.items@.len() == 0,
            m.cursor == 0,
            m.scroll_offset == 0,
            m.focused,
            m.fg == Color::Default,
            m.bg == Color::Default,
            m.cursor_fg == Color::Default,
            m.cursor_bg == Color::Default,
            m.cursor_style@ == 0b0010_0000,
            m.prefix_normal@ == seq![' ', ' '],
            m.prefix_cursor@ == seq!['>', ' '],
    {
        let ghost two = "  "@;
        proof {
            reveal_strlit("  ");
            reveal_strlit("> ");
        }
        Menu {
            items: Vec::new(),
            cursor: 0,
            scroll_offset: 0,
            focused: true,
            fg: Color::Default,
            bg: Color::Default,
            cursor_fg: Color::Default,
            cursor_bg: Color::Default,
            cursor_style: StyleFlags::reverse(),
            prefix_normal: to_owned_string("  "),
            prefix_cursor: to_owned_string("> "),
        }
    }
}

/// Cursor after `key` in a menu of `len` items, and whether the key was consumed.
pub open spec fn menu_key_spec(cursor: usize, len: usize, key: Key) -> (usize, bool) {
    let last: usize = if len > 0 { (len - 1) as usize } else { 0 };
    match key {
        Key::Up => (if cursor > 0 { (cursor - 1) as usize } else { cursor }, true),
        Key::Char(c) => if c == 'k' {
            (if cursor > 0 { (cursor - 1) as usize } else { cursor }, true)
        } else if c == 'j' {
            (if cursor + 1 < len { (cursor + 1) as usize } else { cursor }, true)
        } else {
            (cursor, false)
        },
        Key::Down => (if cursor + 1 < len { (cursor + 1) as usize } else { cursor }, true),
        Key::Home => (0, true),
        Key::End => (last, true),
        Key::PageUp => (if cursor >= 10 { (cursor - 10) as usize } else { 0 }, true),
        Key::PageDown => (if cursor + 10 < last { (cursor + 10) as usize } else { last }, true),
        _ => (cursor, false),
    }
}

impl Menu {
    pub fn new(items: Vec<String>) -> (m: Self)
        ensures
            m.items == items,
            m.cursor == 0,
            m.scroll_offset == 0,
            m.focused,
            m.fg == Color::Default,
            m.bg == Color::Default,
            m.cursor_fg == Color::Default,
            m.cursor_bg == Color::Default,
            m.cursor_style@ == 0b0010_0000,
            m.prefix_normal@ == seq![' ', ' '],
            m.prefix_cursor@ == seq!['>', ' '],
    {
        let mut m = Self::default();
        m.items = items;
        m
    }

    pub fn cursor_colors(self, fg: Color, bg: Color) -> (m: Self)
        ensures
            m.cursor_fg == fg,
            m.cursor_bg == bg,
            m.items == self.items,
            m.cursor == self.cursor,
            m.scroll_offset == self.scroll_offset,
            m.focused == self.focused,
            m.fg == self.fg,
            m.bg == self.bg,
            m.cursor_style == self.cursor_style,
    {
        let mut m = self;
        m.cursor_fg = fg;
        m.cursor_bg = bg;
        m
    }

    /// Currently selected item index.
    pub fn selected(&self) -> (i: usize)
        ensures
            i == self.cursor,
    {
        self.cursor
    }

    /// Currently selected item text.
    pub fn selected_item(&self) -> (s: Option<&str>)
        ensures
            self.cursor < self.items@.len() ==> (s matches Some(t) && t@ == self.items@[self.cursor as int]@),
            self.cursor >= self.items@.len() ==> s is None,
    {
        if self.cursor < self.items.len() {
            Some(self.items[self.cursor].as_str())
        } else {
            None
        }
    }

    /// Scroll so that the cursor is within `visible` rows of the offset.
    fn adjust_scroll(&mut self, visible: u16)
        requires
            visible > 0 || old(self).cursor < old(self).scroll_offset,
            old(self).scroll_offset + visible <= usize::MAX,
        ensures
            final(self).cursor == old(self).cursor,
            final(self).items == old(self).items,
            old(self).cursor < old(self).scroll_offset ==> final(self).scroll_offset == old(self).cursor,
            old(self).scroll_offset <= old(self).cursor < old(self).scroll_offset + visible ==> final(self).scroll_offset == old(self).scroll_offset,
            old(self).cursor >= old(self).scroll_offset + visible ==> final(self).scroll_offset == old(self).cursor - (visible - 1),
            visible > 0 ==> final(self).scroll_offset <= final(self).cursor < final(self).scroll_offset + visible,
    {
        let v = visible as usize;
        if self.cursor < self.scroll_offset {
            self.scroll_offset = self.cursor;
        } else if self.cursor >= self.scroll_offset + v {
            self.scroll_offset = self.cursor.saturating_sub(v - 1);
        }
    }

    fn widest_item(&self) -> (w: Option<usize>)
        ensures
            self.items@.len() == 0 ==> w is None,
            self.items@.len() > 0 ==> (w matches Some(m) && (forall|i: int| 0 <= i < self.items@.len() ==>
                m >= #[trigger] item_cols(self.items@[i]))
                && (exists|i: int| 0 <= i < self.items@.len() && m == #[trigger] item_cols(self.items@[i]))),
    {
        let mut best: Option<usize> = None;
        let mut i: usize = 0;
        while i < self.items.len()
            invariant
                i <= self.items@.len(),
                i == 0 <==> best is None,
                best matches Some(m) ==> (forall|j: int| 0 <= j < i ==> m >= #[trigger] item_cols(self.items@[j]))
                    && (exists|j: int| 0 <= j < i && m == #[trigger] item_cols(self.items@[j])),
            decreases self.items@.len() - i,
        {
            let n = byte_len(self.items[i].as_str()).wrapping_add(2);
            assert(n == item_cols(self.items@[i as int]));
            best = match best {
                Some(m) => if n > m { Some(n) } else { Some(m) },
                None => Some(n),
            };
            i += 1;
        }
        best
    }
}

/// Byte length of the UTF-8 encoding of `s`.
pub open spec fn byte_len_spec(s: String) -> int {
    vstd::utf8::encode_utf8(s@).len() as int
}

/// Columns an item asks for: its byte length plus two for the prefix
/// (wrapping like the sum in `usize`).
pub open spec fn item_cols(s: String) -> usize {
    (byte_len_spec(s) as usize).wrapping_add(2)
}


/// `m` is the largest `item_cols` of `items`.
pub open spec fn widest_cols(items: Seq<String>, m: usize) -> bool {
    &&& forall|i: int| 0 <= i < items.len() ==> m >= #[trigger] item_cols(items[i])
    &&& exists|i: int| 0 <= i < items.len() && m == #[trigger] item_cols(items[i])
}

/// There is one largest width.
pub proof fn lemma_widest_cols_unique(items: Seq<String>, a: usize, b: usize)
    requires
        widest_cols(items, a),
        widest_cols(items, b),
    ensures
        a == b,
{
    let i = choose|i: int| 0 <= i < items.len() && a == #[trigger] item_cols(items[i]);
    let j = choose|j: int| 0 <= j < items.len() && b == #[trigger] item_cols(items[j]);
    assert(b >= item_cols(items[i]));
    assert(a >= item_cols(items[j]));
}

/// Index of the item shown on screen row `row` (saturating).
pub open spec fn menu_item_at(m: &Menu, row: int) -> int {
    if m.scroll_offset + row > usize::MAX { usize::MAX as int } else { m.scroll_offset + row }
}

/// Item `idx` is drawn as the cursor: it is the cursor's item and the menu
/// has focus.
pub open spec fn menu_is_cursor(m: &Menu, idx: int) -> bool {
    idx == m.cursor && m.focused
}

/// The text of item `idx` on a row `w` columns wide: its prefix and the
/// item, padded with spaces so that the background fills the row.
pub open spec fn menu_line(m: &Menu, idx: int, w: int) -> Seq<char> {
    let s = (if menu_is_cursor(m, idx) { m.prefix_cursor@ } else { m.prefix_normal@ }) + m.items@[idx]@;
    s + Seq::new(if w > s.len() { (w - s.len()) as nat } else { 0 }, |i: int| ' ')
}

/// The canvas after the first `rows` screen rows of the menu are drawn in
/// the region `(oc, or, w, h)`: each row shows its item, rows past the last
/// item are left alone.
pub open spec fn menu_rows(m0: CanvasModel, oc: int, or: int, w: int, h: int, m: &Menu, rows: int) -> CanvasModel
    decreases rows,
{
    if rows <= 0 {
        m0
    } else {
        let prev = menu_rows(m0, oc, or, w, h, m, rows - 1);
        let idx = menu_item_at(m, rows - 1);
        if idx >= m.items@.len() {
            prev
        } else if menu_is_cursor(m, idx) {
            print_spec(prev, oc, or, w, h, 0, rows - 1, menu_line(m, idx, w), m.cursor_fg, m.cursor_bg, m.cursor_style)
        } else {
            print_spec(prev, oc, or, w, h, 0, rows - 1, menu_line(m, idx, w), m.fg, m.bg, StyleFlags { bits: 0 })
        }
    }
}

/// Drawing menu rows into a region with no columns changes nothing.
pub proof fn lemma_menu_rows_no_columns(m0: CanvasModel, oc: int, or: int, h: int, m: &Menu, rows: int)
    ensures
        menu_rows(m0, oc, or, 0, h, m, rows) == m0,
    decreases rows,
{
    if rows > 0 {
        lemma_menu_rows_no_columns(m0, oc, or, h, m, rows - 1);
    }
}

/// Once the items run out, the remaining rows draw nothing.
proof fn lemma_menu_rows_past_end(m0: CanvasModel, oc: int, or: int, w: int, h: int, m: &Menu, r: int, k: int)
    requires
        0 <= r <= k,
        menu_item_at(m, r) >= m.items@.len(),
    ensures
        menu_rows(m0, oc, or, w, h, m, k) == menu_rows(m0, oc, or, w, h, m, r),
    decreases k - r,
{
    if k > r {
        lemma_menu_rows_past_end(m0, oc, or, w, h, m, r, k - 1);
    }
}

impl Widget for Menu {
    /// The items from the scroll offset, one per row, the cursor's item
    /// highlighted.
    open spec fn drawn(&self, caps: &TermCaps, before: CanvasModel, after: CanvasModel, oc: int, or: int, w: int,
        h: int) -> bool {
        after == menu_rows(before, oc, or, w, h, self, h)
    }

    fn render(&self, canvas: &mut SubCanvas<'_>, caps: &TermCaps)
        ensures
            final(canvas).parent@ == menu_rows(old(canvas).parent@, old(canvas).origin_col as int,
                old(canvas).origin_row as int, old(canvas).width as int, old(canvas).height as int, self,
                old(canvas).height as int),
    {
        let w = canvas.width();
        let h = canvas.height();
        let ghost m0 = canvas.parent@;
        let ghost oc = canvas.origin_col as int;
        let ghost or = canvas.origin_row as int;
        proof {
            lemma_unchanged_outside_refl(m0, oc, or, w as int, h as int);
        }
        let mut screen_row: u16 = 0;
        while screen_row < h
            invariant
                canvas.wf(),
                canvas.origin_col == oc,
                canvas.origin_row == or,
                canvas.width == w,
                canvas.height == h,
                w + 2 <= u16::MAX,
                screen_row <= h,
                canvas.parent@ == menu_rows(m0, oc, or, w as int, h as int, self, screen_row as int),
                unchanged_outside(m0, canvas.parent@, oc, or, w as int, h as int),
                *final(canvas.parent) == *final(old(canvas).parent),
            ensures
                canvas.parent@ == menu_rows(m0, oc, or, w as int, h as int, self, h as int),
            decreases h - screen_row,
        {
            let item_idx = self.scroll_offset.saturating_add(screen_row as usize);
            if item_idx >= self.items.len() {
                proof {
                    lemma_menu_rows_past_end(m0, oc, or, w as int, h as int, self, screen_row as int, h as int);
                }
                break;
            }
            let is_cursor = item_idx == self.cursor && self.focused;
            let prefix = if is_cursor { &self.prefix_cursor } else { &self.prefix_normal };
            let line = concat_str(prefix.as_str(), self.items[item_idx].as_str());
            let (fg, bg, style) = if is_cursor {
                (self.cursor_fg, self.cursor_bg, self.cursor_style)
            } else {
                (self.fg, self.bg, StyleFlags::empty())
            };
            // Pad line to full width so background fills the row.
            let padded = pad_right(line.as_str(), w as usize);
            assert(padded@ == menu_line(self, item_idx as int, w as int));
            let ghost m = canvas.parent@;
            canvas.print(0, screen_row, padded.as_str(), fg, bg, style);
            proof { lemma_unchanged_outside_trans(m0, m, canvas.parent@, oc, or, w as int, h as int); }
            screen_row += 1;
        }
    }

    /// The widest item with its prefix, one row tall; 10 × 1 without items.
    open spec fn min_size_spec(&self) -> (u16, u16) {
        if self.items@.len() == 0 {
            (10u16, 1u16)
        } else {
            ((choose|m: usize| widest_cols(self.items@, m)) as u16, 1u16)
        }
    }

    fn min_size(&self) -> (r: (u16, u16))
        ensures
            self.items@.len() == 0 ==> r == (10u16, 1u16),
            self.items@.len() > 0 ==> r.1 == 1 && exists|i: int| 0 <= i < self.items@.len()
                && r.0 == #[trigger] item_cols(self.items@[i]) as u16
                && forall|j: int| 0 <= j < self.items@.len() ==> item_cols(self.items@[i]) >= #[trigger] item_cols(self.items@[j]),
    {
        let wi = self.widest_item();
        proof {
            if self.items@.len() > 0 {
                let m = wi->0;
                assert(widest_cols(self.items@, m));
                lemma_widest_cols_unique(self.items@, m, choose|m2: usize| widest_cols(self.items@, m2));
            }
        }
        let max_w: u16 = match wi {
            Some(m) => m as u16,
            None => 10,
        };
        (max_w, 1)
    }

    /// The widest item with its prefix, one row per item; 10 wide without
    /// items.
    open spec fn preferred_size_spec(&self) -> (u16, u16) {
        (if self.items@.len() == 0 { 10u16 } else { (choose|m: usize| widest_cols(self.items@, m)) as u16 },
            self.items@.len() as u16)
    }

    fn preferred_size(&self) -> (r: (u16, u16))
        ensures
            r.1 == self.items@.len() as u16,
            self.items@.len() == 0 ==> r.0 == 10,
            self.items@.len() > 0 ==> exists|i: int| 0 <= i < self.items@.len()
                && r.0 == #[trigger] item_cols(self.items@[i]) as u16
                && forall|j: int| 0 <= j < self.items@.len() ==> item_cols(self.items@[i]) >= #[trigger] item_cols(self.items@[j]),
    {
        let wi = self.widest_item();
        proof {
            if self.items@.len() > 0 {
                let m = wi->0;
                assert(widest_cols(self.items@, m));
                lemma_widest_cols_unique(self.items@, m, choose|m2: usize| widest_cols(self.items@, m2));
            }
        }
        let max_w: u16 = match wi {
            Some(m) => m as u16,
            None => 10,
        };
        (max_w, self.items.len() as u16)
    }
}

impl InteractiveWidget for Menu {
    /// Move the cursor: Up/`k` and Down/`j` by one, PageUp/PageDown by ten,
    /// Home/End to the first/last item; the cursor never leaves the list.
    fn handle_key(&mut self, key: Key) -> (consumed: bool)
        ensures
            (final(self).cursor, consumed) == menu_key_spec(old(self).cursor, old(self).items@.len() as usize, key),
            final(self).items == old(self).items,
            final(self).scroll_offset == old(self).scroll_offset,
            final(self).focused == old(self).focused,
    {
        let len = self.items.len();
        let last = len.saturating_sub(1);
        match key {
            Key::Up => {
                if self.cursor > 0 {
                    self.cursor -= 1;
                }
                true
            },
            Key::Down => {
                if len > 0 && self.cursor < len - 1 {
                    self.cursor += 1;
                }
                true
            },
            Key::Char(c) => {
                if c == 'k' {
                    if self.cursor > 0 {
                        self.cursor -= 1;
                    }
                    true
                } else if c == 'j' {
                    if len > 0 && self.cursor < len - 1 {
                        self.cursor += 1;
                    }
                    true
                } else {
                    false
                }
            },
            Key::Home => {
                self.cursor = 0;
                true
            },
            Key::End => {
                self.cursor = last;
                true
            },
            Key::PageUp => {
                self.cursor = self.cursor.saturating_sub(10);
                true
            },
            Key::PageDown => {
                let next = self.cursor.saturating_add(10);
                self.cursor = if next < last { next } else { last };
                true
            },
            _ => false,
        }
    }

    fn is_focused(&self) -> (f: bool)
        ensures
            f == self.focused,
    {
        self.focused
    }

    fn set_focused(&mut self, f: bool)
        ensures
            final(self).focused == f,
            final(self).items == old(self).items,
            final(self).cursor == old(self).cursor,
            final(self).scroll_offset == old(self).scroll_offset,
    {
        self.focused = f;
    }
}

/// Moving down undoes moving up: from a cursor that is neither on the first
/// nor past the last item, `Up` then `Down` returns to it.
pub proof fn lemma_menu_up_down(cursor: usize, len: usize)
    requires
        0 < cursor < len,
    ensures
        menu_key_spec(menu_key_spec(cursor, len, Key::Up).0, len, Key::Down).0 == cursor,
{
}

/// Moving up undoes moving down: from a cursor before the last item, `Down`
/// then `Up` returns to it.
pub proof fn lemma_menu_down_up(cursor: usize, len: usize)
    requires
        cursor + 1 < len,
    ensures
        menu_key_spec(menu_key_spec(cursor, len, Key::Down).0, len, Key::Up).0 == cursor,
{
}

/// `Home` goes to the first item and `End` to the last, wherever the cursor
/// is; both are consumed.
pub proof fn lemma_menu_home_end(cursor: usize, len: usize)
    requires
        len > 0,
    ensures
        menu_key_spec(cursor, len, Key::Home) == (0usize, true),
        menu_key_spec(cursor, len, Key::End) == ((len - 1) as usize, true),
{
}

/// Keys keep the cursor on an item: from a cursor on an item (or at 0 in an
/// empty menu), every key leaves it on an item (or at 0).
pub proof fn lemma_menu_cursor_in_range(cursor: usize, len: usize, key: Key)
    requires
        cursor < len || cursor == 0,
    ensures
        menu_key_spec(cursor, len, key).0 < len || menu_key_spec(cursor, len, key).0 == 0,
{
}

/// The cursor after the keys `keys`, one after the other, from `cursor` in a
/// menu of `len` items.
pub open spec fn menu_keys_spec(cursor: usize, len: usize, keys: Seq<Key>) -> usize
    decreases keys.len(),
{
    if keys.len() == 0 {
        cursor
    } else {
        menu_key_spec(menu_keys_spec(cursor, len, keys.drop_last()), len, keys.last()).0
    }
}

/// Over any sequence of keys the cursor stays on an item (or at 0 in an
/// empty menu).
pub proof fn lemma_menu_keys_in_range(cursor: usize, len: usize, keys: Seq<Key>)
    requires
        cursor < len || cursor == 0,
    ensures
        menu_keys_spec(cursor, len, keys) < len || menu_keys_spec(cursor, len, keys) == 0,
    decreases keys.len(),
{
    if keys.len() > 0 {
        lemma_menu_keys_in_range(cursor, len, keys.drop_last());
        lemma_menu_cursor_in_range(menu_keys_spec(cursor, len, keys.drop_last()), len, keys.last());
    }
}

/// `k` presses of Down from the first item select item `k`, or the last
/// item once there are no more.
pub proof fn lemma_menu_downs(len: usize, k: nat)
    requires
        len > 0,
    ensures
        menu_keys_spec(0, len, Seq::new(k, |i: int| Key::Down)) == (if k < len { k } else { (len - 1) as nat }),
    decreases k,
{
    if k > 0 {
        let keys = Seq::new(k, |i: int| Key::Down);
        assert(keys.drop_last() =~= Seq::new((k - 1) as nat, |i: int| Key::Down));
        lemma_menu_downs(len, (k - 1) as nat);
    }
}

/// What each key does to the cursor of a menu of `len` items, from a cursor
/// on an item: `Up` and `k` move to the previous item and `Down` and `j` to
/// the next, staying put at the ends; `Home` and `End` go to the first and
/// last item; `PageUp` and `PageDown` move ten items, stopping at the ends;
/// all of these are consumed, and any other key changes nothing and is not.
pub proof fn lemma_menu_key_moves(cursor: usize, len: usize, key: Key)
    requires
        cursor < len,
    ensures
        key == Key::Up || key == Key::Char('k') ==> menu_key_spec(cursor, len, key).1
            && (if cursor == 0 { menu_key_spec(cursor, len, key).0 == 0 } else {
                menu_key_spec(cursor, len, key).0 + 1 == cursor }),
        key == Key::Down || key == Key::Char('j') ==> menu_key_spec(cursor, len, key).1
            && (if cursor + 1 == len { menu_key_spec(cursor, len, key).0 == cursor } else {
                menu_key_spec(cursor, len, key).0 == cursor + 1 }),
        key == Key::Home ==> menu_key_spec(cursor, len, key) == (0usize, true),
        key == Key::End ==> menu_key_spec(cursor, len, key).1 && menu_key_spec(cursor, len, key).0 + 1 == len,
        key == Key::PageUp ==> menu_key_spec(cursor, len, key).1
            && menu_key_spec(cursor, len, key).0 == (if cursor < 10 { 0 } else { cursor - 10 }),
        key == Key::PageDown ==> menu_key_spec(cursor, len, key).1
            && menu_key_spec(cursor, len, key).0 == (if cursor + 10 < len - 1 { cursor + 10 } else { len - 1 }),
        !(key == Key::Up || key == Key::Down || key == Key::Char('k') || key == Key::Char('j') || key == Key::Home
            || key == Key::End || key == Key::PageUp || key == Key::PageDown)
            ==> menu_key_spec(cursor, len, key) == (cursor, false),
{
}

/// `k` does what `Up` does and `j` what `Down` does, from any cursor.
pub proof fn lemma_menu_vi_keys(cursor: usize, len: usize)
    ensures
        menu_key_spec(cursor, len, Key::Char('k')) == menu_key_spec(cursor, len, Key::Up),
        menu_key_spec(cursor, len, Key::Char('j')) == menu_key_spec(cursor, len, Key::Down),
{
}

} // verus!
