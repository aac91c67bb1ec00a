//! Wrapping text to a width: hard line breaks, character wrap and word wrap.

use vstd::prelude::*;
use crate::text::{advance_width, cw, is_whitespace, push_char, seq_width, unicode_whitespace};

verus! {

/// The characters of each string.
pub open spec fn views(v: Seq<String>) -> Seq<Seq<char>> {
    v.map_values(|s: String| s@)
}

/// `s` cut at every `'\n'` (which is dropped), as `str::split('\n')` does:
/// a text with `k` newlines gives `k + 1` pieces.
pub open spec fn split_newlines(s: Seq<char>) -> Seq<Seq<char>>
    decreases s.len(),
{
    if s.len() == 0 {
        seq![Seq::empty()]
    } else {
        let prev = split_newlines(s.drop_last());
        if s.last() == '\n' {
            prev.push(Seq::empty())
        } else {
            prev.update(prev.len() - 1, prev.last().push(s.last()))
        }
    }
}

/// Cutting at newlines gives at least one piece.
pub proof fn lemma_split_newlines_len(s: Seq<char>)
    ensures
        split_newlines(s).len() >= 1,
    decreases s.len(),
{
    if s.len() > 0 {
        lemma_split_newlines_len(s.drop_last());
    }
}

/// The pieces of `lines` joined with `'\n'` between them.
pub open spec fn join_newlines(lines: Seq<Seq<char>>) -> Seq<char>
    decreases lines.len(),
{
    if lines.len() == 0 {
        Seq::empty()
    } else if lines.len() == 1 {
        lines[0]
    } else {
        join_newlines(lines.drop_last()) + seq!['\n'] + lines.last()
    }
}

/// Cutting at newlines loses nothing: joining the pieces with newlines gives
/// the text back.
pub proof fn lemma_split_join_newlines(s: Seq<char>)
    ensures
        join_newlines(split_newlines(s)) == s,
    decreases s.len(),
{
    if s.len() > 0 {
        let p = s.drop_last();
        lemma_split_join_newlines(p);
        lemma_split_newlines_len(p);
        let prev = split_newlines(p);
        assert(s =~= p.push(s.last()));
        if s.last() == '\n' {
            assert(split_newlines(s).drop_last() =~= prev);
            assert(s =~= p + seq!['\n'] + Seq::<char>::empty());
        } else {
            let cur = split_newlines(s);
            assert(cur.drop_last() =~= prev.drop_last());
            if prev.len() == 1 {
                assert(join_newlines(prev) == prev[0]);
                assert(s =~= prev[0].push(s.last()));
            } else {
                assert(join_newlines(prev) == join_newlines(prev.drop_last()) + seq!['\n'] + prev.last());
                assert(s =~= join_newlines(prev.drop_last()) + seq!['\n'] + prev.last().push(s.last()));
            }
        }
    }
}

// ---------------------------------------------------------------------------
// Character wrap
// ---------------------------------------------------------------------------

/// Lines finished so far, the line being filled, and its width.
pub struct WrapState {
    pub out: Seq<Seq<char>>,
    pub line: Seq<char>,
    pub line_w: int,
}

/// Nothing placed yet.
pub open spec fn empty_wrap_state() -> WrapState {
    WrapState { out: Seq::empty(), line: Seq::empty(), line_w: 0 }
}

/// Place `ch`: when it would overflow the width, the current line is
/// finished first.
pub open spec fn char_wrap_step(st: WrapState, width: int, ch: char) -> WrapState {
    let st1 = if st.line_w + cw(ch) > width {
        WrapState { out: st.out.push(st.line), line: Seq::empty(), line_w: 0 }
    } else {
        st
    };
    WrapState { out: st1.out, line: st1.line.push(ch), line_w: st1.line_w + cw(ch) }
}

/// The state after placing the characters of `text` one by one.
pub open spec fn char_wrap_fold(text: Seq<char>, width: int) -> WrapState
    decreases text.len(),
{
    if text.len() == 0 {
        empty_wrap_state()
    } else {
        char_wrap_step(char_wrap_fold(text.drop_last(), width), width, text.last())
    }
}

/// The lines of `text` wrapped at any character to `width` columns.
pub open spec fn char_wrap_lines(text: Seq<char>, width: int) -> Seq<Seq<char>> {
    let st = char_wrap_fold(text, width);
    st.out.push(st.line)
}

/// All lines of `lines` one after the other.
pub open spec fn concat_lines(lines: Seq<Seq<char>>) -> Seq<char>
    decreases lines.len(),
{
    if lines.len() == 0 {
        Seq::empty()
    } else {
        concat_lines(lines.drop_last()) + lines.last()
    }
}

proof fn lemma_char_wrap_fold(text: Seq<char>, width: int)
    requires
        width >= 0,
    ensures
        concat_lines(char_wrap_fold(text, width).out) + char_wrap_fold(text, width).line == text,
        0 <= char_wrap_fold(text, width).line_w,
        char_wrap_fold(text, width).line_w == seq_width(char_wrap_fold(text, width).line),
        forall|i: int| 0 <= i < char_wrap_fold(text, width).out.len() ==>
            seq_width(#[trigger] char_wrap_fold(text, width).out[i]) <= width
            || char_wrap_fold(text, width).out[i].len() <= 1,
        char_wrap_fold(text, width).line_w <= width || char_wrap_fold(text, width).line.len() <= 1,
    decreases text.len(),
{
    if text.len() > 0 {
        let p = text.drop_last();
        lemma_char_wrap_fold(p, width);
        let st = char_wrap_fold(p, width);
        let ch = text.last();
        if st.line_w + cw(ch) > width {
            assert(concat_lines(st.out.push(st.line)) == concat_lines(st.out) + st.line) by {
                assert(st.out.push(st.line).drop_last() =~= st.out);
            }
            assert(Seq::<char>::empty().push(ch).drop_last() =~= Seq::<char>::empty());
            assert(seq_width(Seq::<char>::empty().push(ch)) == seq_width(Seq::<char>::empty()) + cw(ch));
        } else {
            assert(st.line.push(ch).drop_last() =~= st.line);
            assert(seq_width(st.line.push(ch)) == seq_width(st.line) + cw(ch));
        }
        assert(text =~= p.push(ch));
    }
}

/// Character wrap loses nothing: the lines one after the other are the text.
/// Every line but the one being filled fits the width, unless it holds a
/// single character wider than the width.
pub proof fn lemma_char_wrap_lines(text: Seq<char>, width: int)
    requires
        width >= 0,
    ensures
        concat_lines(char_wrap_lines(text, width)) == text,
        forall|i: int| 0 <= i < char_wrap_lines(text, width).len() ==>
            seq_width(#[trigger] char_wrap_lines(text, width)[i]) <= width || char_wrap_lines(text, width)[i].len() <= 1,
{
    lemma_char_wrap_fold(text, width);
    let st = char_wrap_fold(text, width);
    assert(st.out.push(st.line).drop_last() =~= st.out);
}

// ---------------------------------------------------------------------------
// Words
// ---------------------------------------------------------------------------

/// Words completed so far and the word being read.
pub open spec fn words_fold(text: Seq<char>) -> (Seq<Seq<char>>, Seq<char>)
    decreases text.len(),
{
    if text.len() == 0 {
        (Seq::empty(), Seq::empty())
    } else {
        let (ws, cur) = words_fold(text.drop_last());
        let ch = text.last();
        if unicode_whitespace(ch) {
            if cur.len() > 0 { (ws.push(cur), Seq::empty()) } else { (ws, cur) }
        } else {
            (ws, cur.push(ch))
        }
    }
}

/// The maximal runs of non-whitespace characters of `text`, in order
/// (`str::split_whitespace`).
pub open spec fn split_words(text: Seq<char>) -> Seq<Seq<char>> {
    let (ws, cur) = words_fold(text);
    if cur.len() > 0 { ws.push(cur) } else { ws }
}

// ---------------------------------------------------------------------------
// Word wrap
// ---------------------------------------------------------------------------

/// Append `word` (of width `ww`) to the current line, after a space when the
/// line is not empty.
pub open spec fn place_word(st: WrapState, word: Seq<char>, ww: int) -> WrapState {
    if st.line_w > 0 {
        WrapState { out: st.out, line: st.line.push(' ') + word, line_w: st.line_w + 1 + ww }
    } else {
        WrapState { out: st.out, line: st.line + word, line_w: st.line_w + ww }
    }
}

/// Place one word: when it does not fit on the current line, the line is
/// finished; a word wider than the whole width is character-wrapped on
/// lines of its own.
pub open spec fn word_step(st: WrapState, width: int, word: Seq<char>) -> WrapState {
    let ww = seq_width(word) as int;
    let sep = if st.line_w > 0 { 1int } else { 0int };
    if st.line_w + sep + ww > width {
        let st1 = if st.line_w > 0 {
            WrapState { out: st.out.push(st.line), line: Seq::empty(), line_w: 0 }
        } else {
            st
        };
        if ww > width {
            WrapState { out: st1.out + char_wrap_lines(word, width), line: st1.line, line_w: st1.line_w }
        } else {
            place_word(st1, word, ww)
        }
    } else {
        place_word(st, word, ww)
    }
}

/// The state after placing `words` one by one.
pub open spec fn word_fold(words: Seq<Seq<char>>, width: int) -> WrapState
    decreases words.len(),
{
    if words.len() == 0 {
        empty_wrap_state()
    } else {
        word_step(word_fold(words.drop_last(), width), width, words.last())
    }
}

/// The lines of `text` wrapped at word boundaries to `width` columns; words
/// are separated by single spaces.
pub open spec fn word_wrap_lines(text: Seq<char>, width: int) -> Seq<Seq<char>> {
    let st = word_fold(split_words(text), width);
    st.out.push(st.line)
}

// ---------------------------------------------------------------------------
// Executable wrapping
// ---------------------------------------------------------------------------

/// The characters of each vector.
pub open spec fn cviews(v: Seq<Vec<char>>) -> Seq<Seq<char>> {
    v.map_values(|w: Vec<char>| w@)
}

proof fn lemma_views_push(v: Seq<String>, s: String)
    ensures
        views(v.push(s)) == views(v).push(s@),
{
    assert(views(v.push(s)) =~= views(v).push(s@));
}

proof fn lemma_cviews_push(v: Seq<Vec<char>>, s: Vec<char>)
    ensures
        cviews(v.push(s)) == cviews(v).push(s@),
{
    assert(cviews(v.push(s)) =~= cviews(v).push(s@));
}

/// `text` cut at its newlines (`str::split('\n')`).
pub fn split_newlines_exec(text: &Vec<char>) -> (r: Vec<Vec<char>>)
    ensures
        cviews(r@) == split_newlines(text@),
{
    let mut done: Vec<Vec<char>> = Vec::new();
    let mut cur: Vec<char> = Vec::new();
    let mut i: usize = 0;
    assert(text@.take(0) =~= Seq::<char>::empty());
    assert(cviews(done@).push(cur@) =~= seq![Seq::<char>::empty()]);
    while i < text.len()
        invariant
            i <= text@.len(),
            split_newlines(text@.take(i as int)) == cviews(done@).push(cur@),
        decreases text@.len() - i,
    {
        let ch = text[i];
        assert(text@.take(i + 1).drop_last() =~= text@.take(i as int));
        assert(text@.take(i + 1).last() == ch);
        let ghost d0 = done@;
        let ghost c0 = cur@;
        if ch == '\n' {
            done.push(cur);
            cur = Vec::new();
            proof {
                lemma_cviews_push(d0, done@.last());
                assert(cviews(done@).push(cur@) =~= cviews(d0).push(c0).push(Seq::empty()));
            }
        } else {
            cur.push(ch);
            assert(cviews(done@).push(cur@) =~= cviews(d0).push(c0).update(cviews(d0).len() as int, c0.push(ch)));
        }
        i += 1;
    }
    assert(text@.take(text@.len() as int) =~= text@);
    let ghost d0 = done@;
    done.push(cur);
    proof {
        lemma_cviews_push(d0, done@.last());
    }
    done
}

/// Appends the characters of `word` to `line`.
fn append_chars(line: &mut String, word: &Vec<char>)
    ensures
        final(line)@ == old(line)@ + word@,
{
    let mut i: usize = 0;
    while i < word.len()
        invariant
            i <= word@.len(),
            line@ == old(line)@ + word@.take(i as int),
        decreases word@.len() - i,
    {
        push_char(line, word[i]);
        i += 1;
        assert(line@ =~= old(line)@ + word@.take(i as int));
    }
    assert(word@.take(word@.len() as int) =~= word@);
}

/// Character wrap of `text` to `width` columns, appended to `out`.
pub fn char_wrap(text: &Vec<char>, width: usize, out: &mut Vec<String>)
    requires
        width <= u16::MAX,
    ensures
        views(final(out)@) == views(old(out)@) + char_wrap_lines(text@, width as int),
{
    let ghost base = views(out@);
    let mut line = String::new();
    let mut line_w: usize = 0;
    let mut i: usize = 0;
    assert(text@.take(0) =~= Seq::<char>::empty());
    assert(base + Seq::<Seq<char>>::empty() =~= base);
    while i < text.len()
        invariant
            i <= text@.len(),
            width <= u16::MAX,
            line@ == char_wrap_fold(text@.take(i as int), width as int).line,
            line_w == char_wrap_fold(text@.take(i as int), width as int).line_w,
            views(out@) == base + char_wrap_fold(text@.take(i as int), width as int).out,
            line_w <= width || line_w <= 3,
        decreases text@.len() - i,
    {
        let ch = text[i];
        let c = advance_width(ch);
        assert(text@.take(i + 1).drop_last() =~= text@.take(i as int));
        assert(text@.take(i + 1).last() == ch);
        let ghost st = char_wrap_fold(text@.take(i as int), width as int);
        if line_w + c > width {
            let ghost o0 = out@;
            out.push(line);
            proof {
                lemma_views_push(o0, out@.last());
                assert(base + st.out.push(st.line) =~= (base + st.out).push(st.line));
            }
            line = String::new();
            line_w = 0;
        }
        push_char(&mut line, ch);
        line_w += c;
        i += 1;
    }
    assert(text@.take(text@.len() as int) =~= text@);
    let ghost st = char_wrap_fold(text@, width as int);
    let ghost o0 = out@;
    out.push(line);
    proof {
        lemma_views_push(o0, out@.last());
        assert(base + st.out.push(st.line) =~= (base + st.out).push(st.line));
    }
}

/// The whitespace-separated words of `text` (`str::split_whitespace`).
pub fn split_whitespace_exec(text: &Vec<char>) -> (r: Vec<Vec<char>>)
    ensures
        cviews(r@) == split_words(text@),
{
    let mut words: Vec<Vec<char>> = Vec::new();
    let mut cur: Vec<char> = Vec::new();
    let mut i: usize = 0;
    assert(text@.take(0) =~= Seq::<char>::empty());
    assert(cviews(words@) =~= Seq::<Seq<char>>::empty());
    while i < text.len()
        invariant
            i <= text@.len(),
            words_fold(text@.take(i as int)) == (cviews(words@), cur@),
        decreases text@.len() - i,
    {
        let ch = text[i];
        assert(text@.take(i + 1).drop_last() =~= text@.take(i as int));
        assert(text@.take(i + 1).last() == ch);
        if is_whitespace(ch) {
            if cur.len() > 0 {
                let ghost w0 = words@;
                words.push(cur);
                proof { lemma_cviews_push(w0, words@.last()); }
                cur = Vec::new();
            }
        } else {
            cur.push(ch);
        }
        i += 1;
    }
    assert(text@.take(text@.len() as int) =~= text@);
    if cur.len() > 0 {
        let ghost w0 = words@;
        words.push(cur);
        proof { lemma_cviews_push(w0, words@.last()); }
    }
    words
}

/// `seq_width(word)`, or `cap` when it is wider.
fn capped_width(word: &Vec<char>, cap: usize) -> (r: usize)
    ensures
        r == (if seq_width(word@) < cap { seq_width(word@) as int } else { cap as int }),
{
    let mut acc: usize = 0;
    let mut i: usize = 0;
    assert(word@.take(0) =~= Seq::<char>::empty());
    while i < word.len()
        invariant
            i <= word@.len(),
            acc == (if seq_width(word@.take(i as int)) < cap { seq_width(word@.take(i as int)) as int } else { cap as int }),
        decreases word@.len() - i,
    {
        let c = advance_width(word[i]);
        assert(word@.take(i + 1).drop_last() =~= word@.take(i as int));
        assert(word@.take(i + 1).last() == word@[i as int]);
        let s = acc.saturating_add(c);
        acc = if s < cap { s } else { cap };
        i += 1;
    }
    assert(word@.take(word@.len() as int) =~= word@);
    acc
}

/// Word wrap of `text` to `width` columns, appended to `out`.
pub fn word_wrap(text: &Vec<char>, width: usize, out: &mut Vec<String>)
    requires
        width <= u16::MAX,
    ensures
        views(final(out)@) == views(old(out)@) + word_wrap_lines(text@, width as int),
{
    let ghost base = views(out@);
    let words = split_whitespace_exec(text);
    let ghost ws = cviews(words@);
    let mut line = String::new();
    let mut line_w: usize = 0;
    let mut k: usize = 0;
    assert(ws.take(0) =~= Seq::<Seq<char>>::empty());
    assert(base + Seq::<Seq<char>>::empty() =~= base);
    while k < words.len()
        invariant
            k <= words@.len(),
            width <= u16::MAX,
            ws == cviews(words@),
            line@ == word_fold(ws.take(k as int), width as int).line,
            line_w == word_fold(ws.take(k as int), width as int).line_w,
            views(out@) == base + word_fold(ws.take(k as int), width as int).out,
            line_w <= width,
        decreases words@.len() - k,
    {
        let word = &words[k];
        let ww = capped_width(word, width + 1);
        let sep: usize = if line_w > 0 { 1 } else { 0 };
        assert(ws.take(k + 1).drop_last() =~= ws.take(k as int));
        assert(ws.take(k + 1).last() == word@);
        let ghost st = word_fold(ws.take(k as int), width as int);
        let ghost st1 = if st.line_w > 0 {
            WrapState { out: st.out.push(st.line), line: Seq::empty(), line_w: 0 }
        } else {
            st
        };
        if line_w + sep + ww > width {
            if line_w > 0 {
                let ghost o0 = out@;
                out.push(line);
                proof {
                    lemma_views_push(o0, out@.last());
                    assert(base + st.out.push(st.line) =~= (base + st.out).push(st.line));
                }
                line = String::new();
                line_w = 0;
            }
            if ww > width {
                char_wrap(word, width, out);
                assert(base + (st1.out + char_wrap_lines(word@, width as int)) =~= base + st1.out + char_wrap_lines(word@, width as int));
                k += 1;
                continue;
            }
        }
        if line_w > 0 {
            push_char(&mut line, ' ');
            line_w += 1;
        }
        append_chars(&mut line, word);
        line_w += ww;
        k += 1;
    }
    assert(ws.take(ws.len() as int) =~= ws);
    let ghost st = word_fold(ws, width as int);
    let ghost o0 = out@;
    out.push(line);
    proof {
        lemma_views_push(o0, out@.last());
        assert(base + st.out.push(st.line) =~= (base + st.out).push(st.line));
    }
}

// ---------------------------------------------------------------------------
// Word wrap keeps lines within the width
// ---------------------------------------------------------------------------

proof fn lemma_seq_width_append(a: Seq<char>, b: Seq<char>)
    ensures
        seq_width(a + b) == seq_width(a) + seq_width(b),
    decreases b.len(),
{
    if b.len() > 0 {
        lemma_seq_width_append(a, b.drop_last());
        assert((a + b).drop_last() =~= a + b.drop_last());
    } else {
        assert(a + b =~= a);
    }
}

/// A line fits `width` columns, or holds a single character wider than it.
pub open spec fn fits(line: Seq<char>, width: int) -> bool {
    seq_width(line) <= width || line.len() <= 1
}

proof fn lemma_word_fold(words: Seq<Seq<char>>, width: int)
    requires
        width >= 0,
    ensures
        word_fold(words, width).line_w == seq_width(word_fold(words, width).line),
        word_fold(words, width).line_w <= width,
        forall|i: int| 0 <= i < word_fold(words, width).out.len() ==>
            fits(#[trigger] word_fold(words, width).out[i], width),
    decreases words.len(),
{
    if words.len() > 0 {
        let p = words.drop_last();
        lemma_word_fold(p, width);
        let st = word_fold(p, width);
        let word = words.last();
        let ww = seq_width(word) as int;
        let sep = if st.line_w > 0 { 1int } else { 0int };
        let st1 = if st.line_w > 0 {
            WrapState { out: st.out.push(st.line), line: Seq::empty(), line_w: 0 }
        } else {
            st
        };
        lemma_seq_width_append(st.line, word);
        lemma_seq_width_append(st.line.push(' '), word);
        assert(st.line.push(' ').drop_last() =~= st.line);
        assert(Seq::<char>::empty() + word =~= word);
        assert(seq_width(Seq::<char>::empty()) == 0);
        if st.line_w + sep + ww > width && ww > width {
            lemma_char_wrap_lines(word, width);
            let cl = char_wrap_lines(word, width);
            assert forall|i: int| 0 <= i < (st1.out + cl).len() implies fits(#[trigger] (st1.out + cl)[i], width) by {
                if i >= st1.out.len() {
                    assert((st1.out + cl)[i] == cl[i - st1.out.len()]);
                }
            }
        }
    }
}

/// Word wrap keeps every line within the width, but for a character wider
/// than the width standing alone.
pub proof fn lemma_word_wrap_fits(text: Seq<char>, width: int)
    requires
        width >= 0,
    ensures
        forall|i: int| 0 <= i < word_wrap_lines(text, width).len() ==>
            fits(#[trigger] word_wrap_lines(text, width)[i], width),
{
    lemma_word_fold(split_words(text), width);
}

} // verus!
