//! Display widths of characters and strings, and small string helpers.

use vstd::prelude::*;
use unicode_width::{UnicodeWidthChar, UnicodeWidthStr};
use vstd::string::StringSliceAdditionalSpecFns;

verus! {

/// What `unicode_width::UnicodeWidthChar::width` returns for `c`: its
/// displayed width in columns, or `None` for a control character.
pub uninterp spec fn unicode_char_width(c: char) -> Option<usize>;

/// What `unicode_width::UnicodeWidthStr::width` returns for the string `s`.
pub uninterp spec fn unicode_str_width(s: Seq<char>) -> usize;

/// Calls `UnicodeWidthChar::width`.  The contract claims what the crate's
/// source shows: printable ASCII is one column wide, C0/C1 control codes have
/// no width (`None`), and no character is wider than three columns.
#[verifier::external_body]
pub(crate) fn char_width(c: char) -> (r: Option<usize>)
    ensures
        r == unicode_char_width(c),
        ((c as u32) >= 0x20 && (c as u32) < 0x7f) ==> r == Some(1usize),
        ((c as u32) < 0x20 || ((c as u32) >= 0x7f && (c as u32) < 0xa0)) ==> r is None,
        r matches Some(w) ==> w <= 3,
{
    UnicodeWidthChar::width(c)
}

/// Calls `UnicodeWidthStr::width`.  The contract claims what the crate's
/// documentation states: a string of printable ASCII characters is as many
/// columns wide as it has characters.  The full width rules (ligatures, emoji
/// sequences) are left to the name `unicode_str_width`.
#[verifier::external_body]
pub(crate) fn str_width(s: &str) -> (r: usize)
    ensures
        r == unicode_str_width(s@),
        (forall|i: int| 0 <= i < s@.len() ==> (#[trigger] s@[i] as u32) >= 0x20 && (s@[i] as u32) < 0x7f)
            ==> r == s@.len(),
{
    UnicodeWidthStr::width(s)
}

/// Columns that a renderer advances for `c`: its display width, or one
/// column for a control character.
pub open spec fn cw(c: char) -> nat {
    if ' ' <= c <= '~' {
        1
    } else {
        match unicode_char_width(c) {
            Some(w) => w as nat,
            None => 1,
        }
    }
}

/// Display width of `c` with control characters counted as one column, as
/// the canvas and the wrapping code count it.
pub fn advance_width(c: char) -> (w: usize)
    ensures
        w == cw(c),
        w <= 3,
{
    match char_width(c) {
        Some(w) => w,
        None => 1,
    }
}

/// Sum of `cw` over `s`.
pub open spec fn seq_width(s: Seq<char>) -> nat
    decreases s.len(),
{
    if s.len() == 0 {
        0
    } else {
        seq_width(s.drop_last()) + cw(s.last())
    }
}

/// Calls `String::push`.  The contract claims what its documentation
/// states: `c` is appended at the end of the string.
#[verifier::external_body]
pub(crate) fn push_char(s: &mut String, c: char)
    ensures
        final(s)@ == old(s)@.push(c),
{
    s.push(c)
}

} // verus!

verus! {

/// The first `n` characters of `s` (all of them when it has fewer).
pub fn take_chars(s: &str, n: usize) -> (r: String)
    ensures
        r@ == s@.take(if n < s@.len() { n as int } else { s@.len() as int }),
{
    let len = s.unicode_len();
    let k = if n < len { n } else { len };
    let mut r = String::new();
    let mut i: usize = 0;
    while i < k
        invariant
            i <= k,
            k <= s@.len(),
            r@ == s@.take(i as int),
        decreases k - i,
    {
        push_char(&mut r, s.get_char(i));
        i += 1;
        assert(r@ =~= s@.take(i as int));
    }
    r
}

/// `s` with one space before and one after.
pub fn pad_one_space(s: &str) -> (r: String)
    ensures
        r@ == seq![' '] + s@ + seq![' '],
{
    let len = s.unicode_len();
    let mut r = String::new();
    push_char(&mut r, ' ');
    let mut i: usize = 0;
    while i < len
        invariant
            i <= len,
            len == s@.len(),
            r@ == seq![' '] + s@.take(i as int),
        decreases len - i,
    {
        push_char(&mut r, s.get_char(i));
        i += 1;
        assert(r@ =~= seq![' '] + s@.take(i as int));
    }
    push_char(&mut r, ' ');
    assert(s@.take(len as int) =~= s@);
    assert(r@ =~= seq![' '] + s@ + seq![' ']);
    r
}

/// A copy of `s` as an owned string.
pub fn to_owned_string(s: &str) -> (r: String)
    ensures
        r@ == s@,
{
    s.to_owned()
}

} // verus!

verus! {

/// Concatenation of `a` and `b`.
pub fn concat_str(a: &str, b: &str) -> (r: String)
    ensures
        r@ == a@ + b@,
{
    let mut r = to_owned_string(a);
    let n = b.unicode_len();
    let mut i: usize = 0;
    while i < n
        invariant
            i <= n,
            n == b@.len(),
            r@ == a@ + b@.take(i as int),
        decreases n - i,
    {
        push_char(&mut r, b.get_char(i));
        i += 1;
        assert(r@ =~= a@ + b@.take(i as int));
    }
    assert(b@.take(n as int) =~= b@);
    r
}

/// `s` followed by spaces up to `width` characters (`format!("{:<width$}")`):
/// a string already that long is kept as it is.
pub fn pad_right(s: &str, width: usize) -> (r: String)
    ensures
        r@ == s@ + Seq::new(if width > s@.len() { (width - s@.len()) as nat } else { 0 }, |i: int| ' '),
{
    let mut r = to_owned_string(s);
    let n = s.unicode_len();
    let mut k: usize = n;
    while k < width
        invariant
            n <= k,
            n == s@.len(),
            k <= width || k == n,
            r@ == s@ + Seq::new((k - n) as nat, |i: int| ' '),
        decreases width - k,
    {
        push_char(&mut r, ' ');
        k += 1;
        assert(r@ =~= s@ + Seq::new((k - n) as nat, |i: int| ' '));
    }
    r
}

/// Number of bytes of the UTF-8 encoding of `s` (`str::len`).
pub fn byte_len(s: &str) -> (n: usize)
    ensures
        n == vstd::utf8::encode_utf8(s@).len() as usize,
{
    s.len()
}

} // verus!

verus! {

/// What `char::is_whitespace` returns for `c` (the Unicode `White_Space` property).
pub uninterp spec fn unicode_whitespace(c: char) -> bool;

/// Calls `char::is_whitespace`.  The contract claims what its documentation
/// states for ASCII: exactly tab, line feed, vertical tab, form feed,
/// carriage return and space are whitespace.
#[verifier::external_body]
pub(crate) fn is_whitespace(c: char) -> (r: bool)
    ensures
        r == unicode_whitespace(c),
        (c as u32) < 0x80 ==> (r <==> (((c as u32) >= 0x09 && (c as u32) <= 0x0d) || c == ' ')),
{
    c.is_whitespace()
}

/// The characters of `s` in a vector.
pub fn chars_of(s: &str) -> (v: Vec<char>)
    ensures
        v@ == s@,
{
    let n = s.unicode_len();
    let mut v: Vec<char> = Vec::new();
    let mut i: usize = 0;
    while i < n
        invariant
            i <= n,
            n == s@.len(),
            v@ == s@.take(i as int),
        decreases n - i,
    {
        v.push(s.get_char(i));
        i += 1;
        assert(v@ =~= s@.take(i as int));
    }
    assert(s@.take(n as int) =~= s@);
    v
}

/// A string of the characters `v[from..to]`.
pub fn string_of(v: &Vec<char>, from: usize, to: usize) -> (s: String)
    requires
        from <= to <= v@.len(),
    ensures
        s@ == v@.subrange(from as int, to as int),
{
    let mut s = String::new();
    let mut i: usize = from;
    while i < to
        invariant
            from <= i <= to,
            to <= v@.len(),
            s@ == v@.subrange(from as int, i as int),
        decreases to - i,
    {
        push_char(&mut s, v[i]);
        i += 1;
        assert(s@ =~= v@.subrange(from as int, i as int));
    }
    s
}

} // verus!

verus! {

/// `p` occurs in `s` at position `i`.
pub open spec fn occurs_at(s: Seq<char>, p: Seq<char>, i: int) -> bool {
    0 <= i && i + p.len() <= s.len() && s.subrange(i, i + p.len()) == p
}

/// `p` occurs somewhere in `s` (`str::contains`).
pub open spec fn seq_contains(s: Seq<char>, p: Seq<char>) -> bool {
    exists|i: int| occurs_at(s, p, i)
}

/// `s` begins with `p` (`str::starts_with`).
pub open spec fn seq_starts_with(s: Seq<char>, p: Seq<char>) -> bool {
    occurs_at(s, p, 0)
}

/// Whether `p` occurs in `s` at position `i`.
pub fn matches_at(s: &str, p: &str, i: usize) -> (r: bool)
    ensures
        r == occurs_at(s@, p@, i as int),
{
    let n = s.unicode_len();
    let m = p.unicode_len();
    if i > n || m > n - i {
        return false;
    }
    let mut k: usize = 0;
    while k < m
        invariant
            k <= m,
            n == s@.len(),
            m == p@.len(),
            i + m <= n,
            forall|j: int| 0 <= j < k ==> s@[i + j] == p@[j],
        decreases m - k,
    {
        if s.get_char(i + k) != p.get_char(k) {
            assert(s@.subrange(i as int, i + m)[k as int] != p@[k as int]);
            return false;
        }
        k += 1;
    }
    assert(s@.subrange(i as int, i + m) =~= p@);
    true
}

/// Whether `p` occurs anywhere in `s`.
pub fn str_contains(s: &str, p: &str) -> (r: bool)
    ensures
        r == seq_contains(s@, p@),
{
    let n = s.unicode_len();
    let m = p.unicode_len();
    if m > n {
        assert forall|i: int| !occurs_at(s@, p@, i) by {}
        return false;
    }
    let last = n - m;
    let mut i: usize = 0;
    while i < last
        invariant
            n == s@.len(),
            m == p@.len(),
            last == n - m,
            i <= last,
            forall|j: int| 0 <= j < i ==> !occurs_at(s@, p@, j),
        decreases last - i,
    {
        if matches_at(s, p, i) {
            return true;
        }
        i += 1;
    }
    if matches_at(s, p, last) {
        return true;
    }
    assert forall|j: int| !occurs_at(s@, p@, j) by {
        if 0 <= j && j < i {
        }
    }
    false
}

/// Whether `s` begins with `p`.
pub fn str_starts_with(s: &str, p: &str) -> (r: bool)
    ensures
        r == seq_starts_with(s@, p@),
{
    matches_at(s, p, 0)
}

/// `c` with ASCII upper-case letters made lower-case.
pub open spec fn ascii_lower(c: char) -> char {
    if 'A' <= c <= 'Z' { ((c as u32) + 32) as char } else { c }
}

/// `c` with ASCII lower-case letters made upper-case.
pub open spec fn ascii_upper(c: char) -> char {
    if 'a' <= c <= 'z' { ((c as u32) - 32) as char } else { c }
}

/// Every character of `s` is ASCII.
pub open spec fn all_ascii(s: Seq<char>) -> bool {
    forall|i: int| 0 <= i < s.len() ==> (#[trigger] s[i] as u32) < 0x80
}

/// What `str::to_lowercase` returns for `s` (the Unicode lower-case mapping).
pub uninterp spec fn unicode_lowercase(s: Seq<char>) -> Seq<char>;

/// What `str::to_uppercase` returns for `s` (the Unicode upper-case mapping).
pub uninterp spec fn unicode_uppercase(s: Seq<char>) -> Seq<char>;

/// Calls `str::to_lowercase`.  The contract claims what its documentation
/// gives for ASCII text: the letters `A`–`Z` become `a`–`z`, every other
/// character stays.  The mapping of other characters is left to the name.
#[verifier::external_body]
pub(crate) fn to_lowercase(s: &str) -> (r: String)
    ensures
        r@ == unicode_lowercase(s@),
        all_ascii(s@) ==> r@ == s@.map_values(|c: char| ascii_lower(c)),
{
    s.to_lowercase()
}

/// Calls `str::to_uppercase`.  The contract claims what its documentation
/// gives for ASCII text: the letters `a`–`z` become `A`–`Z`, every other
/// character stays.  The mapping of other characters is left to the name.
#[verifier::external_body]
pub(crate) fn to_uppercase(s: &str) -> (r: String)
    ensures
        r@ == unicode_uppercase(s@),
        all_ascii(s@) ==> r@ == s@.map_values(|c: char| ascii_upper(c)),
{
    s.to_uppercase()
}

} // verus!

verus! {

/// Calls `String::pop`.  The contract claims what its documentation states:
/// the last character is removed and returned, and an empty string gives
/// `None` and stays empty.
#[verifier::external_body]
pub(crate) fn pop_char(s: &mut String) -> (r: Option<char>)
    ensures
        old(s)@.len() == 0 ==> r is None && final(s)@ == old(s)@,
        old(s)@.len() > 0 ==> r == Some(old(s)@.last()) && final(s)@ == old(s)@.drop_last(),
{
    s.pop()
}

/// The decimal digit for `d` (below ten).
pub open spec fn digit_char(d: nat) -> char {
    if d == 0 { '0' } else if d == 1 { '1' } else if d == 2 { '2' } else if d == 3 { '3' } else if d == 4 { '4' }
    else if d == 5 { '5' } else if d == 6 { '6' } else if d == 7 { '7' } else if d == 8 { '8' } else { '9' }
}

/// The decimal digits of `n`, most significant first, without leading zeros.
pub open spec fn decimal(n: nat) -> Seq<char>
    decreases n,
{
    if n < 10 {
        seq![digit_char(n)]
    } else {
        decimal(n / 10).push(digit_char(n % 10))
    }
}

fn digit(d: u16) -> (c: char)
    requires
        d < 10,
    ensures
        c == digit_char(d as nat),
{
    if d == 0 { '0' } else if d == 1 { '1' } else if d == 2 { '2' } else if d == 3 { '3' } else if d == 4 { '4' }
    else if d == 5 { '5' } else if d == 6 { '6' } else if d == 7 { '7' } else if d == 8 { '8' } else { '9' }
}

/// `n` in decimal (`n.to_string()`).
pub fn u16_to_string(n: u16) -> (s: String)
    ensures
        s@ == decimal(n as nat),
    decreases n,
{
    if n < 10 {
        let mut s = String::new();
        push_char(&mut s, digit(n));
        assert(s@ =~= seq![digit_char(n as nat)]);
        s
    } else {
        let mut s = u16_to_string(n / 10);
        push_char(&mut s, digit(n % 10));
        s
    }
}

/// `s` without its trailing whitespace (`str::trim_end`).
pub open spec fn trim_end_spec(s: Seq<char>) -> Seq<char>
    decreases s.len(),
{
    if s.len() > 0 && unicode_whitespace(s.last()) {
        trim_end_spec(s.drop_last())
    } else {
        s
    }
}

/// `s` without its trailing whitespace.
pub fn trim_end(s: &String) -> (r: String)
    ensures
        r@ == trim_end_spec(s@),
{
    let chars = chars_of(s.as_str());
    let mut n = chars.len();
    assert(chars@.take(n as int) =~= s@);
    while n > 0 && is_whitespace(chars[n - 1])
        invariant
            n <= chars@.len(),
            chars@ == s@,
            trim_end_spec(chars@.take(n as int)) == trim_end_spec(s@),
        decreases n,
    {
        assert(chars@.take(n - 1) =~= chars@.take(n as int).drop_last());
        n -= 1;
    }
    string_of(&chars, 0, n)
}

} // verus!
