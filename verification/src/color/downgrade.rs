use vstd::prelude::*;
use crate::color::types::{basic_from_index, basic_index, BasicColor, Color};
use crate::term::caps::{level_rank, ColorLevel};

verus! {

// ---------------------------------------------------------------------------
// The xterm 256-color palette.  Indices 0–15 are the system colors (xterm
// defaults), 16–231 the 6×6×6 color cube, 232–255 the grayscale ramp.
// ---------------------------------------------------------------------------

/// The xterm default RGB of system color `i` (0–15).
pub open spec fn system_rgb(i: int) -> (u8, u8, u8) {
    if i == 0 { (0, 0, 0) }
    else if i == 1 { (128, 0, 0) }
    else if i == 2 { (0, 128, 0) }
    else if i == 3 { (128, 128, 0) }
    else if i == 4 { (0, 0, 128) }
    else if i == 5 { (128, 0, 128) }
    else if i == 6 { (0, 128, 128) }
    else if i == 7 { (192, 192, 192) }
    else if i == 8 { (128, 128, 128) }
    else if i == 9 { (255, 0, 0) }
    else if i == 10 { (0, 255, 0) }
    else if i == 11 { (255, 255, 0) }
    else if i == 12 { (0, 0, 255) }
    else if i == 13 { (255, 0, 255) }
    else if i == 14 { (0, 255, 255) }
    else { (255, 255, 255) }
}

/// Channel intensity of step `k` (0–5) of the color cube.
pub open spec fn cube_level(k: int) -> u8 {
    if k == 0 { 0 }
    else if k == 1 { 95 }
    else if k == 2 { 135 }
    else if k == 3 { 175 }
    else if k == 4 { 215 }
    else { 255 }
}

/// RGB of entry `i` of the 256-color palette.
pub open spec fn palette_rgb(i: int) -> (u8, u8, u8) {
    if i < 16 {
        system_rgb(i)
    } else if i < 232 {
        let j = i - 16;
        (cube_level(j / 36), cube_level((j / 6) % 6), cube_level(j % 6))
    } else {
        let v = (8 + (i - 232) * 10) as u8;
        (v, v, v)
    }
}

/// RGB of basic color `i` (0–7): the first eight system colors.
pub open spec fn basic_rgb(i: int) -> (u8, u8, u8) {
    system_rgb(i)
}

/// Squared euclidean distance between `(r, g, b)` and `c` in RGB space.
pub open spec fn color_dist(r: u8, g: u8, b: u8, c: (u8, u8, u8)) -> int {
    (r - c.0) * (r - c.0) + (g - c.1) * (g - c.1) + (b - c.2) * (b - c.2)
}

/// `k` is the first basic color (in SGR order) at least as close to `(r, g, b)`
/// as every other basic color.
pub open spec fn is_nearest_basic(r: u8, g: u8, b: u8, k: int) -> bool {
    &&& 0 <= k < 8
    &&& forall|j: int| 0 <= j < 8 ==> color_dist(r, g, b, basic_rgb(k)) <= color_dist(r, g, b, #[trigger] basic_rgb(j))
    &&& forall|j: int| 0 <= j < k ==> color_dist(r, g, b, basic_rgb(k)) < color_dist(r, g, b, #[trigger] basic_rgb(j))
}

/// `k` is the first index of the 6×6×6 cube and grayscale ramp (16–255) at
/// least as close to `(r, g, b)` as every other entry there.
pub open spec fn is_nearest_ansi256(r: u8, g: u8, b: u8, k: int) -> bool {
    &&& 16 <= k < 256
    &&& forall|j: int| 16 <= j < 256 ==> color_dist(r, g, b, palette_rgb(k)) <= color_dist(r, g, b, #[trigger] palette_rgb(j))
    &&& forall|j: int| 16 <= j < k ==> color_dist(r, g, b, palette_rgb(k)) < color_dist(r, g, b, #[trigger] palette_rgb(j))
}

/// The basic color nearest to `(r, g, b)`, ties going to the lower SGR number.
pub open spec fn nearest_basic_spec(r: u8, g: u8, b: u8) -> BasicColor {
    basic_from_index(choose|k: int| is_nearest_basic(r, g, b, k))
}

/// The cube or grayscale index nearest to `(r, g, b)`, ties going to the
/// lower index.
pub open spec fn nearest_ansi256_spec(r: u8, g: u8, b: u8) -> u8 {
    (choose|k: int| is_nearest_ansi256(r, g, b, k)) as u8
}

/// What `Color::downgrade` gives for `c` on a terminal of `level`.
pub open spec fn downgrade_spec(c: Color, level: ColorLevel) -> Color {
    match (c, level) {
        (Color::Default, _) => Color::Default,
        (Color::Basic(_, _), ColorLevel::NoColor) => Color::Default,
        (Color::Basic(x, y), _) => Color::Basic(x, y),
        (Color::Ansi256(i), ColorLevel::Vt100Basic) => {
            let p = palette_rgb(i as int);
            Color::Basic(nearest_basic_spec(p.0, p.1, p.2), false)
        },
        (Color::Ansi256(_), ColorLevel::NoColor) => Color::Default,
        (Color::Ansi256(i), _) => Color::Ansi256(i),
        (Color::TrueColor(r, g, b), ColorLevel::TrueColor) => Color::TrueColor(r, g, b),
        (Color::TrueColor(r, g, b), ColorLevel::Ansi256) => Color::Ansi256(nearest_ansi256_spec(r, g, b)),
        (Color::TrueColor(r, g, b), ColorLevel::Vt100Basic) => Color::Basic(nearest_basic_spec(r, g, b), false),
        (Color::TrueColor(_, _, _), ColorLevel::NoColor) => Color::Default,
    }
}

/// A terminal of `level` can display `c` as it is.
pub open spec fn displayable(c: Color, level: ColorLevel) -> bool {
    match level {
        ColorLevel::NoColor => c is Default,
        ColorLevel::Vt100Basic => c is Default || c is Basic,
        ColorLevel::Ansi256 => !(c is TrueColor),
        ColorLevel::TrueColor => true,
    }
}

proof fn lemma_nearest_basic_unique(r: u8, g: u8, b: u8, k1: int, k2: int)
    requires
        is_nearest_basic(r, g, b, k1),
        is_nearest_basic(r, g, b, k2),
    ensures
        k1 == k2,
{
    if k1 < k2 {
        assert(color_dist(r, g, b, basic_rgb(k2)) < color_dist(r, g, b, basic_rgb(k1)));
    } else if k2 < k1 {
        assert(color_dist(r, g, b, basic_rgb(k1)) < color_dist(r, g, b, basic_rgb(k2)));
    }
}

proof fn lemma_nearest_ansi256_unique(r: u8, g: u8, b: u8, k1: int, k2: int)
    requires
        is_nearest_ansi256(r, g, b, k1),
        is_nearest_ansi256(r, g, b, k2),
    ensures
        k1 == k2,
{
    if k1 < k2 {
        assert(color_dist(r, g, b, palette_rgb(k2)) < color_dist(r, g, b, palette_rgb(k1)));
    } else if k2 < k1 {
        assert(color_dist(r, g, b, palette_rgb(k1)) < color_dist(r, g, b, palette_rgb(k2)));
    }
}

fn system_color(i: usize) -> (c: (u8, u8, u8))
    requires
        i < 16,
    ensures
        c == system_rgb(i as int),
{
    match i {
        0 => (0, 0, 0),
        1 => (128, 0, 0),
        2 => (0, 128, 0),
        3 => (128, 128, 0),
        4 => (0, 0, 128),
        5 => (128, 0, 128),
        6 => (0, 128, 128),
        7 => (192, 192, 192),
        8 => (128, 128, 128),
        9 => (255, 0, 0),
        10 => (0, 255, 0),
        11 => (255, 255, 0),
        12 => (0, 0, 255),
        13 => (255, 0, 255),
        14 => (0, 255, 255),
        _ => (255, 255, 255),
    }
}

fn cube_step(k: usize) -> (v: u8)
    requires
        k < 6,
    ensures
        v == cube_level(k as int),
{
    match k {
        0 => 0,
        1 => 95,
        2 => 135,
        3 => 175,
        4 => 215,
        _ => 255,
    }
}

proof fn lemma_cube_index(r: int, g: int, b: int)
    requires
        0 <= r < 6,
        0 <= g < 6,
        0 <= b < 6,
    ensures
        (r * 36 + g * 6 + b) / 36 == r,
        ((r * 36 + g * 6 + b) / 6) % 6 == g,
        (r * 36 + g * 6 + b) % 6 == b,
{
    assert((r * 36 + g * 6 + b) / 36 == r) by (nonlinear_arith)
        requires 0 <= r < 6, 0 <= g < 6, 0 <= b < 6;
    assert((r * 36 + g * 6 + b) / 6 == r * 6 + g) by (nonlinear_arith)
        requires 0 <= r < 6, 0 <= g < 6, 0 <= b < 6;
    assert((r * 6 + g) % 6 == g) by (nonlinear_arith)
        requires 0 <= r < 6, 0 <= g < 6;
    assert((r * 36 + g * 6 + b) % 6 == b) by (nonlinear_arith)
        requires 0 <= r < 6, 0 <= g < 6, 0 <= b < 6;
}

/// Build the 256-entry xterm palette as `(R, G, B)` tuples.
pub fn build_palette() -> (p: Vec<(u8, u8, u8)>)
    ensures
        p@.len() == 256,
        forall|i: int| 0 <= i < 256 ==> #[trigger] p@[i] == palette_rgb(i),
{
    let mut p: Vec<(u8, u8, u8)> = Vec::new();
    // System colors (0–15) — standard xterm defaults.
    let mut i: usize = 0;
    while i < 16
        invariant
            i <= 16,
            p@.len() == i,
            forall|k: int| 0 <= k < i ==> #[trigger] p@[k] == palette_rgb(k),
        decreases 16 - i,
    {
        p.push(system_color(i));
        i += 1;
    }
    // 6×6×6 color cube (16–231).
    let mut r: usize = 0;
    while r < 6
        invariant
            r <= 6,
            p@.len() == 16 + r * 36,
            forall|k: int| 0 <= k < p@.len() ==> #[trigger] p@[k] == palette_rgb(k),
        decreases 6 - r,
    {
        let mut g: usize = 0;
        while g < 6
            invariant
                r < 6,
                g <= 6,
                p@.len() == 16 + r * 36 + g * 6,
                forall|k: int| 0 <= k < p@.len() ==> #[trigger] p@[k] == palette_rgb(k),
            decreases 6 - g,
        {
            let mut b: usize = 0;
            while b < 6
                invariant
                    r < 6,
                    g < 6,
                    b <= 6,
                    p@.len() == 16 + r * 36 + g * 6 + b,
                    forall|k: int| 0 <= k < p@.len() ==> #[trigger] p@[k] == palette_rgb(k),
                decreases 6 - b,
            {
                proof {
                    lemma_cube_index(r as int, g as int, b as int);
                }
                let c = (cube_step(r), cube_step(g), cube_step(b));
                p.push(c);
                b += 1;
            }
            g += 1;
        }
        r += 1;
    }
    // Grayscale ramp (232–255): 8 → 238 in steps of 10.
    let mut k: usize = 0;
    while k < 24
        invariant
            k <= 24,
            p@.len() == 232 + k,
            forall|j: int| 0 <= j < p@.len() ==> #[trigger] p@[j] == palette_rgb(j),
        decreases 24 - k,
    {
        let v: u8 = 8 + (k as u8) * 10;
        p.push((v, v, v));
        k += 1;
    }
    p
}

fn distance(r: u8, g: u8, b: u8, c: (u8, u8, u8)) -> (d: u32)
    ensures
        d == color_dist(r, g, b, c),
        d <= 195075,
{
    let dr: i32 = r as i32 - c.0 as i32;
    let dg: i32 = g as i32 - c.1 as i32;
    let db: i32 = b as i32 - c.2 as i32;
    assert(0 <= dr * dr <= 65025) by (nonlinear_arith)
        requires -255 <= dr <= 255;
    assert(0 <= dg * dg <= 65025) by (nonlinear_arith)
        requires -255 <= dg <= 255;
    assert(0 <= db * db <= 65025) by (nonlinear_arith)
        requires -255 <= db <= 255;
    (dr * dr + dg * dg + db * db) as u32
}

fn basic_color_at(i: usize) -> (c: BasicColor)
    requires
        i < 8,
    ensures
        c == basic_from_index(i as int),
        basic_index(c) == i,
{
    match i {
        0 => BasicColor::Black,
        1 => BasicColor::Red,
        2 => BasicColor::Green,
        3 => BasicColor::Yellow,
        4 => BasicColor::Blue,
        5 => BasicColor::Magenta,
        6 => BasicColor::Cyan,
        _ => BasicColor::White,
    }
}

/// The basic color nearest to `(r, g, b)` by squared RGB distance; ties go
/// to the lower SGR number.
pub fn nearest_basic(r: u8, g: u8, b: u8) -> (c: BasicColor)
    ensures
        is_nearest_basic(r, g, b, basic_index(c)),
        c == nearest_basic_spec(r, g, b),
{
    let mut best_idx: usize = 0;
    let mut best_dist: u32 = u32::MAX;
    let mut i: usize = 0;
    while i < 8
        invariant
            i <= 8,
            best_idx < 8,
            i == 0 ==> best_dist == u32::MAX,
            i > 0 ==> best_idx < i && best_dist == color_dist(r, g, b, basic_rgb(best_idx as int)),
            forall|j: int| 0 <= j < i ==> best_dist <= color_dist(r, g, b, #[trigger] basic_rgb(j)),
            forall|j: int| 0 <= j < best_idx ==> best_dist < color_dist(r, g, b, #[trigger] basic_rgb(j)),
        decreases 8 - i,
    {
        let d = distance(r, g, b, system_color(i));
        if d < best_dist {
            best_dist = d;
            best_idx = i;
        }
        i += 1;
    }
    let c = basic_color_at(best_idx);
    proof {
        assert(is_nearest_basic(r, g, b, best_idx as int));
        let k = choose|k: int| is_nearest_basic(r, g, b, k);
        lemma_nearest_basic_unique(r, g, b, k, best_idx as int);
    }
    c
}

/// The index of the 6×6×6 cube or grayscale ramp (16–255) nearest to
/// `(r, g, b)` by squared RGB distance; ties go to the lower index.
pub fn nearest_ansi256(r: u8, g: u8, b: u8) -> (idx: u8)
    ensures
        is_nearest_ansi256(r, g, b, idx as int),
        idx == nearest_ansi256_spec(r, g, b),
{
    let palette = build_palette();
    let mut best_idx: usize = 16;
    let mut best_dist: u32 = u32::MAX;
    let mut i: usize = 16;
    while i < 256
        invariant
            16 <= i <= 256,
            16 <= best_idx < 256,
            palette@.len() == 256,
            forall|k: int| 0 <= k < 256 ==> #[trigger] palette@[k] == palette_rgb(k),
            i == 16 ==> best_dist == u32::MAX && best_idx == 16,
            i > 16 ==> best_idx < i && best_dist == color_dist(r, g, b, palette_rgb(best_idx as int)),
            forall|j: int| 16 <= j < i ==> best_dist <= color_dist(r, g, b, #[trigger] palette_rgb(j)),
            forall|j: int| 16 <= j < best_idx ==> best_dist < color_dist(r, g, b, #[trigger] palette_rgb(j)),
        decreases 256 - i,
    {
        let d = distance(r, g, b, palette[i]);
        if d < best_dist {
            best_dist = d;
            best_idx = i;
        }
        i += 1;
    }
    proof {
        assert(is_nearest_ansi256(r, g, b, best_idx as int));
        let k = choose|k: int| is_nearest_ansi256(r, g, b, k);
        lemma_nearest_ansi256_unique(r, g, b, k, best_idx as int);
    }
    best_idx as u8
}

impl Color {
    /// Reduce this color so it is within the capabilities of `level`.
    /// Gracefully degrades: TrueColor → Ansi256 → Vt100Basic → Default.
    pub fn downgrade(self, level: ColorLevel) -> (c: Color)
        ensures
            c == downgrade_spec(self, level),
            displayable(c, level),
    {
        match (self, level) {
            (Color::Default, _) => Color::Default,
            (Color::Basic(_, _), ColorLevel::NoColor) => Color::Default,
            (Color::Basic(c, b), _) => Color::Basic(c, b),
            (Color::Ansi256(i), ColorLevel::Vt100Basic) => {
                let palette = build_palette();
                let (r, g, b) = palette[i as usize];
                Color::Basic(nearest_basic(r, g, b), false)
            },
            (Color::Ansi256(_), ColorLevel::NoColor) => Color::Default,
            (Color::Ansi256(i), _) => Color::Ansi256(i),
            (Color::TrueColor(r, g, b), ColorLevel::TrueColor) => Color::TrueColor(r, g, b),
            (Color::TrueColor(r, g, b), ColorLevel::Ansi256) => Color::Ansi256(nearest_ansi256(r, g, b)),
            (Color::TrueColor(r, g, b), ColorLevel::Vt100Basic) => Color::Basic(nearest_basic(r, g, b), false),
            (Color::TrueColor(_, _, _), ColorLevel::NoColor) => Color::Default,
        }
    }
}

/// A downgraded color is always displayable on the level it was downgraded for.
pub proof fn lemma_downgrade_displayable(c: Color, level: ColorLevel)
    ensures
        displayable(downgrade_spec(c, level), level),
{
}

/// Downgrading leaves a color unchanged when the terminal can already display it.
pub proof fn lemma_downgrade_keeps_displayable(c: Color, level: ColorLevel)
    requires
        displayable(c, level),
    ensures
        downgrade_spec(c, level) == c,
{
}

/// Downgrading twice for the same level is the same as downgrading once.
pub proof fn lemma_downgrade_idempotent(c: Color, level: ColorLevel)
    ensures
        downgrade_spec(downgrade_spec(c, level), level) == downgrade_spec(c, level),
{
    lemma_downgrade_displayable(c, level);
    lemma_downgrade_keeps_displayable(downgrade_spec(c, level), level);
}

/// Among the first `n` basic colors, the first one nearest to `(r, g, b)`.
proof fn lemma_best_basic(r: u8, g: u8, b: u8, n: int) -> (k: int)
    requires
        1 <= n <= 8,
    ensures
        0 <= k < n,
        forall|j: int| 0 <= j < n ==> color_dist(r, g, b, basic_rgb(k)) <= color_dist(r, g, b, #[trigger] basic_rgb(j)),
        forall|j: int| 0 <= j < k ==> color_dist(r, g, b, basic_rgb(k)) < color_dist(r, g, b, #[trigger] basic_rgb(j)),
    decreases n,
{
    if n == 1 {
        0
    } else {
        let k0 = lemma_best_basic(r, g, b, n - 1);
        if color_dist(r, g, b, basic_rgb(n - 1)) < color_dist(r, g, b, basic_rgb(k0)) {
            n - 1
        } else {
            k0
        }
    }
}

/// Among the cube and grayscale entries `16 .. n`, the first one nearest
/// to `(r, g, b)`.
proof fn lemma_best_ansi256(r: u8, g: u8, b: u8, n: int) -> (k: int)
    requires
        17 <= n <= 256,
    ensures
        16 <= k < n,
        forall|j: int| 16 <= j < n ==> color_dist(r, g, b, palette_rgb(k)) <= color_dist(r, g, b, #[trigger] palette_rgb(j)),
        forall|j: int| 16 <= j < k ==> color_dist(r, g, b, palette_rgb(k)) < color_dist(r, g, b, #[trigger] palette_rgb(j)),
    decreases n,
{
    if n == 17 {
        16
    } else {
        let k0 = lemma_best_ansi256(r, g, b, n - 1);
        if color_dist(r, g, b, palette_rgb(n - 1)) < color_dist(r, g, b, palette_rgb(k0)) {
            n - 1
        } else {
            k0
        }
    }
}

/// `nearest_basic_spec` is the nearest basic color.
proof fn lemma_nearest_basic_spec(r: u8, g: u8, b: u8)
    ensures
        is_nearest_basic(r, g, b, basic_index(nearest_basic_spec(r, g, b))),
{
    let k0 = lemma_best_basic(r, g, b, 8);
    assert(is_nearest_basic(r, g, b, k0));
    let k = choose|k: int| is_nearest_basic(r, g, b, k);
    assert(basic_index(basic_from_index(k)) == k);
}

/// `nearest_ansi256_spec` is the nearest cube or grayscale entry.
proof fn lemma_nearest_ansi256_spec(r: u8, g: u8, b: u8)
    ensures
        is_nearest_ansi256(r, g, b, nearest_ansi256_spec(r, g, b) as int),
{
    let k0 = lemma_best_ansi256(r, g, b, 256);
    assert(is_nearest_ansi256(r, g, b, k0));
}

/// For a basic terminal, a true color becomes the basic color nearest to it
/// (not bright).
pub proof fn lemma_downgrade_true_color_basic(r: u8, g: u8, b: u8)
    ensures
        (downgrade_spec(Color::TrueColor(r, g, b), ColorLevel::Vt100Basic) matches Color::Basic(k, bright)
            && !bright && is_nearest_basic(r, g, b, basic_index(k))),
{
    lemma_nearest_basic_spec(r, g, b);
}

/// For a 256-color terminal, a true color becomes the cube or grayscale
/// entry nearest to it.
pub proof fn lemma_downgrade_true_color_ansi256(r: u8, g: u8, b: u8)
    ensures
        (downgrade_spec(Color::TrueColor(r, g, b), ColorLevel::Ansi256) matches Color::Ansi256(i)
            && is_nearest_ansi256(r, g, b, i as int)),
{
    lemma_nearest_ansi256_spec(r, g, b);
}

/// For a basic terminal, a palette color becomes the basic color nearest to
/// its RGB value (not bright).
pub proof fn lemma_downgrade_ansi256_basic(i: u8)
    ensures
        (downgrade_spec(Color::Ansi256(i), ColorLevel::Vt100Basic) matches Color::Basic(k, bright)
            && !bright && is_nearest_basic(palette_rgb(i as int).0, palette_rgb(i as int).1, palette_rgb(i as int).2,
            basic_index(k))),
{
    let p = palette_rgb(i as int);
    lemma_nearest_basic_spec(p.0, p.1, p.2);
}

/// What downgrading keeps: every color becomes the default color on a
/// terminal without color; the default color stays; a basic color stays on
/// any terminal with color, a palette color on a 256-color or true-color
/// terminal, and a true color on a true-color terminal.
pub proof fn lemma_downgrade_keeps(c: Color, level: ColorLevel)
    ensures
        level == ColorLevel::NoColor ==> downgrade_spec(c, level) == Color::Default,
        c is Default ==> downgrade_spec(c, level) == Color::Default,
        c is Basic && level != ColorLevel::NoColor ==> downgrade_spec(c, level) == c,
        c is Ansi256 && level_rank(level) >= 2 ==> downgrade_spec(c, level) == c,
        c is TrueColor && level == ColorLevel::TrueColor ==> downgrade_spec(c, level) == c,
{
}

} // verus!
