use vstd::prelude::*;
use crate::border::style::BorderStyle;
use crate::canvas::canvas::{lemma_unchanged_outside_refl, lemma_unchanged_outside_trans, print_spec, region_set,
    unchanged_outside, Canvas, CanvasModel, SubCanvas};
use crate::canvas::cell::Cell;
use crate::color::types::{BasicColor, Color, StyleFlags};
use crate::demo::screens::{is_screen_panel, lemma_outer_frame_kept, lemma_panel_frames, outer_frame, redrawn,
    screen_drawn, Action, ScreenId};
use crate::event::keys::Key;
use crate::term::caps::TermCaps;
use crate::text::{concat_str, pad_right};
use crate::widget::panel::{Align, Panel};
use crate::widget::traits::Widget;

verus! {

/// The three rows of the true-color page, one color per column: a sweep of
/// hues, of saturation (red, full to grey) and of value (blue, bright to
/// black).
pub struct Gradients {
    pub hue: Vec<(u8, u8, u8)>,
    pub saturation: Vec<(u8, u8, u8)>,
    pub value: Vec<(u8, u8, u8)>,
}

/// A tour of the colors a terminal can show, one page at a time.
pub struct ColorPalette {
    page: u8,
}

impl View for ColorPalette {
    type V = u8;

    /// The page shown (0 basic, 1 the 256-color palette, 2 true color).
    closed spec fn view(&self) -> u8 {
        self.page
    }
}

/// The full block in the color `c` that a gradient row draws.
pub open spec fn gradient_cell(c: (u8, u8, u8)) -> Cell {
    Cell {
        ch: '█',
        fg: Color::TrueColor(c.0, c.1, c.2),
        bg: Color::Default,
        style: StyleFlags { bits: 0 },
        wide_continuation: false,
    }
}

/// The first `n` blocks of a gradient row: block `x` in the color
/// `colors[x]` at local column `x + 2` of `row`.
pub open spec fn gradient_spec(
    m: CanvasModel, oc: int, or: int, w: int, h: int, row: int, colors: Seq<(u8, u8, u8)>, n: int,
) -> CanvasModel
    decreases n,
{
    if n <= 0 {
        m
    } else {
        region_set(gradient_spec(m, oc, or, w, h, row, colors, n - 1), oc, or, w, h, n + 1, row,
            gradient_cell(colors[n - 1]))
    }
}

/// Draws one gradient row: a full block per color, from column 2, for the
/// first `count` colors (or all of them, when there are fewer).
fn gradient_row(canvas: &mut SubCanvas<'_>, row: u16, colors: &Vec<(u8, u8, u8)>, count: u16)
    requires
        old(canvas).wf(),
        old(canvas).width + 2 <= u16::MAX,
        count <= 120,
    ensures
        final(canvas).same_frame(old(canvas)),
        final(canvas).wf(),
        final(canvas).parent@ == gradient_spec(old(canvas).parent@, old(canvas).origin_col as int,
            old(canvas).origin_row as int, old(canvas).width as int, old(canvas).height as int, row as int,
            colors@, if count < colors@.len() { count as int } else { colors@.len() as int }),
        unchanged_outside(old(canvas).parent@, final(canvas).parent@, old(canvas).origin_col as int,
            old(canvas).origin_row as int, old(canvas).width as int, old(canvas).height as int),
        *final(final(canvas).parent) == *final(old(canvas).parent),
{
    let ghost m0 = canvas.parent@;
    let ghost oc = canvas.origin_col as int;
    let ghost or = canvas.origin_row as int;
    let ghost w0 = canvas.width as int;
    let ghost h0 = canvas.height as int;
    proof { lemma_unchanged_outside_refl(m0, oc, or, w0, h0); }
    let mut x: u16 = 0;
    while x < count && (x as usize) < colors.len()
        invariant
            x <= count <= 120,
            canvas.wf(),
            canvas.origin_col == oc,
            canvas.origin_row == or,
            canvas.width == w0,
            canvas.height == h0,
            x <= colors@.len(),
            unchanged_outside(m0, canvas.parent@, oc, or, w0, h0),
            canvas.parent@ == gradient_spec(m0, oc, or, w0, h0, row as int, colors@, x as int),
            *final(canvas.parent) == *final(old(canvas).parent),
        decreases count - x,
    {
        let (r, g, b) = colors[x as usize];
        let ghost m = canvas.parent@;
        assert(gradient_cell(colors@[x as int]) == Cell {
            ch: '█',
            fg: Color::TrueColor(r, g, b),
            bg: Color::Default,
            style: StyleFlags { bits: 0 },
            wide_continuation: false,
        });
        canvas.set(x + 2, row, Cell {
            ch: '█',
            fg: Color::TrueColor(r, g, b),
            bg: Color::Default,
            style: StyleFlags::empty(),
            wide_continuation: false,
        });
        proof { lemma_unchanged_outside_trans(m0, m, canvas.parent@, oc, or, w0, h0); }
        x += 1;
    }
}

/// The smaller of `n` and `len`: how many blocks of a gradient with `len`
/// colors a row `n` blocks wide shows.
pub open spec fn shown(n: int, len: int) -> int {
    if n < len { n } else { len }
}

/// How many blocks wide the gradient rows are on a page `w` columns wide:
/// four columns less than the page, at most 120.
pub open spec fn gradient_width(w: int) -> int {
    let room = if w - 4 < 0 { 0 } else { w - 4 };
    if room < 120 { room } else { 120 }
}

/// The true-color page drawn over `m` in the region at `(oc, or)` of size
/// `w × h`, for a page `page_w` columns wide: a bold heading, then the hue,
/// saturation and value rows, the last two under a dim caption.
pub open spec fn truecolor_page(
    m: CanvasModel, oc: int, or: int, w: int, h: int, page_w: int, g: Gradients,
) -> CanvasModel {
    let n = gradient_width(page_w);
    let m1 = print_spec(m, oc, or, w, h, 0, 2, " True Color 24-bit gradients:"@, Color::Default, Color::Default,
        StyleFlags { bits: 1 });
    let m2 = gradient_spec(m1, oc, or, w, h, 4, g.hue@, shown(n, g.hue@.len() as int));
    let m3 = print_spec(m2, oc, or, w, h, 0, 6, " Saturation (red, full → grey):"@, Color::Default, Color::Default,
        StyleFlags { bits: 2 });
    let m4 = gradient_spec(m3, oc, or, w, h, 7, g.saturation@, shown(n, g.saturation@.len() as int));
    let m5 = print_spec(m4, oc, or, w, h, 0, 9, " Value (blue, bright → black):"@, Color::Default, Color::Default,
        StyleFlags { bits: 2 });
    gradient_spec(m5, oc, or, w, h, 10, g.value@, shown(n, g.value@.len() as int))
}

/// `s` followed by spaces up to `width` characters.
pub open spec fn padded(s: Seq<char>, width: int) -> Seq<char> {
    s + Seq::new(if width > s.len() { (width - s.len()) as nat } else { 0 }, |i: int| ' ')
}

/// The names of the eight basic colors, in palette order.
pub open spec fn color_names() -> Seq<Seq<char>> {
    seq!["Black"@, "Red"@, "Green"@, "Yellow"@, "Blue"@, "Magenta"@, "Cyan"@, "White"@]
}

/// The eight basic colors, in palette order.
pub open spec fn basic_colors() -> Seq<BasicColor> {
    seq![
        BasicColor::Black, BasicColor::Red, BasicColor::Green, BasicColor::Yellow,
        BasicColor::Blue, BasicColor::Magenta, BasicColor::Cyan, BasicColor::White,
    ]
}

/// The names of the style flags shown, plain text first.
pub open spec fn style_names() -> Seq<Seq<char>> {
    seq!["Normal"@, "Bold"@, "Dim"@, "Italic"@, "Underline"@, "Reverse"@, "Strikethrough"@]
}

/// The style flags shown, in the order of their names.
pub open spec fn shown_styles() -> Seq<StyleFlags> {
    seq![
        StyleFlags { bits: 0 }, StyleFlags { bits: 1 }, StyleFlags { bits: 2 }, StyleFlags { bits: 4 },
        StyleFlags { bits: 8 }, StyleFlags { bits: 32 }, StyleFlags { bits: 64 },
    ]
}

/// The first `n` swatches of the foreground rows: color `i`'s name, padded,
/// in its normal shade on row 2 and its bright shade on row 3, from local
/// column `17 + 10i`.
pub open spec fn swatch_rows(m: CanvasModel, oc: int, or: int, w: int, h: int, n: int) -> CanvasModel
    decreases n,
{
    if n <= 0 {
        m
    } else {
        let i = n - 1;
        let block = " "@ + padded(color_names()[i], 8);
        let m1 = print_spec(swatch_rows(m, oc, or, w, h, n - 1), oc, or, w, h, 17 + i * 10, 2, block,
            Color::Basic(basic_colors()[i], false), Color::Default, StyleFlags { bits: 0 });
        print_spec(m1, oc, or, w, h, 17 + i * 10, 3, block, Color::Basic(basic_colors()[i], true), Color::Default,
            StyleFlags { bits: 0 })
    }
}

/// The first `n` swatches of the background row: color `i`'s name, padded,
/// in bright white on that color, on row 5 from local column `14 + 10i`.
pub open spec fn background_row(m: CanvasModel, oc: int, or: int, w: int, h: int, n: int) -> CanvasModel
    decreases n,
{
    if n <= 0 {
        m
    } else {
        let i = n - 1;
        print_spec(background_row(m, oc, or, w, h, n - 1), oc, or, w, h, 14 + i * 10, 5,
            "  "@ + padded(color_names()[i], 8), Color::Basic(BasicColor::White, true),
            Color::Basic(basic_colors()[i], false), StyleFlags { bits: 0 })
    }
}

/// The first `n` samples of the style row: style `i`'s name, padded to 16,
/// in bright cyan with that style, on row 9 from local column `2 + 17i`.
pub open spec fn style_row(m: CanvasModel, oc: int, or: int, w: int, h: int, n: int) -> CanvasModel
    decreases n,
{
    if n <= 0 {
        m
    } else {
        let i = n - 1;
        print_spec(style_row(m, oc, or, w, h, n - 1), oc, or, w, h, 2 + i * 17, 9, padded(style_names()[i], 16),
            Color::Basic(BasicColor::Cyan, true), Color::Default, shown_styles()[i])
    }
}

/// The basic-color page drawn over `m` in the region at `(oc, or)` of size
/// `w × h`: bold captions, the normal and bright swatches, the background
/// swatches and the style samples.
pub open spec fn basic_page(m: CanvasModel, oc: int, or: int, w: int, h: int) -> CanvasModel {
    let bold = StyleFlags { bits: 1 };
    let m1 = print_spec(m, oc, or, w, h, 0, 2, " Normal colors:"@, Color::Default, Color::Default, bold);
    let m2 = print_spec(m1, oc, or, w, h, 0, 3, " Bright colors:"@, Color::Default, Color::Default, bold);
    let m3 = swatch_rows(m2, oc, or, w, h, 8);
    let m4 = print_spec(m3, oc, or, w, h, 0, 5, " Background:"@, Color::Default, Color::Default, bold);
    let m5 = background_row(m4, oc, or, w, h, 8);
    let m6 = print_spec(m5, oc, or, w, h, 0, 8, " Style flags:"@, Color::Default, Color::Default, bold);
    style_row(m6, oc, or, w, h, 7)
}

/// One square of the color cube: the two-column swatch of xterm color
/// `16 + 36r + 6g + b` at local column `14g + 2b` of row `3 + r`.
pub open spec fn cube_square(m: CanvasModel, oc: int, or: int, w: int, h: int, r: int, g: int, b: int) -> CanvasModel {
    let idx = (16 + r * 36 + g * 6 + b) as u8;
    print_spec(m, oc, or, w, h, g * 14 + b * 2, 3 + r, "  "@, Color::Ansi256(idx), Color::Ansi256(idx),
        StyleFlags { bits: 0 })
}

/// The first `nb` squares of the run with red `r` and green `g`.
pub open spec fn cube_run(m: CanvasModel, oc: int, or: int, w: int, h: int, r: int, g: int, nb: int) -> CanvasModel
    decreases nb,
{
    if nb <= 0 {
        m
    } else {
        cube_square(cube_run(m, oc, or, w, h, r, g, nb - 1), oc, or, w, h, r, g, nb - 1)
    }
}

/// The first `ng` runs of cube row `r`, each of six squares.
pub open spec fn cube_row(m: CanvasModel, oc: int, or: int, w: int, h: int, r: int, ng: int) -> CanvasModel
    decreases ng,
{
    if ng <= 0 {
        m
    } else {
        cube_run(cube_row(m, oc, or, w, h, r, ng - 1), oc, or, w, h, r, ng - 1, 6)
    }
}

/// The first `nr` rows of the color cube, each of six runs.
pub open spec fn cube(m: CanvasModel, oc: int, or: int, w: int, h: int, nr: int) -> CanvasModel
    decreases nr,
{
    if nr <= 0 {
        m
    } else {
        cube_row(cube(m, oc, or, w, h, nr - 1), oc, or, w, h, nr - 1, 6)
    }
}

/// The first `nk` swatches of the grayscale ramp: xterm color `232 + k` at
/// local column `2 + 2k` of row 11.
pub open spec fn gray_ramp(m: CanvasModel, oc: int, or: int, w: int, h: int, nk: int) -> CanvasModel
    decreases nk,
{
    if nk <= 0 {
        m
    } else {
        let idx = (232 + nk - 1) as u8;
        print_spec(gray_ramp(m, oc, or, w, h, nk - 1), oc, or, w, h, 2 + (nk - 1) * 2, 11, "  "@,
            Color::Ansi256(idx), Color::Ansi256(idx), StyleFlags { bits: 0 })
    }
}

/// The 256-color page drawn over `m` in the region at `(oc, or)` of size
/// `w × h`: a bold heading, the 6×6×6 cube, a bold heading and the
/// grayscale ramp.
pub open spec fn palette256_page(m: CanvasModel, oc: int, or: int, w: int, h: int) -> CanvasModel {
    let m1 = print_spec(m, oc, or, w, h, 0, 2, " xterm 6×6×6 color cube (indices 16–231):"@, Color::Default,
        Color::Default, StyleFlags { bits: 1 });
    let m2 = cube(m1, oc, or, w, h, 6);
    let m3 = print_spec(m2, oc, or, w, h, 0, 10, " Grayscale ramp (232–255):"@, Color::Default, Color::Default,
        StyleFlags { bits: 1 });
    gray_ramp(m3, oc, or, w, h, 24)
}

/// The title of page `page`.
pub open spec fn palette_title(page: u8) -> Seq<char> {
    if page == 0 {
        " Color Palette — ANSI Basic (page 1/3) "@
    } else if page == 1 {
        " Color Palette — xterm 256-color (page 2/3) "@
    } else {
        " Color Palette — True Color gradient (page 3/3) "@
    }
}

/// The inside `iw × ih` of the palette screen drawn over `m1`: the dim help
/// line, then page `page` (the true-color page with the rows of `g`).
pub open spec fn palette_inner(m1: CanvasModel, iw: int, ih: int, page: u8, g: Gradients) -> CanvasModel {
    palette_page(print_spec(m1, 1, 1, iw, ih, 0, 0, " ← / → change page   Esc: back"@, Color::Default, Color::Default,
        StyleFlags { bits: 2 }), iw, ih, page, g)
}

/// Page `page` drawn over `m` in the inside `iw × ih` at `(1, 1)`.
pub open spec fn palette_page(m: CanvasModel, iw: int, ih: int, page: u8, g: Gradients) -> CanvasModel {
    if page == 0 {
        basic_page(m, 1, 1, iw, ih)
    } else if page == 1 {
        palette256_page(m, 1, 1, iw, ih)
    } else {
        truecolor_page(m, 1, 1, iw, ih, iw, g)
    }
}

impl ColorPalette {
    /// The page is one of the three.
    #[verifier::type_invariant]
    spec fn page_in_range(self) -> bool {
        self.page <= 2
    }

    pub fn new() -> (p: Self)
        ensures
            p@ == 0,
    {
        ColorPalette { page: 0 }
    }

    /// A frame titled with the page, a help line and the page's colors; the
    /// true-color page draws the rows of `gradients`.
    pub fn render(&self, canvas: &mut Canvas, caps: &TermCaps, gradients: &Gradients)
        requires
            old(canvas)@.wf(),
            old(canvas)@.width + 2 <= u16::MAX,
        ensures
            redrawn(old(canvas)@, final(canvas)@),
            outer_frame(final(canvas)@, BorderStyle::Single, caps.unicode, Color::Basic(BasicColor::White, false)),
            old(canvas)@.width >= 2 && old(canvas)@.height >= 2 ==> screen_drawn(caps, old(canvas)@, final(canvas)@,
                palette_title(self@), BorderStyle::Single, Color::Basic(BasicColor::White, false),
                (|m1: CanvasModel, m2: CanvasModel| m2 == palette_inner(m1, old(canvas)@.width - 2,
                    old(canvas)@.height - 2, self@, *gradients))),
    {
        proof { use_type_invariant(self); }
        let w = canvas.width();
        let h = canvas.height();
        let ghost m0 = canvas@;
        let mut root = canvas.sub(0, 0, w, h);

        let title = if self.page == 0 {
            " Color Palette — ANSI Basic (page 1/3) "
        } else if self.page == 1 {
            " Color Palette — xterm 256-color (page 2/3) "
        } else {
            " Color Palette — True Color gradient (page 3/3) "
        };
        let outer = Panel::new()
            .title(title)
            .title_align(Align::Center)
            .border_style(BorderStyle::Single)
            .border_fg(Color::Basic(BasicColor::White, false));
        outer.render(&mut root, caps);
        let ghost m1 = root.parent@;
        proof { lemma_panel_frames(outer, *caps, m1); }

        let inner_w = w.saturating_sub(2);
        let inner_h = h.saturating_sub(2);
        let mut inner = root.sub(1, 1, inner_w, inner_h);
        let ghost iw = inner.width as int;
        let ghost ih = inner.height as int;

        inner.print(0, 0, " ← / → change page   Esc: back", Color::Default, Color::Default, StyleFlags::dim());
        let ghost m2 = inner.parent@;

        if self.page == 0 {
            Self::render_basic(&mut inner);
        } else if self.page == 1 {
            Self::render_256(&mut inner);
        } else {
            Self::render_truecolor(&mut inner, inner_w, gradients);
        }
        proof {
            lemma_unchanged_outside_trans(m1, m2, inner.parent@, 1, 1, iw, ih);
            if w >= 2 && h >= 2 {
                lemma_outer_frame_kept(m1, inner.parent@, BorderStyle::Single, caps.unicode,
                    Color::Basic(BasicColor::White, false));
                assert(is_screen_panel(outer, palette_title(self@), BorderStyle::Single,
                    Color::Basic(BasicColor::White, false)));
                assert(outer.drawn(caps, m0, m1, 0, 0, m0.width, m0.height));
                assert(inner.parent@ == palette_inner(m1, iw, ih, self@, *gradients));
            }
        }
    }

    fn render_basic(canvas: &mut SubCanvas<'_>)
        requires
            old(canvas).wf(),
            old(canvas).width + 2 <= u16::MAX,
        ensures
            final(canvas).same_frame(old(canvas)),
            final(canvas).wf(),
            final(canvas).parent@ == basic_page(old(canvas).parent@, old(canvas).origin_col as int,
                old(canvas).origin_row as int, old(canvas).width as int, old(canvas).height as int),
            unchanged_outside(old(canvas).parent@, final(canvas).parent@, old(canvas).origin_col as int,
                old(canvas).origin_row as int, old(canvas).width as int, old(canvas).height as int),
            *final(final(canvas).parent) == *final(old(canvas).parent),
    {
        let ghost m0 = canvas.parent@;
        let ghost oc = canvas.origin_col as int;
        let ghost or = canvas.origin_row as int;
        let ghost w0 = canvas.width as int;
        let ghost h0 = canvas.height as int;
        proof { lemma_unchanged_outside_refl(m0, oc, or, w0, h0); }
        let labels = ["Black", "Red", "Green", "Yellow", "Blue", "Magenta", "Cyan", "White"];
        let colors = [
            BasicColor::Black, BasicColor::Red, BasicColor::Green, BasicColor::Yellow,
            BasicColor::Blue, BasicColor::Magenta, BasicColor::Cyan, BasicColor::White,
        ];
        assert(forall|j: int| 0 <= j < 8 ==> (#[trigger] labels@[j])@ == color_names()[j]);
        assert(forall|j: int| 0 <= j < 8 ==> #[trigger] colors@[j] == basic_colors()[j]);

        let ghost m = canvas.parent@;
        canvas.print(0, 2, " Normal colors:", Color::Default, Color::Default, StyleFlags::bold());
        proof { lemma_unchanged_outside_trans(m0, m, canvas.parent@, oc, or, w0, h0); }
        let ghost m = canvas.parent@;
        canvas.print(0, 3, " Bright colors:", Color::Default, Color::Default, StyleFlags::bold());
        proof { lemma_unchanged_outside_trans(m0, m, canvas.parent@, oc, or, w0, h0); }
        let ghost m2 = canvas.parent@;

        let mut i: usize = 0;
        while i < 8
            invariant
                i <= 8,
                canvas.wf(),
                canvas.origin_col == oc,
                canvas.origin_row == or,
                canvas.width == w0,
                canvas.height == h0,
                w0 + 2 <= u16::MAX,
                unchanged_outside(m0, canvas.parent@, oc, or, w0, h0),
                canvas.parent@ == swatch_rows(m2, oc, or, w0, h0, i as int),
                forall|j: int| 0 <= j < 8 ==> (#[trigger] labels@[j])@ == color_names()[j],
                forall|j: int| 0 <= j < 8 ==> #[trigger] colors@[j] == basic_colors()[j],
                *final(canvas.parent) == *final(old(canvas).parent),
            decreases 8 - i,
        {
            let col = 17 + i as u16 * 10;
            let block = concat_str(" ", pad_right(labels[i], 8).as_str());
            let ghost m = canvas.parent@;
            canvas.print(col, 2, block.as_str(), Color::Basic(colors[i], false), Color::Default, StyleFlags::empty());
            proof { lemma_unchanged_outside_trans(m0, m, canvas.parent@, oc, or, w0, h0); }
            let ghost m = canvas.parent@;
            canvas.print(col, 3, block.as_str(), Color::Basic(colors[i], true), Color::Default, StyleFlags::empty());
            proof { lemma_unchanged_outside_trans(m0, m, canvas.parent@, oc, or, w0, h0); }
            i += 1;
        }

        // Show with background too
        let ghost m = canvas.parent@;
        canvas.print(0, 5, " Background:", Color::Default, Color::Default, StyleFlags::bold());
        proof { lemma_unchanged_outside_trans(m0, m, canvas.parent@, oc, or, w0, h0); }
        let ghost m4 = canvas.parent@;
        let mut i: usize = 0;
        while i < 8
            invariant
                i <= 8,
                canvas.wf(),
                canvas.origin_col == oc,
                canvas.origin_row == or,
                canvas.width == w0,
                canvas.height == h0,
                w0 + 2 <= u16::MAX,
                unchanged_outside(m0, canvas.parent@, oc, or, w0, h0),
                canvas.parent@ == background_row(m4, oc, or, w0, h0, i as int),
                forall|j: int| 0 <= j < 8 ==> (#[trigger] labels@[j])@ == color_names()[j],
                forall|j: int| 0 <= j < 8 ==> #[trigger] colors@[j] == basic_colors()[j],
                *final(canvas.parent) == *final(old(canvas).parent),
            decreases 8 - i,
        {
            let col = 14 + i as u16 * 10;
            let block = concat_str("  ", pad_right(labels[i], 8).as_str());
            let ghost m = canvas.parent@;
            canvas.print(col, 5, block.as_str(), Color::Basic(BasicColor::White, true), Color::Basic(colors[i], false),
                StyleFlags::empty());
            proof { lemma_unchanged_outside_trans(m0, m, canvas.parent@, oc, or, w0, h0); }
            i += 1;
        }

        // Style flags demo
        let ghost m = canvas.parent@;
        canvas.print(0, 8, " Style flags:", Color::Default, Color::Default, StyleFlags::bold());
        proof { lemma_unchanged_outside_trans(m0, m, canvas.parent@, oc, or, w0, h0); }
        let names = ["Normal", "Bold", "Dim", "Italic", "Underline", "Reverse", "Strikethrough"];
        let flags = [
            StyleFlags::empty(), StyleFlags::bold(), StyleFlags::dim(), StyleFlags::italic(),
            StyleFlags::underline(), StyleFlags::reverse(), StyleFlags::strikethrough(),
        ];
        let ghost m6 = canvas.parent@;
        assert(forall|j: int| 0 <= j < 7 ==> (#[trigger] names@[j])@ == style_names()[j]);
        assert(forall|j: int| 0 <= j < 7 ==> #[trigger] flags@[j] == shown_styles()[j]);
        let mut i: usize = 0;
        while i < 7
            invariant
                i <= 7,
                canvas.wf(),
                canvas.origin_col == oc,
                canvas.origin_row == or,
                canvas.width == w0,
                canvas.height == h0,
                w0 + 2 <= u16::MAX,
                unchanged_outside(m0, canvas.parent@, oc, or, w0, h0),
                canvas.parent@ == style_row(m6, oc, or, w0, h0, i as int),
                forall|j: int| 0 <= j < 7 ==> (#[trigger] names@[j])@ == style_names()[j],
                forall|j: int| 0 <= j < 7 ==> #[trigger] flags@[j] == shown_styles()[j],
                *final(canvas.parent) == *final(old(canvas).parent),
            decreases 7 - i,
        {
            let text = pad_right(names[i], 16);
            let ghost m = canvas.parent@;
            canvas.print(2 + i as u16 * 17, 9, text.as_str(), Color::Basic(BasicColor::Cyan, true), Color::Default,
                flags[i]);
            proof { lemma_unchanged_outside_trans(m0, m, canvas.parent@, oc, or, w0, h0); }
            i += 1;
        }
    }

    fn render_256(canvas: &mut SubCanvas<'_>)
        requires
            old(canvas).wf(),
            old(canvas).width + 2 <= u16::MAX,
        ensures
            final(canvas).same_frame(old(canvas)),
            final(canvas).wf(),
            final(canvas).parent@ == palette256_page(old(canvas).parent@, old(canvas).origin_col as int,
                old(canvas).origin_row as int, old(canvas).width as int, old(canvas).height as int),
            unchanged_outside(old(canvas).parent@, final(canvas).parent@, old(canvas).origin_col as int,
                old(canvas).origin_row as int, old(canvas).width as int, old(canvas).height as int),
            *final(final(canvas).parent) == *final(old(canvas).parent),
    {
        let ghost m0 = canvas.parent@;
        let ghost oc = canvas.origin_col as int;
        let ghost or = canvas.origin_row as int;
        let ghost w0 = canvas.width as int;
        let ghost h0 = canvas.height as int;
        proof { lemma_unchanged_outside_refl(m0, oc, or, w0, h0); }
        // Draw the 6×6×6 color cube (indices 16–231) as a grid.
        let ghost m = canvas.parent@;
        canvas.print(0, 2, " xterm 6×6×6 color cube (indices 16–231):", Color::Default, Color::Default,
            StyleFlags::bold());
        proof { lemma_unchanged_outside_trans(m0, m, canvas.parent@, oc, or, w0, h0); }
        let ghost m1 = canvas.parent@;

        let block = "  ";
        let mut row: u16 = 3;
        let mut r: u8 = 0;
        while r < 6
            invariant
                r <= 6,
                row == 3 + r,
                canvas.wf(),
                canvas.origin_col == oc,
                canvas.origin_row == or,
                canvas.width == w0,
                canvas.height == h0,
                w0 + 2 <= u16::MAX,
                unchanged_outside(m0, canvas.parent@, oc, or, w0, h0),
                canvas.parent@ == cube(m1, oc, or, w0, h0, r as int),
                block@ == "  "@,
                *final(canvas.parent) == *final(old(canvas).parent),
            decreases 6 - r,
        {
            let mut g: u8 = 0;
            while g < 6
                invariant
                    g <= 6,
                    r < 6,
                    row == 3 + r,
                    canvas.wf(),
                    canvas.origin_col == oc,
                    canvas.origin_row == or,
                    canvas.width == w0,
                    canvas.height == h0,
                    w0 + 2 <= u16::MAX,
                    unchanged_outside(m0, canvas.parent@, oc, or, w0, h0),
                    canvas.parent@ == cube_row(cube(m1, oc, or, w0, h0, r as int), oc, or, w0, h0, r as int, g as int),
                    block@ == "  "@,
                    *final(canvas.parent) == *final(old(canvas).parent),
                decreases 6 - g,
            {
                let col_start = g as u16 * 14;
                let mut b: u8 = 0;
                while b < 6
                    invariant
                        b <= 6,
                        g < 6,
                        r < 6,
                        row == 3 + r,
                        col_start == g * 14,
                        canvas.wf(),
                        canvas.origin_col == oc,
                        canvas.origin_row == or,
                        canvas.width == w0,
                        canvas.height == h0,
                        w0 + 2 <= u16::MAX,
                        unchanged_outside(m0, canvas.parent@, oc, or, w0, h0),
                        canvas.parent@ == cube_run(cube_row(cube(m1, oc, or, w0, h0, r as int), oc, or, w0, h0,
                            r as int, g as int), oc, or, w0, h0, r as int, g as int, b as int),
                        block@ == "  "@,
                        *final(canvas.parent) == *final(old(canvas).parent),
                    decreases 6 - b,
                {
                    let idx = 16 + r * 36 + g * 6 + b;
                    let ghost m = canvas.parent@;
                    canvas.print(col_start + b as u16 * 2, row, block, Color::Ansi256(idx), Color::Ansi256(idx),
                        StyleFlags::empty());
                    proof { lemma_unchanged_outside_trans(m0, m, canvas.parent@, oc, or, w0, h0); }
                    b += 1;
                }
                g += 1;
            }
            row += 1;
            r += 1;
        }

        // Grayscale ramp (232–255)
        row += 1;
        let ghost m = canvas.parent@;
        canvas.print(0, row, " Grayscale ramp (232–255):", Color::Default, Color::Default, StyleFlags::bold());
        proof { lemma_unchanged_outside_trans(m0, m, canvas.parent@, oc, or, w0, h0); }
        let ghost m3 = canvas.parent@;
        row += 1;
        let mut k: u8 = 0;
        while k < 24
            invariant
                k <= 24,
                row == 11,
                canvas.wf(),
                canvas.origin_col == oc,
                canvas.origin_row == or,
                canvas.width == w0,
                canvas.height == h0,
                w0 + 2 <= u16::MAX,
                unchanged_outside(m0, canvas.parent@, oc, or, w0, h0),
                canvas.parent@ == gray_ramp(m3, oc, or, w0, h0, k as int),
                block@ == "  "@,
                *final(canvas.parent) == *final(old(canvas).parent),
            decreases 24 - k,
        {
            let idx = 232 + k;
            let ghost m = canvas.parent@;
            canvas.print(2 + k as u16 * 2, row, block, Color::Ansi256(idx), Color::Ansi256(idx), StyleFlags::empty());
            proof { lemma_unchanged_outside_trans(m0, m, canvas.parent@, oc, or, w0, h0); }
            k += 1;
        }
    }

    fn render_truecolor(canvas: &mut SubCanvas<'_>, w: u16, gradients: &Gradients)
        requires
            old(canvas).wf(),
            old(canvas).width + 2 <= u16::MAX,
        ensures
            final(canvas).same_frame(old(canvas)),
            final(canvas).wf(),
            final(canvas).parent@ == truecolor_page(old(canvas).parent@, old(canvas).origin_col as int,
                old(canvas).origin_row as int, old(canvas).width as int, old(canvas).height as int, w as int,
                *gradients),
            unchanged_outside(old(canvas).parent@, final(canvas).parent@, old(canvas).origin_col as int,
                old(canvas).origin_row as int, old(canvas).width as int, old(canvas).height as int),
            *final(final(canvas).parent) == *final(old(canvas).parent),
    {
        let ghost m0 = canvas.parent@;
        let ghost oc = canvas.origin_col as int;
        let ghost or = canvas.origin_row as int;
        let ghost w0 = canvas.width as int;
        let ghost h0 = canvas.height as int;
        proof { lemma_unchanged_outside_refl(m0, oc, or, w0, h0); }
        let ghost m = canvas.parent@;
        canvas.print(0, 2, " True Color 24-bit gradients:", Color::Default, Color::Default, StyleFlags::bold());
        proof { lemma_unchanged_outside_trans(m0, m, canvas.parent@, oc, or, w0, h0); }

        // Horizontal hue sweep
        let room = w.saturating_sub(4);
        let grad_w = if room < 120 { room } else { 120 };
        let ghost m = canvas.parent@;
        gradient_row(canvas, 4, &gradients.hue, grad_w);
        proof { lemma_unchanged_outside_trans(m0, m, canvas.parent@, oc, or, w0, h0); }

        // Saturation gradient
        let ghost m = canvas.parent@;
        canvas.print(0, 6, " Saturation (red, full → grey):", Color::Default, Color::Default, StyleFlags::dim());
        proof { lemma_unchanged_outside_trans(m0, m, canvas.parent@, oc, or, w0, h0); }
        let ghost m = canvas.parent@;
        gradient_row(canvas, 7, &gradients.saturation, grad_w);
        proof { lemma_unchanged_outside_trans(m0, m, canvas.parent@, oc, or, w0, h0); }

        // Value gradient
        let ghost m = canvas.parent@;
        canvas.print(0, 9, " Value (blue, bright → black):", Color::Default, Color::Default, StyleFlags::dim());
        proof { lemma_unchanged_outside_trans(m0, m, canvas.parent@, oc, or, w0, h0); }
        let ghost m = canvas.parent@;
        gradient_row(canvas, 10, &gradients.value, grad_w);
        proof { lemma_unchanged_outside_trans(m0, m, canvas.parent@, oc, or, w0, h0); }
    }

    /// `Esc` / `q` go back; Left/Right turn the page, stopping at the first
    /// and the last.
    pub fn handle_key(&mut self, key: Key) -> (a: Action)
        ensures
            a == (if key == Key::Escape || key == Key::Char('q') { Action::GoTo(ScreenId::MainMenu) } else { Action::Continue }),
            final(self)@ == (if key == Key::Left {
                if old(self)@ > 0 { (old(self)@ - 1) as u8 } else { 0 }
            } else if key == Key::Right {
                if old(self)@ < 2 { (old(self)@ + 1) as u8 } else { 2 }
            } else {
                old(self)@
            }),
    {
        proof { use_type_invariant(&*self); }
        match key {
            Key::Escape => Action::GoTo(ScreenId::MainMenu),
            Key::Char(c) => {
                if c == 'q' {
                    Action::GoTo(ScreenId::MainMenu)
                } else {
                    Action::Continue
                }
            },
            Key::Left => {
                self.page = self.page.saturating_sub(1);
                Action::Continue
            },
            Key::Right => {
                let next = self.page + 1;
                self.page = if next < 2 { next } else { 2 };
                Action::Continue
            },
            _ => Action::Continue,
        }
    }
}

} // verus!
