//! Data types that describe a screen layout in a serializable form.
//!
//! These types mirror the live widget/layout types but are pure data —
//! no `Box<dyn Widget>`, no borrowed canvases.  They can be cheaply cloned,
//! diffed, stored, and transmitted.

use vstd::prelude::*;
use crate::border::style::BorderStyle;
use crate::color::types::{BasicColor, Color, StyleFlags};
use crate::layout::resolve::Edge;
use crate::widget::panel::Align;
use crate::widget::textblock::WrapMode;

verus! {

// ---------------------------------------------------------------------------
// Color definition
// ---------------------------------------------------------------------------

/// Serializable color value.
#[derive(Debug, Clone, Copy, PartialEq, Eq, Structural)]
pub enum ColorDef {
    Default,
    Basic { color: BasicColorName, bright: bool },
    Ansi256 { index: u8 },
    TrueColor { r: u8, g: u8, b: u8 },
}

/// The live color a definition stands for.
pub open spec fn color_of_def(d: ColorDef) -> Color {
    match d {
        ColorDef::Default => Color::Default,
        ColorDef::Basic { color, bright } => Color::Basic(basic_of_name(color), bright),
        ColorDef::Ansi256 { index } => Color::Ansi256(index),
        ColorDef::TrueColor { r, g, b } => Color::TrueColor(r, g, b),
    }
}

/// The definition of a live color.
pub open spec fn def_of_color(c: Color) -> ColorDef {
    match c {
        Color::Default => ColorDef::Default,
        Color::Basic(bc, bright) => ColorDef::Basic { color: name_of_basic(bc), bright },
        Color::Ansi256(i) => ColorDef::Ansi256 { index: i },
        Color::TrueColor(r, g, b) => ColorDef::TrueColor { r, g, b },
    }
}

impl ColorDef {
    pub fn to_color(&self) -> (c: Color)
        ensures
            c == color_of_def(*self),
    {
        match self {
            ColorDef::Default => Color::Default,
            ColorDef::Basic { color, bright } => Color::Basic(color.to_basic(), *bright),
            ColorDef::Ansi256 { index } => Color::Ansi256(*index),
            ColorDef::TrueColor { r, g, b } => Color::TrueColor(*r, *g, *b),
        }
    }
}

impl Default for ColorDef {
    fn default() -> (d: Self)
        ensures
            d == ColorDef::Default,
    {
        ColorDef::Default
    }
}

impl From<Color> for ColorDef {
    fn from(c: Color) -> (d: Self) {
        match c {
            Color::Default => ColorDef::Default,
            Color::Basic(bc, bright) => ColorDef::Basic { color: BasicColorName::from(bc), bright },
            Color::Ansi256(i) => ColorDef::Ansi256 { index: i },
            Color::TrueColor(r, g, b) => ColorDef::TrueColor { r, g, b },
        }
    }
}

impl vstd::std_specs::convert::FromSpecImpl<Color> for ColorDef {
    open spec fn obeys_from_spec() -> bool {
        true
    }

    open spec fn from_spec(c: Color) -> ColorDef {
        def_of_color(c)
    }
}

/// Serializable name for the 8 basic ANSI colors.
#[derive(Debug, Clone, Copy, PartialEq, Eq, Structural)]
pub enum BasicColorName {
    Black,
    Red,
    Green,
    Yellow,
    Blue,
    Magenta,
    Cyan,
    White,
}

/// The basic color a name stands for.
pub open spec fn basic_of_name(n: BasicColorName) -> BasicColor {
    match n {
        BasicColorName::Black => BasicColor::Black,
        BasicColorName::Red => BasicColor::Red,
        BasicColorName::Green => BasicColor::Green,
        BasicColorName::Yellow => BasicColor::Yellow,
        BasicColorName::Blue => BasicColor::Blue,
        BasicColorName::Magenta => BasicColor::Magenta,
        BasicColorName::Cyan => BasicColor::Cyan,
        BasicColorName::White => BasicColor::White,
    }
}

/// The name of a basic color.
pub open spec fn name_of_basic(c: BasicColor) -> BasicColorName {
    match c {
        BasicColor::Black => BasicColorName::Black,
        BasicColor::Red => BasicColorName::Red,
        BasicColor::Green => BasicColorName::Green,
        BasicColor::Yellow => BasicColorName::Yellow,
        BasicColor::Blue => BasicColorName::Blue,
        BasicColor::Magenta => BasicColorName::Magenta,
        BasicColor::Cyan => BasicColorName::Cyan,
        BasicColor::White => BasicColorName::White,
    }
}

impl BasicColorName {
    pub fn to_basic(self) -> (c: BasicColor)
        ensures
            c == basic_of_name(self),
    {
        match self {
            BasicColorName::Black => BasicColor::Black,
            BasicColorName::Red => BasicColor::Red,
            BasicColorName::Green => BasicColor::Green,
            BasicColorName::Yellow => BasicColor::Yellow,
            BasicColorName::Blue => BasicColor::Blue,
            BasicColorName::Magenta => BasicColor::Magenta,
            BasicColorName::Cyan => BasicColor::Cyan,
            BasicColorName::White => BasicColor::White,
        }
    }
}

impl From<BasicColor> for BasicColorName {
    fn from(c: BasicColor) -> (n: Self) {
        match c {
            BasicColor::Black => BasicColorName::Black,
            BasicColor::Red => BasicColorName::Red,
            BasicColor::Green => BasicColorName::Green,
            BasicColor::Yellow => BasicColorName::Yellow,
            BasicColor::Blue => BasicColorName::Blue,
            BasicColor::Magenta => BasicColorName::Magenta,
            BasicColor::Cyan => BasicColorName::Cyan,
            BasicColor::White => BasicColorName::White,
        }
    }
}

impl vstd::std_specs::convert::FromSpecImpl<BasicColor> for BasicColorName {
    open spec fn obeys_from_spec() -> bool {
        true
    }

    open spec fn from_spec(c: BasicColor) -> BasicColorName {
        name_of_basic(c)
    }
}

// ---------------------------------------------------------------------------
// Style flags definition
// ---------------------------------------------------------------------------

/// Serializable list of style attribute names.
#[derive(Debug, Clone, Copy, PartialEq, Eq, Structural)]
pub struct StyleDef {
    pub bold: bool,
    pub dim: bool,
    pub italic: bool,
    pub underline: bool,
    pub blink: bool,
    pub reverse: bool,
    pub strikethrough: bool,
}

impl Default for StyleDef {
    fn default() -> (d: Self)
        ensures
            d == (StyleDef {
                bold: false,
                dim: false,
                italic: false,
                underline: false,
                blink: false,
                reverse: false,
                strikethrough: false,
            }),
    {
        StyleDef {
            bold: false,
            dim: false,
            italic: false,
            underline: false,
            blink: false,
            reverse: false,
            strikethrough: false,
        }
    }
}

/// `bit` when `on`, else no bit.
pub open spec fn flag_bit(on: bool, bit: u8) -> u8 {
    if on { bit } else { 0 }
}

/// The bit pattern of the attributes a definition names.
pub open spec fn style_bits(d: StyleDef) -> u8 {
    0u8 | flag_bit(d.bold, 1) | flag_bit(d.dim, 2) | flag_bit(d.italic, 4) | flag_bit(d.underline, 8)
        | flag_bit(d.blink, 16) | flag_bit(d.reverse, 32) | flag_bit(d.strikethrough, 64)
}

/// The definition naming the attributes set in `bits`.
pub open spec fn style_def_of(bits: u8) -> StyleDef {
    StyleDef {
        bold: bits & 1 == 1,
        dim: bits & 2 == 2,
        italic: bits & 4 == 4,
        underline: bits & 8 == 8,
        blink: bits & 16 == 16,
        reverse: bits & 32 == 32,
        strikethrough: bits & 64 == 64,
    }
}

impl StyleDef {
    pub fn to_flags(&self) -> (f: StyleFlags)
        ensures
            f@ == style_bits(*self),
    {
        let mut f = StyleFlags::empty();
        f = f.union(if self.bold { StyleFlags::bold() } else { StyleFlags::empty() });
        f = f.union(if self.dim { StyleFlags::dim() } else { StyleFlags::empty() });
        f = f.union(if self.italic { StyleFlags::italic() } else { StyleFlags::empty() });
        f = f.union(if self.underline { StyleFlags::underline() } else { StyleFlags::empty() });
        f = f.union(if self.blink { StyleFlags::blink() } else { StyleFlags::empty() });
        f = f.union(if self.reverse { StyleFlags::reverse() } else { StyleFlags::empty() });
        f = f.union(if self.strikethrough { StyleFlags::strikethrough() } else { StyleFlags::empty() });
        f
    }
}

impl From<StyleFlags> for StyleDef {
    fn from(f: StyleFlags) -> (d: Self) {
        StyleDef {
            bold: f.contains(StyleFlags::bold()),
            dim: f.contains(StyleFlags::dim()),
            italic: f.contains(StyleFlags::italic()),
            underline: f.contains(StyleFlags::underline()),
            blink: f.contains(StyleFlags::blink()),
            reverse: f.contains(StyleFlags::reverse()),
            strikethrough: f.contains(StyleFlags::strikethrough()),
        }
    }
}

impl vstd::std_specs::convert::FromSpecImpl<StyleFlags> for StyleDef {
    open spec fn obeys_from_spec() -> bool {
        true
    }

    open spec fn from_spec(f: StyleFlags) -> StyleDef {
        style_def_of(f@)
    }
}

// ---------------------------------------------------------------------------
// Border definition
// ---------------------------------------------------------------------------

/// Serializable border style name.
#[derive(Debug, Clone, Copy, PartialEq, Eq, Structural)]
pub enum BorderDef {
    Ascii,
    Single,
    Double,
    Rounded,
    Heavy,
}

impl Default for BorderDef {
    fn default() -> (d: Self)
        ensures
            d == BorderDef::Single,
    {
        BorderDef::Single
    }
}

/// The border style a definition names.
pub open spec fn style_of_border_def(d: BorderDef) -> BorderStyle {
    match d {
        BorderDef::Ascii => BorderStyle::Ascii,
        BorderDef::Single => BorderStyle::Single,
        BorderDef::Double => BorderStyle::Double,
        BorderDef::Rounded => BorderStyle::Rounded,
        BorderDef::Heavy => BorderStyle::Heavy,
    }
}

/// The definition naming a border style.
pub open spec fn border_def_of(s: BorderStyle) -> BorderDef {
    match s {
        BorderStyle::Ascii => BorderDef::Ascii,
        BorderStyle::Single => BorderDef::Single,
        BorderStyle::Double => BorderDef::Double,
        BorderStyle::Rounded => BorderDef::Rounded,
        BorderStyle::Heavy => BorderDef::Heavy,
    }
}

impl BorderDef {
    pub fn to_border_style(self) -> (s: BorderStyle)
        ensures
            s == style_of_border_def(self),
    {
        match self {
            BorderDef::Ascii => BorderStyle::Ascii,
            BorderDef::Single => BorderStyle::Single,
            BorderDef::Double => BorderStyle::Double,
            BorderDef::Rounded => BorderStyle::Rounded,
            BorderDef::Heavy => BorderStyle::Heavy,
        }
    }
}

impl From<BorderStyle> for BorderDef {
    fn from(s: BorderStyle) -> (d: Self) {
        match s {
            BorderStyle::Ascii => BorderDef::Ascii,
            BorderStyle::Single => BorderDef::Single,
            BorderStyle::Double => BorderDef::Double,
            BorderStyle::Rounded => BorderDef::Rounded,
            BorderStyle::Heavy => BorderDef::Heavy,
        }
    }
}

impl vstd::std_specs::convert::FromSpecImpl<BorderStyle> for BorderDef {
    open spec fn obeys_from_spec() -> bool {
        true
    }

    open spec fn from_spec(s: BorderStyle) -> BorderDef {
        border_def_of(s)
    }
}

// ---------------------------------------------------------------------------
// Alignment, wrap mode and edge definitions
// ---------------------------------------------------------------------------

/// The alignment of a panel title in a screen definition.
#[derive(Debug, Clone, Copy, PartialEq, Eq, Structural)]
pub enum AlignDef {
    Left,
    Center,
    Right,
}

impl Default for AlignDef {
    fn default() -> (d: Self)
        ensures
            d == AlignDef::Left,
    {
        AlignDef::Left
    }
}

/// The alignment a definition names.
pub open spec fn align_of_def(d: AlignDef) -> Align {
    match d {
        AlignDef::Left => Align::Left,
        AlignDef::Center => Align::Center,
        AlignDef::Right => Align::Right,
    }
}

impl AlignDef {
    pub fn to_align(self) -> (a: Align)
        ensures
            a == align_of_def(self),
    {
        match self {
            AlignDef::Left => Align::Left,
            AlignDef::Center => Align::Center,
            AlignDef::Right => Align::Right,
        }
    }
}

/// Serializable wrap mode.
#[derive(Debug, Clone, Copy, PartialEq, Eq, Structural)]
pub enum WrapDef {
    Word,
    Char,
    NoWrap,
}

impl Default for WrapDef {
    fn default() -> (d: Self)
        ensures
            d == WrapDef::Word,
    {
        WrapDef::Word
    }
}

/// The wrap mode a definition names.
pub open spec fn wrap_of_def(d: WrapDef) -> WrapMode {
    match d {
        WrapDef::Word => WrapMode::Word,
        WrapDef::Char => WrapMode::Char,
        WrapDef::NoWrap => WrapMode::NoWrap,
    }
}

impl WrapDef {
    pub fn to_wrap_mode(self) -> (m: WrapMode)
        ensures
            m == wrap_of_def(self),
    {
        match self {
            WrapDef::Word => WrapMode::Word,
            WrapDef::Char => WrapMode::Char,
            WrapDef::NoWrap => WrapMode::NoWrap,
        }
    }
}

/// Serializable edge name for anchor constraints.
#[derive(Debug, Clone, Copy, PartialEq, Eq, Structural)]
pub enum EdgeDef {
    Top,
    Right,
    Bottom,
    Left,
}

/// The edge a definition names.
pub open spec fn edge_of_def(d: EdgeDef) -> Edge {
    match d {
        EdgeDef::Top => Edge::Top,
        EdgeDef::Right => Edge::Right,
        EdgeDef::Bottom => Edge::Bottom,
        EdgeDef::Left => Edge::Left,
    }
}

impl EdgeDef {
    pub fn to_edge(self) -> (e: Edge)
        ensures
            e == edge_of_def(self),
    {
        match self {
            EdgeDef::Top => Edge::Top,
            EdgeDef::Right => Edge::Right,
            EdgeDef::Bottom => Edge::Bottom,
            EdgeDef::Left => Edge::Left,
        }
    }
}

// ---------------------------------------------------------------------------
// Widget definitions
// ---------------------------------------------------------------------------

/// A serializable description of a single widget.
#[derive(Debug)]
pub enum WidgetDef {
    /// Bordered panel with optional title.
    Panel {
        title: Option<String>,
        title_align: AlignDef,
        border: BorderDef,
        border_fg: ColorDef,
        title_fg: ColorDef,
        /// Nested child widget (optional).
        child: Option<Box<WidgetDef>>,
    },
    /// Table with headers and data rows.
    Table {
        headers: Option<Vec<String>>,
        rows: Vec<Vec<String>>,
        col_align: Vec<AlignDef>,
        border: BorderDef,
        border_fg: ColorDef,
        header_fg: ColorDef,
        alt_row_bg: Option<ColorDef>,
    },
    /// Selectable item list.
    Menu { items: Vec<String>, cursor_fg: ColorDef, cursor_bg: ColorDef },
    /// Word-wrapped text block.
    Text { content: String, fg: ColorDef, wrap: WrapDef, style: StyleDef },
    /// Empty placeholder (renders nothing).
    Empty,
}

// ---------------------------------------------------------------------------
// Constraint / anchor placement definitions
// ---------------------------------------------------------------------------

/// One constraint declaration in the serialized form.
#[derive(Debug, Clone)]
pub struct ConstraintDef {
    pub src_edge: EdgeDef,
    /// ID string of the destination widget.  `"CONTAINER"` refers to the layout box.
    pub dst: String,
    pub dst_edge: EdgeDef,
    pub offset: i16,
}

/// A widget with its anchor placement constraints.
#[derive(Debug)]
pub struct WidgetPlacement {
    /// Stable string ID for this widget (used in `ConstraintDef.dst`).
    pub id: String,
    pub widget: WidgetDef,
    /// Override preferred size.  If absent, the widget's own `preferred_size()` is used.
    pub size_hint: Option<(u16, u16)>,
    pub constraints: Vec<ConstraintDef>,
}

// ---------------------------------------------------------------------------
// Layout and screen definitions
// ---------------------------------------------------------------------------

/// The top-level layout strategy for a screen.
///
/// Split ratios are kept as the bit patterns of the `f32` fractions they
/// stand for (`f32::to_bits`); nothing here reads them.
#[derive(Debug)]
pub enum LayoutDef {
    /// Anchor-relative layout.  Widgets positioned by edge constraints.
    Anchor { widgets: Vec<WidgetPlacement> },
    /// Horizontal split.
    HSplit { ratio_bits: u32, first: Box<ScreenDef>, second: Box<ScreenDef> },
    /// Vertical split.
    VSplit { ratio_bits: u32, first: Box<ScreenDef>, second: Box<ScreenDef> },
    /// 2×2 grid.
    Grid4 {
        h_ratio_bits: u32,
        v_ratio_bits: u32,
        top_left: Box<ScreenDef>,
        top_right: Box<ScreenDef>,
        bottom_left: Box<ScreenDef>,
        bottom_right: Box<ScreenDef>,
    },
    /// A single widget fills the entire region.
    Single { widget: WidgetDef },
}

/// The terminal class this screen was designed for.
///
/// Targets are ordered: `Vt100 < Vt220 < Ansi256 < TrueColor`.  A screen
/// designed for a lower target will always render correctly on a higher-
/// capability terminal, but not necessarily the other way around.
#[derive(Debug, Clone, Copy, PartialEq, Eq, PartialOrd, Ord, Structural)]
pub enum TerminalTarget {
    /// VT-100 / plain ANSI: 8 fg + 8 bg colors, ASCII box-drawing only, no Unicode.
    Vt100,
    /// VT-220 / modern ANSI: adds Unicode box-drawing characters, still 8+8 ANSI colors.
    Vt220,
    /// xterm 256-color: Unicode box-drawing + 256-color sequences.
    Ansi256,
    /// 24-bit True Color: full RGB.
    TrueColor,
}

impl Default for TerminalTarget {
    fn default() -> (t: Self)
        ensures
            t == TerminalTarget::Vt220,
    {
        TerminalTarget::Vt220
    }
}

/// A list of validation errors returned by `ScreenDef::validate()`.
#[derive(Debug, Clone)]
pub struct ValidationErrors(pub Vec<String>);

/// A complete, serializable screen definition.
#[derive(Debug)]
pub struct ScreenDef {
    /// Human-readable name for this screen (used in builder menus).
    pub name: String,
    /// The terminal class this layout targets.
    pub target: TerminalTarget,
    /// Expected terminal width.
    pub width: u16,
    /// Expected terminal height.
    pub height: u16,
    pub layout: LayoutDef,
}

// ---------------------------------------------------------------------------
// Round trips
// ---------------------------------------------------------------------------

/// A color survives the trip to its definition and back.
pub proof fn lemma_color_round_trip(c: Color)
    ensures
        color_of_def(def_of_color(c)) == c,
{
}

/// A definition survives the trip to a live color and back.
pub proof fn lemma_color_def_round_trip(d: ColorDef)
    ensures
        def_of_color(color_of_def(d)) == d,
{
}

/// A border style survives the trip to its definition and back, and so does
/// a definition.
pub proof fn lemma_border_round_trip(s: BorderStyle, d: BorderDef)
    ensures
        style_of_border_def(border_def_of(s)) == s,
        border_def_of(style_of_border_def(d)) == d,
{
}

/// Style flags made of the seven attributes survive the trip to a
/// definition and back; every definition survives the trip to flags and back.
pub proof fn lemma_style_round_trip(bits: u8, d: StyleDef)
    requires
        bits < 128,
    ensures
        style_bits(style_def_of(bits)) == bits,
        style_def_of(style_bits(d)) == d,
{
    let b1 = bits & 1 == 1;
    let b2 = bits & 2 == 2;
    let b3 = bits & 4 == 4;
    let b4 = bits & 8 == 8;
    let b5 = bits & 16 == 16;
    let b6 = bits & 32 == 32;
    let b7 = bits & 64 == 64;
    assert(0u8 | (if b1 { 1u8 } else { 0u8 }) | (if b2 { 2u8 } else { 0u8 }) | (if b3 { 4u8 } else { 0u8 })
        | (if b4 { 8u8 } else { 0u8 }) | (if b5 { 16u8 } else { 0u8 }) | (if b6 { 32u8 } else { 0u8 })
        | (if b7 { 64u8 } else { 0u8 }) == bits) by (bit_vector)
        requires
            bits < 128,
            b1 == (bits & 1 == 1),
            b2 == (bits & 2 == 2),
            b3 == (bits & 4 == 4),
            b4 == (bits & 8 == 8),
            b5 == (bits & 16 == 16),
            b6 == (bits & 32 == 32),
            b7 == (bits & 64 == 64),
    ;
    let x = style_bits(d);
    let (c1, c2, c3, c4, c5, c6, c7) = (d.bold, d.dim, d.italic, d.underline, d.blink, d.reverse, d.strikethrough);
    assert({
        let y = 0u8 | (if c1 { 1u8 } else { 0u8 }) | (if c2 { 2u8 } else { 0u8 }) | (if c3 { 4u8 } else { 0u8 })
            | (if c4 { 8u8 } else { 0u8 }) | (if c5 { 16u8 } else { 0u8 }) | (if c6 { 32u8 } else { 0u8 })
            | (if c7 { 64u8 } else { 0u8 });
        &&& (y & 1 == 1) == c1
        &&& (y & 2 == 2) == c2
        &&& (y & 4 == 4) == c3
        &&& (y & 8 == 8) == c4
        &&& (y & 16 == 16) == c5
        &&& (y & 32 == 32) == c6
        &&& (y & 64 == 64) == c7
    }) by (bit_vector);
}

} // verus!
