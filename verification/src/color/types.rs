use vstd::prelude::*;

verus! {

/// A terminal color value.  Use `Color::downgrade()` before rendering to
/// ensure the value is within what the terminal can display.
#[derive(Debug, Clone, Copy, PartialEq, Eq, Structural)]
pub enum Color {
    /// Terminal default — emits SGR 39 (fg) / 49 (bg).
    Default,
    /// ANSI 8-color set + bright variants.
    Basic(BasicColor, bool),
    /// xterm 256-color palette index (0–255).
    Ansi256(u8),
    /// 24-bit true color RGB.
    TrueColor(u8, u8, u8),
}

impl Default for Color {
    fn default() -> (c: Color)
        ensures
            c == Color::Default,
    {
        Color::Default
    }
}

/// The 8 ANSI basic colors, in SGR order (30–37 for fg, 40–47 for bg).
#[derive(Debug, Clone, Copy, PartialEq, Eq, Structural)]
pub enum BasicColor {
    Black,
    Red,
    Green,
    Yellow,
    Blue,
    Magenta,
    Cyan,
    White,
}

/// SGR position of a basic color (0 = black … 7 = white).
pub open spec fn basic_index(c: BasicColor) -> int {
    match c {
        BasicColor::Black => 0,
        BasicColor::Red => 1,
        BasicColor::Green => 2,
        BasicColor::Yellow => 3,
        BasicColor::Blue => 4,
        BasicColor::Magenta => 5,
        BasicColor::Cyan => 6,
        BasicColor::White => 7,
    }
}

/// The basic color at SGR position `i` (anything past 6 is white).
pub open spec fn basic_from_index(i: int) -> BasicColor {
    if i == 0 {
        BasicColor::Black
    } else if i == 1 {
        BasicColor::Red
    } else if i == 2 {
        BasicColor::Green
    } else if i == 3 {
        BasicColor::Yellow
    } else if i == 4 {
        BasicColor::Blue
    } else if i == 5 {
        BasicColor::Magenta
    } else if i == 6 {
        BasicColor::Cyan
    } else {
        BasicColor::White
    }
}

/// Text attribute flags.  Combine with `union` for multi-attribute styles.
#[derive(Debug, Clone, Copy, PartialEq, Eq, Structural)]
pub struct StyleFlags {
    /// The raw bit pattern (bold = bit 0 … strikethrough = bit 6).
    pub bits: u8,
}

impl Default for StyleFlags {
    fn default() -> (s: StyleFlags)
        ensures
            s@ == 0,
    {
        StyleFlags { bits: 0 }
    }
}

impl View for StyleFlags {
    type V = u8;

    open spec fn view(&self) -> u8 {
        self.bits
    }
}

impl StyleFlags {
    /// The flags with only bold set.
    pub open spec fn bold_spec() -> StyleFlags {
        StyleFlags { bits: 1 }
    }

    /// Bold text.
    pub fn bold() -> (s: StyleFlags)
        ensures
            s@ == 1,
            s == Self::bold_spec(),
    {
        StyleFlags { bits: 1 }
    }

    /// Dim (faint) text.
    pub fn dim() -> (s: StyleFlags)
        ensures
            s@ == 2,
    {
        StyleFlags { bits: 2 }
    }

    /// Italic text.
    pub fn italic() -> (s: StyleFlags)
        ensures
            s@ == 4,
    {
        StyleFlags { bits: 4 }
    }

    /// Underlined text.
    pub fn underline() -> (s: StyleFlags)
        ensures
            s@ == 8,
    {
        StyleFlags { bits: 8 }
    }

    /// Slow blink.
    pub fn blink() -> (s: StyleFlags)
        ensures
            s@ == 16,
    {
        StyleFlags { bits: 16 }
    }

    /// Reverse video.
    pub fn reverse() -> (s: StyleFlags)
        ensures
            s@ == 32,
    {
        StyleFlags { bits: 32 }
    }

    /// Crossed-out text.
    pub fn strikethrough() -> (s: StyleFlags)
        ensures
            s@ == 64,
    {
        StyleFlags { bits: 64 }
    }

    /// The set of flags with no attribute.
    pub fn empty() -> (s: StyleFlags)
        ensures
            s@ == 0,
    {
        StyleFlags { bits: 0 }
    }

    /// The raw bit pattern (bold = bit 0 … strikethrough = bit 6).
    pub fn bits(&self) -> (b: u8)
        ensures
            b == self@,
    {
        self.bits
    }

    /// Flags from a raw bit pattern; bits that name no attribute are dropped.
    pub fn from_bits_truncate(bits: u8) -> (s: StyleFlags)
        ensures
            s@ == bits & 0x7f,
    {
        StyleFlags { bits: bits & 0x7f }
    }

    /// True when every flag of `other` is set in `self`.
    pub fn contains(&self, other: StyleFlags) -> (r: bool)
        ensures
            r == (self@ & other@ == other@),
    {
        self.bits & other.bits == other.bits
    }

    /// Every flag set in `self` or in `other`.
    pub fn union(self, other: StyleFlags) -> (s: StyleFlags)
        ensures
            s@ == self@ | other@,
    {
        StyleFlags { bits: self.bits | other.bits }
    }

    /// True when no flag is set.
    pub fn is_empty(&self) -> (r: bool)
        ensures
            r == (self@ == 0),
    {
        self.bits == 0
    }
}

} // verus!
