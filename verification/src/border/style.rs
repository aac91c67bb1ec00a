use vstd::prelude::*;
use crate::term::caps::TermCaps;

verus! {

/// Available border drawing styles.
#[derive(Debug, Clone, Copy, PartialEq, Eq, Structural)]
pub enum BorderStyle {
    /// ASCII-safe: `+` corners, `-` horizontal, `|` vertical.
    /// Safe on every terminal including DOS / dumb / piped output.
    Ascii,
    /// Unicode single-line box drawing (U+2500 range).
    Single,
    /// Unicode double-line box drawing (U+2550 range).
    Double,
    /// Single-line with rounded corners (╭╮╰╯).
    Rounded,
    /// Heavy/thick single-line (U+2501 range).
    Heavy,
}

impl Default for BorderStyle {
    fn default() -> (s: BorderStyle)
        ensures
            s == BorderStyle::Single,
    {
        BorderStyle::Single
    }
}

/// The glyphs that fully describe a rectangular border plus inline title
/// separators and table dividers.
#[derive(Debug, Clone, Copy)]
pub struct BorderGlyphs {
    pub top_left: char,
    pub top_right: char,
    pub bottom_left: char,
    pub bottom_right: char,
    pub horizontal: char,
    pub vertical: char,
    /// Left-side title separator (e.g. `├` or `+`).
    pub title_left: char,
    /// Right-side title separator (e.g. `┤` or `+`).
    pub title_right: char,
    /// Horizontal divider for use inside the box (e.g. row separators in Table).
    pub cross: char,
    /// Tee pointing down (top of a divider).
    pub tee_top: char,
    /// Tee pointing up (bottom of a divider).
    pub tee_bottom: char,
    /// Tee pointing right (left edge of a divider).
    pub tee_left: char,
    /// Tee pointing left (right edge of a divider).
    pub tee_right: char,
}

/// The glyph table of each border style.
pub open spec fn border_glyphs(s: BorderStyle) -> BorderGlyphs {
    match s {
        BorderStyle::Ascii => BorderGlyphs {
            top_left: '+', top_right: '+', bottom_left: '+', bottom_right: '+',
            horizontal: '-', vertical: '|',
            title_left: '+', title_right: '+',
            cross: '+', tee_top: '+', tee_bottom: '+', tee_left: '+', tee_right: '+',
        },
        BorderStyle::Single => BorderGlyphs {
            top_left: '┌', top_right: '┐', bottom_left: '└', bottom_right: '┘',
            horizontal: '─', vertical: '│',
            title_left: '├', title_right: '┤',
            cross: '┼', tee_top: '┬', tee_bottom: '┴', tee_left: '├', tee_right: '┤',
        },
        BorderStyle::Double => BorderGlyphs {
            top_left: '╔', top_right: '╗', bottom_left: '╚', bottom_right: '╝',
            horizontal: '═', vertical: '║',
            title_left: '╠', title_right: '╣',
            cross: '╬', tee_top: '╦', tee_bottom: '╩', tee_left: '╠', tee_right: '╣',
        },
        BorderStyle::Rounded => BorderGlyphs {
            top_left: '╭', top_right: '╮', bottom_left: '╰', bottom_right: '╯',
            horizontal: '─', vertical: '│',
            title_left: '├', title_right: '┤',
            cross: '┼', tee_top: '┬', tee_bottom: '┴', tee_left: '├', tee_right: '┤',
        },
        BorderStyle::Heavy => BorderGlyphs {
            top_left: '┏', top_right: '┓', bottom_left: '┗', bottom_right: '┛',
            horizontal: '━', vertical: '┃',
            title_left: '┣', title_right: '┫',
            cross: '╋', tee_top: '┳', tee_bottom: '┻', tee_left: '┣', tee_right: '┫',
        },
    }
}

/// Every glyph of `g` is a 7-bit ASCII character.
pub open spec fn glyphs_ascii(g: BorderGlyphs) -> bool {
    &&& (g.top_left as u32) < 128 && (g.top_right as u32) < 128
    &&& (g.bottom_left as u32) < 128 && (g.bottom_right as u32) < 128
    &&& (g.horizontal as u32) < 128 && (g.vertical as u32) < 128
    &&& (g.title_left as u32) < 128 && (g.title_right as u32) < 128
    &&& (g.cross as u32) < 128 && (g.tee_top as u32) < 128 && (g.tee_bottom as u32) < 128
    &&& (g.tee_left as u32) < 128 && (g.tee_right as u32) < 128
}

/// The style after `s` in the cycle Ascii → Single → Double → Rounded → Heavy → Ascii.
pub open spec fn next_style(s: BorderStyle) -> BorderStyle {
    match s {
        BorderStyle::Ascii => BorderStyle::Single,
        BorderStyle::Single => BorderStyle::Double,
        BorderStyle::Double => BorderStyle::Rounded,
        BorderStyle::Rounded => BorderStyle::Heavy,
        BorderStyle::Heavy => BorderStyle::Ascii,
    }
}

/// The style actually drawn for `s` on a terminal whose Unicode support is `unicode`.
pub open spec fn style_for_caps(s: BorderStyle, unicode: bool) -> BorderStyle {
    if !unicode && s != BorderStyle::Ascii {
        BorderStyle::Ascii
    } else {
        s
    }
}

impl BorderStyle {
    /// The glyph table for this style.
    pub fn glyphs(self) -> (g: BorderGlyphs)
        ensures
            g == border_glyphs(self),
    {
        match self {
            BorderStyle::Ascii => BorderGlyphs {
                top_left: '+', top_right: '+', bottom_left: '+', bottom_right: '+',
                horizontal: '-', vertical: '|',
                title_left: '+', title_right: '+',
                cross: '+', tee_top: '+', tee_bottom: '+', tee_left: '+', tee_right: '+',
            },
            BorderStyle::Single => BorderGlyphs {
                top_left: '┌', top_right: '┐', bottom_left: '└', bottom_right: '┘',
                horizontal: '─', vertical: '│',
                title_left: '├', title_right: '┤',
                cross: '┼', tee_top: '┬', tee_bottom: '┴', tee_left: '├', tee_right: '┤',
            },
            BorderStyle::Double => BorderGlyphs {
                top_left: '╔', top_right: '╗', bottom_left: '╚', bottom_right: '╝',
                horizontal: '═', vertical: '║',
                title_left: '╠', title_right: '╣',
                cross: '╬', tee_top: '╦', tee_bottom: '╩', tee_left: '╠', tee_right: '╣',
            },
            BorderStyle::Rounded => BorderGlyphs {
                top_left: '╭', top_right: '╮', bottom_left: '╰', bottom_right: '╯',
                horizontal: '─', vertical: '│',
                title_left: '├', title_right: '┤',
                cross: '┼', tee_top: '┬', tee_bottom: '┴', tee_left: '├', tee_right: '┤',
            },
            BorderStyle::Heavy => BorderGlyphs {
                top_left: '┏', top_right: '┓', bottom_left: '┗', bottom_right: '┛',
                horizontal: '━', vertical: '┃',
                title_left: '┣', title_right: '┫',
                cross: '╋', tee_top: '┳', tee_bottom: '┻', tee_left: '┣', tee_right: '┫',
            },
        }
    }

    /// Automatically degrade to `Ascii` when the terminal doesn't support Unicode.
    pub fn with_caps(self, caps: &TermCaps) -> (s: Self)
        ensures
            s == style_for_caps(self, caps.unicode),
    {
        if !caps.unicode && self != BorderStyle::Ascii {
            BorderStyle::Ascii
        } else {
            self
        }
    }

    /// Cycle to the next style (useful for interactive demos).
    pub fn next(self) -> (s: Self)
        ensures
            s == next_style(self),
    {
        match self {
            BorderStyle::Ascii => BorderStyle::Single,
            BorderStyle::Single => BorderStyle::Double,
            BorderStyle::Double => BorderStyle::Rounded,
            BorderStyle::Rounded => BorderStyle::Heavy,
            BorderStyle::Heavy => BorderStyle::Ascii,
        }
    }

    /// Human-readable name of the style.
    pub fn name(self) -> (n: &'static str)
        ensures
            self is Ascii ==> n@ == "ASCII"@,
            self is Single ==> n@ == "Single"@,
            self is Double ==> n@ == "Double"@,
            self is Rounded ==> n@ == "Rounded"@,
            self is Heavy ==> n@ == "Heavy"@,
    {
        match self {
            BorderStyle::Ascii => "ASCII",
            BorderStyle::Single => "Single",
            BorderStyle::Double => "Double",
            BorderStyle::Rounded => "Rounded",
            BorderStyle::Heavy => "Heavy",
        }
    }

    /// Every style, in the order that `next` cycles through them.
    pub fn all() -> (v: Vec<BorderStyle>)
        ensures
            v@ == seq![
                BorderStyle::Ascii,
                BorderStyle::Single,
                BorderStyle::Double,
                BorderStyle::Rounded,
                BorderStyle::Heavy,
            ],
    {
        vec![
            BorderStyle::Ascii,
            BorderStyle::Single,
            BorderStyle::Double,
            BorderStyle::Rounded,
            BorderStyle::Heavy,
        ]
    }
}

/// On a terminal without Unicode every border is drawn with ASCII glyphs only.
pub proof fn lemma_no_unicode_means_ascii_glyphs(s: BorderStyle, unicode: bool)
    requires
        !unicode,
    ensures
        style_for_caps(s, unicode) == BorderStyle::Ascii,
        glyphs_ascii(border_glyphs(style_for_caps(s, unicode))),
{
}

/// Five steps of `next` come back to the style they started from.
pub proof fn lemma_next_cycles(s: BorderStyle)
    ensures
        next_style(next_style(next_style(next_style(next_style(s))))) == s,
{
}

} // verus!
