use vstd::prelude::*;
use crate::text::{seq_contains, seq_starts_with, str_contains, str_starts_with, to_lowercase, to_owned_string,
    to_uppercase, unicode_lowercase, unicode_uppercase};

verus! {

/// Detected color depth of the current terminal.
#[derive(Debug, Clone, Copy, PartialEq, Eq, PartialOrd, Ord, Structural)]
pub enum ColorLevel {
    /// No color support — plain characters only (dumb terminal, pipe, DOS fallback).
    NoColor,
    /// VT-100 / ANSI basic 8-color + bright variants via SGR 30–37 / 90–97.
    Vt100Basic,
    /// xterm 256-color palette via SGR 38;5;N.
    Ansi256,
    /// 24-bit true color via SGR 38;2;R;G;B.
    TrueColor,
}

impl Default for ColorLevel {
    fn default() -> (l: ColorLevel)
        ensures
            l == ColorLevel::NoColor,
    {
        ColorLevel::NoColor
    }
}

/// Position of a color level in the order `None < Vt100Basic < Ansi256 < TrueColor`.
pub open spec fn level_rank(l: ColorLevel) -> int {
    match l {
        ColorLevel::NoColor => 0,
        ColorLevel::Vt100Basic => 1,
        ColorLevel::Ansi256 => 2,
        ColorLevel::TrueColor => 3,
    }
}

impl ColorLevel {
    /// Position of this level in the declared order (`None` = 0 … `TrueColor` = 3).
    pub fn rank(self) -> (r: u8)
        ensures
            r == level_rank(self),
    {
        match self {
            ColorLevel::NoColor => 0,
            ColorLevel::Vt100Basic => 1,
            ColorLevel::Ansi256 => 2,
            ColorLevel::TrueColor => 3,
        }
    }
}

/// Snapshot of terminal capabilities detected at startup.
#[derive(Debug, Clone, Copy)]
pub struct TermCaps {
    pub color_level: ColorLevel,
    /// Terminal can render Unicode box-drawing and other non-ASCII glyphs.
    pub unicode: bool,
    pub cols: u16,
    pub rows: u16,
}

impl TermCaps {
    /// Update terminal size (call after a SIGWINCH / Resize event).
    pub fn with_size(self, cols: u16, rows: u16) -> (r: Self)
        ensures
            r.cols == cols,
            r.rows == rows,
            r.color_level == self.color_level,
            r.unicode == self.unicode,
    {
        let mut s = self;
        s.cols = cols;
        s.rows = rows;
        s
    }
}

/// The parts of the process environment that capability detection reads.
pub struct TermEnv {
    /// `$NO_COLOR` is set (to any value).
    pub no_color: bool,
    /// `$TERM`, empty when unset or not Unicode.
    pub term: String,
    /// `$COLORTERM`, empty when unset or not Unicode.
    pub colorterm: String,
    /// `$WT_SESSION` (Windows Terminal) is set.
    pub wt_session: bool,
    /// `$TERM_PROGRAM`, empty when unset or not Unicode.
    pub term_program: String,
    /// `$LC_ALL`, when set and Unicode.
    pub lc_all: Option<String>,
    /// `$LC_CTYPE`, when set and Unicode.
    pub lc_ctype: Option<String>,
    /// `$LANG`, when set and Unicode.
    pub lang: Option<String>,
    /// The program was built for Windows.
    pub windows: bool,
}

/// The color depth the environment signals, strongest signal first:
/// `$COLORTERM` naming true color, Windows Terminal, a 256-color `$TERM`,
/// a known terminal program, the xterm and rxvt families; anything else is
/// taken for a basic ANSI terminal.
pub open spec fn color_level_spec(term: Seq<char>, colorterm: Seq<char>, wt_session: bool, term_program: Seq<char>) -> ColorLevel {
    let ct = unicode_lowercase(colorterm);
    if ct == "truecolor"@ || ct == "24bit"@ {
        ColorLevel::TrueColor
    } else if wt_session {
        ColorLevel::TrueColor
    } else if seq_contains(term, "256color"@) || seq_contains(term, "256colour"@) {
        ColorLevel::Ansi256
    } else if term_program == "iTerm.app"@ || term_program == "Hyper"@ || term_program == "vscode"@ {
        ColorLevel::TrueColor
    } else if term_program == "Apple_Terminal"@ {
        ColorLevel::Ansi256
    } else if seq_starts_with(term, "xterm"@) || seq_starts_with(term, "rxvt-unicode"@) {
        ColorLevel::Ansi256
    } else {
        ColorLevel::Vt100Basic
    }
}

/// A locale variable that names UTF-8.
pub open spec fn names_utf8(v: Option<String>) -> bool {
    match v {
        Some(s) => seq_contains(unicode_uppercase(s@), "UTF-8"@) || seq_contains(unicode_uppercase(s@), "UTF8"@),
        None => false,
    }
}

/// The environment signals Unicode: a locale variable names UTF-8, or on
/// Windows the program runs in Windows Terminal.
pub open spec fn unicode_spec(env: TermEnv) -> bool {
    names_utf8(env.lc_all) || names_utf8(env.lc_ctype) || names_utf8(env.lang) || (env.windows && env.wt_session)
}

/// The capabilities detected from `env`: `$NO_COLOR` strips everything; a
/// dumb or unknown `$TERM` gets no color but may still draw Unicode.
pub open spec fn detect_spec(env: TermEnv, cols: u16, rows: u16) -> TermCaps {
    if env.no_color {
        TermCaps { color_level: ColorLevel::NoColor, unicode: false, cols, rows }
    } else if env.term@ == "dumb"@ || env.term@.len() == 0 {
        TermCaps { color_level: ColorLevel::NoColor, unicode: unicode_spec(env), cols, rows }
    } else {
        TermCaps {
            color_level: color_level_spec(env.term@, env.colorterm@, env.wt_session, env.term_program@),
            unicode: unicode_spec(env),
            cols,
            rows,
        }
    }
}

/// `s` equals the literal `lit`.
fn str_is(s: &String, lit: &str) -> (r: bool)
    ensures
        r == (s@ == lit@),
{
    *s == to_owned_string(lit)
}

/// Whether a locale value names UTF-8.
fn locale_is_utf8(v: &Option<String>) -> (r: bool)
    ensures
        r == names_utf8(*v),
{
    match v {
        Some(s) => {
            let up = to_uppercase(s.as_str());
            str_contains(up.as_str(), "UTF-8") || str_contains(up.as_str(), "UTF8")
        },
        None => false,
    }
}

impl TermCaps {
    /// The capabilities that `env` signals, for a terminal of `cols × rows`.
    ///
    /// Detection is intentionally conservative: the level is only raised on
    /// a strong positive signal, so an unknown terminal gets a safe baseline
    /// rather than broken escape sequences.
    pub fn detect(env: &TermEnv, cols: u16, rows: u16) -> (c: TermCaps)
        ensures
            c == detect_spec(*env, cols, rows),
    {
        if env.no_color {
            return TermCaps { color_level: ColorLevel::NoColor, unicode: false, cols, rows };
        }
        if str_is(&env.term, "dumb") || env.term.unicode_len() == 0 {
            let unicode = Self::detect_unicode(env);
            return TermCaps { color_level: ColorLevel::NoColor, unicode, cols, rows };
        }
        let color_level = Self::detect_color(env.term.as_str(), env.colorterm.as_str(), env.wt_session,
            &env.term_program);
        let unicode = Self::detect_unicode(env);
        TermCaps { color_level, unicode, cols, rows }
    }

    fn detect_color(term: &str, colorterm: &str, wt_session: bool, term_program: &String) -> (l: ColorLevel)
        ensures
            l == color_level_spec(term@, colorterm@, wt_session, term_program@),
    {
        // Strongest signal: explicit $COLORTERM declaration.
        let ct = to_lowercase(colorterm);
        if str_is(&ct, "truecolor") || str_is(&ct, "24bit") {
            return ColorLevel::TrueColor;
        }
        // Windows Terminal sets $WT_SESSION.
        if wt_session {
            return ColorLevel::TrueColor;
        }
        // Common 256-color $TERM values.
        if str_contains(term, "256color") || str_contains(term, "256colour") {
            return ColorLevel::Ansi256;
        }
        // Well-known true-color terminal programs.
        if str_is(term_program, "iTerm.app") || str_is(term_program, "Hyper") || str_is(term_program, "vscode") {
            return ColorLevel::TrueColor;
        }
        if str_is(term_program, "Apple_Terminal") {
            return ColorLevel::Ansi256;
        }
        // xterm and rxvt families support at least 256 colors in modern builds.
        if str_starts_with(term, "xterm") || str_starts_with(term, "rxvt-unicode") {
            return ColorLevel::Ansi256;
        }
        // Safe fallback for any other recognisable ANSI terminal.
        ColorLevel::Vt100Basic
    }

    fn detect_unicode(env: &TermEnv) -> (u: bool)
        ensures
            u == unicode_spec(*env),
    {
        // Check locale environment variables for UTF-8 indication.
        if locale_is_utf8(&env.lc_all) || locale_is_utf8(&env.lc_ctype) || locale_is_utf8(&env.lang) {
            return true;
        }
        // Windows Terminal supports Unicode.
        env.windows && env.wt_session
    }
}

/// `env` names a terminal: `$NO_COLOR` is unset and `$TERM` is set and not
/// `dumb`.
pub open spec fn names_terminal(env: TermEnv) -> bool {
    !env.no_color && env.term@ != "dumb"@ && env.term@.len() > 0
}

/// `env` declares true color: `$COLORTERM` is `truecolor` or `24bit` in any
/// case, the program runs in Windows Terminal, or `$TERM_PROGRAM` names
/// iTerm, Hyper or VS Code.
pub open spec fn true_color_signal(env: TermEnv) -> bool {
    unicode_lowercase(env.colorterm@) == "truecolor"@ || unicode_lowercase(env.colorterm@) == "24bit"@
        || env.wt_session || env.term_program@ == "iTerm.app"@ || env.term_program@ == "Hyper"@
        || env.term_program@ == "vscode"@
}

/// `env` signals at least 256 colors: true color, a `$TERM` naming 256
/// colors or of the xterm or rxvt-unicode family, or Apple's Terminal.
pub open spec fn palette_signal(env: TermEnv) -> bool {
    true_color_signal(env) || seq_contains(env.term@, "256color"@) || seq_contains(env.term@, "256colour"@)
        || env.term_program@ == "Apple_Terminal"@ || seq_starts_with(env.term@, "xterm"@)
        || seq_starts_with(env.term@, "rxvt-unicode"@)
}

/// How detection reads the environment: `$NO_COLOR` gives no color and no
/// Unicode, and a dumb or missing `$TERM` gives no color.  For a named
/// terminal the level is never below basic ANSI; it is at least 256 colors
/// exactly when some signal for 256 or more colors is present, and true
/// color when true color is declared and `$TERM` does not name 256 colors
/// (or `$COLORTERM` or Windows Terminal declares it).  The size is the one
/// given, and Unicode follows the locale or Windows Terminal.
pub proof fn lemma_detect_reads_env(env: TermEnv, cols: u16, rows: u16)
    ensures
        detect_spec(env, cols, rows).cols == cols,
        detect_spec(env, cols, rows).rows == rows,
        env.no_color ==> detect_spec(env, cols, rows).color_level == ColorLevel::NoColor
            && !detect_spec(env, cols, rows).unicode,
        !env.no_color ==> detect_spec(env, cols, rows).unicode == unicode_spec(env),
        !env.no_color && !names_terminal(env) ==> detect_spec(env, cols, rows).color_level == ColorLevel::NoColor,
        names_terminal(env) ==> level_rank(detect_spec(env, cols, rows).color_level) >= 1,
        names_terminal(env) ==> (level_rank(detect_spec(env, cols, rows).color_level) >= 2 <==> palette_signal(env)),
        names_terminal(env) && (unicode_lowercase(env.colorterm@) == "truecolor"@
            || unicode_lowercase(env.colorterm@) == "24bit"@ || env.wt_session)
            ==> detect_spec(env, cols, rows).color_level == ColorLevel::TrueColor,
        names_terminal(env) && true_color_signal(env) && !seq_contains(env.term@, "256color"@)
            && !seq_contains(env.term@, "256colour"@)
            ==> detect_spec(env, cols, rows).color_level == ColorLevel::TrueColor,
        names_terminal(env) && detect_spec(env, cols, rows).color_level == ColorLevel::TrueColor
            ==> true_color_signal(env),
{
}

/// Unicode is detected, unless `$NO_COLOR` is set, exactly when `$LC_ALL`,
/// `$LC_CTYPE` or `$LANG` contains `UTF-8` or `UTF8` in any case, or the
/// program runs on Windows inside Windows Terminal.
pub proof fn lemma_detect_unicode(env: TermEnv, cols: u16, rows: u16)
    requires
        !env.no_color,
    ensures
        detect_spec(env, cols, rows).unicode <==> (
            (env.lc_all matches Some(v) && (seq_contains(unicode_uppercase(v@), "UTF-8"@)
                || seq_contains(unicode_uppercase(v@), "UTF8"@)))
            || (env.lc_ctype matches Some(v) && (seq_contains(unicode_uppercase(v@), "UTF-8"@)
                || seq_contains(unicode_uppercase(v@), "UTF8"@)))
            || (env.lang matches Some(v) && (seq_contains(unicode_uppercase(v@), "UTF-8"@)
                || seq_contains(unicode_uppercase(v@), "UTF8"@)))
            || (env.windows && env.wt_session)),
{
}

} // verus!
