//! What each terminal class allows, and the check of a screen definition
//! against the class it targets.

use vstd::prelude::*;
use crate::serial::types::{BorderDef, ColorDef, LayoutDef, ScreenDef, TerminalTarget, ValidationErrors, WidgetDef,
    WidgetPlacement};
use crate::term::caps::{level_rank, ColorLevel};
use crate::text::concat_str;
use crate::widget::wrap::views;

verus! {

/// Position of a target in the order `Vt100 < Vt220 < Ansi256 < TrueColor`.
pub open spec fn target_rank(t: TerminalTarget) -> int {
    match t {
        TerminalTarget::Vt100 => 0,
        TerminalTarget::Vt220 => 1,
        TerminalTarget::Ansi256 => 2,
        TerminalTarget::TrueColor => 3,
    }
}

/// Whether a screen for `t` renders on a terminal of color level `actual`.
pub open spec fn compatible_spec(t: TerminalTarget, actual: ColorLevel) -> bool {
    match t {
        TerminalTarget::Vt100 => true,
        TerminalTarget::Vt220 => level_rank(actual) >= 1 || actual == ColorLevel::NoColor,
        TerminalTarget::Ansi256 => level_rank(actual) >= 2,
        TerminalTarget::TrueColor => level_rank(actual) >= 3,
    }
}

/// The least color level a target needs.
pub open spec fn required_level_spec(t: TerminalTarget) -> ColorLevel {
    match t {
        TerminalTarget::Vt100 => ColorLevel::NoColor,
        TerminalTarget::Vt220 => ColorLevel::Vt100Basic,
        TerminalTarget::Ansi256 => ColorLevel::Ansi256,
        TerminalTarget::TrueColor => ColorLevel::TrueColor,
    }
}

/// Whether a target may draw Unicode box-drawing characters.
pub open spec fn unicode_allowed_spec(t: TerminalTarget) -> bool {
    !(t is Vt100)
}

/// The description of a target shown in the builder.
pub open spec fn description_spec(t: TerminalTarget) -> Seq<char> {
    match t {
        TerminalTarget::Vt100 => "VT-100  — 8 ANSI colors, ASCII borders only"@,
        TerminalTarget::Vt220 => "VT-220  — 8 ANSI colors + Unicode box-drawing"@,
        TerminalTarget::Ansi256 => "256-color — xterm 256-color palette + Unicode"@,
        TerminalTarget::TrueColor => "True Color — 24-bit RGB + Unicode (modern terminals)"@,
    }
}

/// The problem with using `color` for `field` on target `t`, if any: the
/// 8-color targets take neither palette nor RGB colors, the 256-color target
/// takes no RGB colors.
pub open spec fn color_error(t: TerminalTarget, color: ColorDef, field: Seq<char>) -> Option<Seq<char>> {
    if (t is Vt100 || t is Vt220) && color is Ansi256 {
        Some(field + ": Ansi256 color not supported on "@ + description_spec(t) + " target"@)
    } else if (t is Vt100 || t is Vt220) && color is TrueColor {
        Some(field + ": TrueColor not supported on "@ + description_spec(t) + " target"@)
    } else if t is Ansi256 && color is TrueColor {
        Some(field + ": TrueColor not supported on Ansi256 target"@)
    } else {
        None
    }
}

/// The name a border definition prints under.
pub open spec fn border_def_name(b: BorderDef) -> Seq<char> {
    match b {
        BorderDef::Ascii => "Ascii"@,
        BorderDef::Single => "Single"@,
        BorderDef::Double => "Double"@,
        BorderDef::Rounded => "Rounded"@,
        BorderDef::Heavy => "Heavy"@,
    }
}

/// The problem with `border` on target `t`, if any: a target without Unicode
/// takes only ASCII borders.
pub open spec fn border_error(t: TerminalTarget, border: BorderDef) -> Option<Seq<char>> {
    if !unicode_allowed_spec(t) && border != BorderDef::Ascii {
        Some("border style '"@ + border_def_name(border) + "' requires Unicode — use Ascii for VT-100 target"@)
    } else {
        None
    }
}

/// The characters of an optional string.
pub open spec fn opt_view(e: Option<String>) -> Option<Seq<char>> {
    match e {
        Some(s) => Some(s@),
        None => None,
    }
}

/// A problem, if any, as the list of messages tagged with the widget's id.
pub open spec fn tagged(id: Seq<char>, e: Option<Seq<char>>) -> Seq<Seq<char>> {
    match e {
        Some(m) => seq!["["@ + id + "] "@ + m],
        None => Seq::empty(),
    }
}

/// The problems of a widget definition on target `t`, in the order they are
/// found: border, then colors field by field, then the child's.
pub open spec fn widget_errors(w: WidgetDef, t: TerminalTarget, id: Seq<char>) -> Seq<Seq<char>>
    decreases w,
{
    match w {
        WidgetDef::Panel { border, border_fg, title_fg, child, .. } => {
            tagged(id, border_error(t, border)) + tagged(id, color_error(t, border_fg, "border_fg"@))
                + tagged(id, color_error(t, title_fg, "title_fg"@)) + match child {
                Some(c) => widget_errors(*c, t, id),
                None => Seq::empty(),
            }
        },
        WidgetDef::Table { border, border_fg, header_fg, alt_row_bg, .. } => {
            tagged(id, border_error(t, border)) + tagged(id, color_error(t, border_fg, "border_fg"@))
                + tagged(id, color_error(t, header_fg, "header_fg"@)) + match alt_row_bg {
                Some(ab) => tagged(id, color_error(t, ab, "alt_row_bg"@)),
                None => Seq::empty(),
            }
        },
        WidgetDef::Menu { cursor_fg, cursor_bg, .. } => {
            tagged(id, color_error(t, cursor_fg, "cursor_fg"@)) + tagged(id, color_error(t, cursor_bg, "cursor_bg"@))
        },
        WidgetDef::Text { fg, .. } => tagged(id, color_error(t, fg, "fg"@)),
        WidgetDef::Empty => Seq::empty(),
    }
}

/// The problems of anchor placements, one placement after the other.
pub open spec fn placements_errors(ws: Seq<WidgetPlacement>, t: TerminalTarget) -> Seq<Seq<char>>
    decreases ws.len(),
{
    if ws.len() == 0 {
        Seq::empty()
    } else {
        placements_errors(ws.drop_last(), t) + widget_errors(ws.last().widget, t, ws.last().id@)
    }
}

/// The problems of a layout definition on target `t`: a single widget goes by
/// the id `root`; sub-screens are checked against the outer target.
pub open spec fn layout_errors(l: LayoutDef, t: TerminalTarget) -> Seq<Seq<char>>
    decreases l,
{
    match l {
        LayoutDef::Anchor { widgets } => placements_errors(widgets@, t),
        LayoutDef::Single { widget } => widget_errors(widget, t, "root"@),
        LayoutDef::HSplit { first, second, .. } => layout_errors(first.layout, t) + layout_errors(second.layout, t),
        LayoutDef::VSplit { first, second, .. } => layout_errors(first.layout, t) + layout_errors(second.layout, t),
        LayoutDef::Grid4 { top_left, top_right, bottom_left, bottom_right, .. } => {
            layout_errors(top_left.layout, t) + layout_errors(top_right.layout, t)
                + layout_errors(bottom_left.layout, t) + layout_errors(bottom_right.layout, t)
        },
    }
}

/// The lines `ValidationErrors` prints: each message after a bullet.
pub open spec fn errors_text(errs: Seq<Seq<char>>) -> Seq<char>
    decreases errs.len(),
{
    if errs.len() == 0 {
        Seq::empty()
    } else {
        errors_text(errs.drop_last()) + "  • "@ + errs.last() + "\n"@
    }
}

impl TerminalTarget {
    /// Returns `true` if this screen can be rendered on a terminal with
    /// `actual_level` capability without any incompatible features.
    pub fn is_compatible_with(self, actual: ColorLevel) -> (r: bool)
        ensures
            r == compatible_spec(self, actual),
    {
        match self {
            TerminalTarget::Vt100 => true,
            TerminalTarget::Vt220 => actual.rank() >= 1 || actual == ColorLevel::NoColor,
            TerminalTarget::Ansi256 => actual.rank() >= 2,
            TerminalTarget::TrueColor => actual.rank() >= 3,
        }
    }

    /// The `ColorLevel` this target requires at minimum.
    pub fn required_color_level(self) -> (l: ColorLevel)
        ensures
            l == required_level_spec(self),
    {
        match self {
            TerminalTarget::Vt100 => ColorLevel::NoColor,
            TerminalTarget::Vt220 => ColorLevel::Vt100Basic,
            TerminalTarget::Ansi256 => ColorLevel::Ansi256,
            TerminalTarget::TrueColor => ColorLevel::TrueColor,
        }
    }

    /// Whether this target allows Unicode box-drawing characters.
    pub fn unicode_allowed(self) -> (r: bool)
        ensures
            r == unicode_allowed_spec(self),
    {
        match self {
            TerminalTarget::Vt100 => false,
            _ => true,
        }
    }

    /// Human-readable description shown in the builder.
    pub fn description(self) -> (d: &'static str)
        ensures
            d@ == description_spec(self),
    {
        match self {
            TerminalTarget::Vt100 => "VT-100  — 8 ANSI colors, ASCII borders only",
            TerminalTarget::Vt220 => "VT-220  — 8 ANSI colors + Unicode box-drawing",
            TerminalTarget::Ansi256 => "256-color — xterm 256-color palette + Unicode",
            TerminalTarget::TrueColor => "True Color — 24-bit RGB + Unicode (modern terminals)",
        }
    }

    /// Every target, from the least capable to the most.
    pub fn all() -> (v: Vec<TerminalTarget>)
        ensures
            v@ == seq![TerminalTarget::Vt100, TerminalTarget::Vt220, TerminalTarget::Ansi256, TerminalTarget::TrueColor],
    {
        vec![TerminalTarget::Vt100, TerminalTarget::Vt220, TerminalTarget::Ansi256, TerminalTarget::TrueColor]
    }

    /// Validate a `ColorDef` against this target.  Returns an error string
    /// if the color exceeds what the target supports.
    pub fn validate_color(self, color: &ColorDef, field: &str) -> (r: Option<String>)
        ensures
            opt_view(r) == color_error(self, *color, field@),
    {
        let low = match self {
            TerminalTarget::Vt100 => true,
            TerminalTarget::Vt220 => true,
            _ => false,
        };
        match color {
            ColorDef::Ansi256 { .. } => {
                if low {
                    let a = concat_str(field, ": Ansi256 color not supported on ");
                    let b = concat_str(a.as_str(), self.description());
                    let c = concat_str(b.as_str(), " target");
                    return Some(c);
                }
                None
            },
            ColorDef::TrueColor { .. } => {
                if low {
                    let a = concat_str(field, ": TrueColor not supported on ");
                    let b = concat_str(a.as_str(), self.description());
                    let c = concat_str(b.as_str(), " target");
                    Some(c)
                } else if self == TerminalTarget::Ansi256 {
                    Some(concat_str(field, ": TrueColor not supported on Ansi256 target"))
                } else {
                    None
                }
            },
            _ => None,
        }
    }

    /// Validate a `BorderDef` against this target.
    pub fn validate_border(self, border: &BorderDef) -> (r: Option<String>)
        ensures
            opt_view(r) == border_error(self, *border),
    {
        if !self.unicode_allowed() && *border != BorderDef::Ascii {
            let a = concat_str("border style '", border_name(*border));
            Some(concat_str(a.as_str(), "' requires Unicode — use Ascii for VT-100 target"))
        } else {
            None
        }
    }
}

/// The name `border` prints under.
fn border_name(border: BorderDef) -> (n: &'static str)
    ensures
        n@ == border_def_name(border),
{
    match border {
        BorderDef::Ascii => "Ascii",
        BorderDef::Single => "Single",
        BorderDef::Double => "Double",
        BorderDef::Rounded => "Rounded",
        BorderDef::Heavy => "Heavy",
    }
}

impl ValidationErrors {
    pub fn is_empty(&self) -> (r: bool)
        ensures
            r == (self.0@.len() == 0),
    {
        self.0.len() == 0
    }

    pub fn errors(&self) -> (e: &[String])
        ensures
            e@ == self.0@,
    {
        self.0.as_slice()
    }

    /// The errors one per line, each after a bullet.
    pub fn to_string(&self) -> (s: String)
        ensures
            s@ == errors_text(views(self.0@)),
    {
        let mut s = String::new();
        let mut i: usize = 0;
        let ghost all = views(self.0@);
        assert(all.take(0) =~= Seq::<Seq<char>>::empty());
        while i < self.0.len()
            invariant
                i <= self.0@.len(),
                all == views(self.0@),
                s@ == errors_text(all.take(i as int)),
            decreases self.0@.len() - i,
        {
            let a = concat_str(s.as_str(), "  • ");
            let b = concat_str(a.as_str(), self.0[i].as_str());
            s = concat_str(b.as_str(), "\n");
            assert(all.take(i + 1).drop_last() =~= all.take(i as int));
            i += 1;
        }
        assert(all.take(all.len() as int) =~= all);
        s
    }
}

/// `"[id] e"`.
fn tag_error(id: &str, e: String) -> (r: String)
    ensures
        r@ == "["@ + id@ + "] "@ + e@,
{
    let a = concat_str("[", id);
    let b = concat_str(a.as_str(), "] ");
    concat_str(b.as_str(), e.as_str())
}

/// Appends the problem, tagged with `id`, when there is one.
fn push_tagged(errs: &mut Vec<String>, id: &str, e: Option<String>)
    ensures
        views(final(errs)@) == views(old(errs)@) + tagged(id@, opt_view(e)),
{
    match e {
        Some(s) => {
            errs.push(tag_error(id, s));
            assert(views(errs@) =~= views(old(errs)@) + tagged(id@, Some(s@)));
        },
        None => {
            assert(views(errs@) =~= views(old(errs)@) + Seq::<Seq<char>>::empty());
        },
    }
}

impl ScreenDef {
    /// Validate that all widget colors, borders, and features are compatible
    /// with `self.target`.  Returns `Ok(())` if valid, `Err(ValidationErrors)`
    /// with a list of human-readable problems otherwise.
    pub fn validate(&self) -> (r: Result<(), ValidationErrors>)
        ensures
            r is Ok <==> layout_errors(self.layout, self.target).len() == 0,
            r matches Err(e) ==> views(e.0@) == layout_errors(self.layout, self.target),
    {
        let mut errs: Vec<String> = Vec::new();
        assert(views(errs@) =~= Seq::<Seq<char>>::empty());
        Self::validate_layout(&self.layout, self.target, &mut errs);
        assert(views(errs@).len() == errs@.len());
        if errs.len() == 0 {
            Ok(())
        } else {
            Err(ValidationErrors(errs))
        }
    }

    fn validate_layout(layout: &LayoutDef, target: TerminalTarget, errs: &mut Vec<String>)
        ensures
            views(final(errs)@) == views(old(errs)@) + layout_errors(*layout, target),
        decreases layout,
    {
        match layout {
            LayoutDef::Anchor { widgets } => {
                let mut i: usize = 0;
                assert(widgets@.take(0) =~= Seq::<WidgetPlacement>::empty());
                assert(views(errs@) + Seq::<Seq<char>>::empty() =~= views(errs@));
                while i < widgets.len()
                    invariant
                        i <= widgets@.len(),
                        *layout == (LayoutDef::Anchor { widgets: *widgets }),
                        views(errs@) == views(old(errs)@) + placements_errors(widgets@.take(i as int), target),
                    decreases widgets@.len() - i,
                {
                    let w = &widgets[i];
                    let ghost before = views(errs@);
                    Self::validate_widget_def(&w.widget, target, w.id.as_str(), errs);
                    assert(widgets@.take(i + 1).drop_last() =~= widgets@.take(i as int));
                    assert(views(errs@) =~= views(old(errs)@) + placements_errors(widgets@.take(i + 1), target));
                    i += 1;
                }
                assert(widgets@.take(widgets@.len() as int) =~= widgets@);
            },
            LayoutDef::Single { widget } => {
                Self::validate_widget_def(widget, target, "root", errs);
            },
            LayoutDef::HSplit { first, second, .. } => {
                Self::validate_layout(&first.layout, target, errs);
                Self::validate_layout(&second.layout, target, errs);
                assert(views(errs@) =~= views(old(errs)@) + layout_errors(*layout, target));
            },
            LayoutDef::VSplit { first, second, .. } => {
                Self::validate_layout(&first.layout, target, errs);
                Self::validate_layout(&second.layout, target, errs);
                assert(views(errs@) =~= views(old(errs)@) + layout_errors(*layout, target));
            },
            LayoutDef::Grid4 { top_left, top_right, bottom_left, bottom_right, .. } => {
                Self::validate_layout(&top_left.layout, target, errs);
                Self::validate_layout(&top_right.layout, target, errs);
                Self::validate_layout(&bottom_left.layout, target, errs);
                Self::validate_layout(&bottom_right.layout, target, errs);
                assert(views(errs@) =~= views(old(errs)@) + layout_errors(*layout, target));
            },
        }
    }

    #[verifier::rlimit(40)]
    fn validate_widget_def(widget: &WidgetDef, target: TerminalTarget, id: &str, errs: &mut Vec<String>)
        ensures
            views(final(errs)@) == views(old(errs)@) + widget_errors(*widget, target, id@),
        decreases widget,
    {
        match widget {
            WidgetDef::Panel { border, border_fg, title_fg, child, .. } => {
                let ghost e0 = views(errs@);
                push_tagged(errs, id, target.validate_border(border));
                let ghost e1 = views(errs@);
                push_tagged(errs, id, target.validate_color(border_fg, "border_fg"));
                let ghost e2 = views(errs@);
                push_tagged(errs, id, target.validate_color(title_fg, "title_fg"));
                let ghost e3 = views(errs@);
                match child {
                    Some(c) => Self::validate_widget_def(c, target, id, errs),
                    None => {},
                }
                let ghost t1 = tagged(id@, border_error(target, *border));
                let ghost t2 = tagged(id@, color_error(target, *border_fg, "border_fg"@));
                let ghost t3 = tagged(id@, color_error(target, *title_fg, "title_fg"@));
                let ghost t4 = match child {
                    Some(c) => widget_errors(**c, target, id@),
                    None => Seq::empty(),
                };
                assert(widget_errors(*widget, target, id@) == t1 + t2 + t3 + t4);
                assert(views(errs@) =~= e0 + (t1 + t2 + t3 + t4));
            },
            WidgetDef::Table { border, border_fg, header_fg, alt_row_bg, .. } => {
                let ghost e0 = views(errs@);
                push_tagged(errs, id, target.validate_border(border));
                push_tagged(errs, id, target.validate_color(border_fg, "border_fg"));
                push_tagged(errs, id, target.validate_color(header_fg, "header_fg"));
                match alt_row_bg {
                    Some(ab) => push_tagged(errs, id, target.validate_color(ab, "alt_row_bg")),
                    None => {},
                }
                let ghost t1 = tagged(id@, border_error(target, *border));
                let ghost t2 = tagged(id@, color_error(target, *border_fg, "border_fg"@));
                let ghost t3 = tagged(id@, color_error(target, *header_fg, "header_fg"@));
                let ghost t4 = match alt_row_bg {
                    Some(ab) => tagged(id@, color_error(target, *ab, "alt_row_bg"@)),
                    None => Seq::empty(),
                };
                assert(widget_errors(*widget, target, id@) == t1 + t2 + t3 + t4);
                assert(views(errs@) =~= e0 + (t1 + t2 + t3 + t4));
            },
            WidgetDef::Menu { cursor_fg, cursor_bg, .. } => {
                let ghost e0 = views(errs@);
                push_tagged(errs, id, target.validate_color(cursor_fg, "cursor_fg"));
                push_tagged(errs, id, target.validate_color(cursor_bg, "cursor_bg"));
                let ghost t1 = tagged(id@, color_error(target, *cursor_fg, "cursor_fg"@));
                let ghost t2 = tagged(id@, color_error(target, *cursor_bg, "cursor_bg"@));
                assert(widget_errors(*widget, target, id@) == t1 + t2);
                assert(views(errs@) =~= e0 + (t1 + t2));
            },
            WidgetDef::Text { fg, .. } => {
                push_tagged(errs, id, target.validate_color(fg, "fg"));
            },
            WidgetDef::Empty => {
                assert(views(errs@) =~= views(old(errs)@) + Seq::<Seq<char>>::empty());
            },
        }
    }
}

// ---------------------------------------------------------------------------
// Laws
// ---------------------------------------------------------------------------

proof fn lemma_widget_errors_monotone(w: WidgetDef, t1: TerminalTarget, t2: TerminalTarget, id: Seq<char>)
    requires
        widget_errors(w, t1, id).len() == 0,
        target_rank(t1) <= target_rank(t2),
    ensures
        widget_errors(w, t2, id).len() == 0,
    decreases w,
{
    match w {
        WidgetDef::Panel { child, .. } => {
            match child {
                Some(c) => lemma_widget_errors_monotone(*c, t1, t2, id),
                None => {},
            }
        },
        _ => {},
    }
}

proof fn lemma_placements_errors_monotone(ws: Seq<WidgetPlacement>, t1: TerminalTarget, t2: TerminalTarget)
    requires
        placements_errors(ws, t1).len() == 0,
        target_rank(t1) <= target_rank(t2),
    ensures
        placements_errors(ws, t2).len() == 0,
    decreases ws.len(),
{
    if ws.len() > 0 {
        lemma_placements_errors_monotone(ws.drop_last(), t1, t2);
        lemma_widget_errors_monotone(ws.last().widget, t1, t2, ws.last().id@);
    }
}

/// A screen that is valid for a target is valid for every more capable
/// target: a design for a lower class renders on a higher one.
pub proof fn lemma_valid_for_higher_target(l: LayoutDef, t1: TerminalTarget, t2: TerminalTarget)
    requires
        layout_errors(l, t1).len() == 0,
        target_rank(t1) <= target_rank(t2),
    ensures
        layout_errors(l, t2).len() == 0,
    decreases l,
{
    match l {
        LayoutDef::Anchor { widgets } => lemma_placements_errors_monotone(widgets@, t1, t2),
        LayoutDef::Single { widget } => lemma_widget_errors_monotone(widget, t1, t2, "root"@),
        LayoutDef::HSplit { first, second, .. } => {
            lemma_valid_for_higher_target(first.layout, t1, t2);
            lemma_valid_for_higher_target(second.layout, t1, t2);
        },
        LayoutDef::VSplit { first, second, .. } => {
            lemma_valid_for_higher_target(first.layout, t1, t2);
            lemma_valid_for_higher_target(second.layout, t1, t2);
        },
        LayoutDef::Grid4 { top_left, top_right, bottom_left, bottom_right, .. } => {
            lemma_valid_for_higher_target(top_left.layout, t1, t2);
            lemma_valid_for_higher_target(top_right.layout, t1, t2);
            lemma_valid_for_higher_target(bottom_left.layout, t1, t2);
            lemma_valid_for_higher_target(bottom_right.layout, t1, t2);
        },
    }
}

/// A target renders on a terminal of the color level it requires, and on
/// every more capable terminal too.
pub proof fn lemma_compatible_upwards(t: TerminalTarget, a1: ColorLevel, a2: ColorLevel)
    ensures
        compatible_spec(t, required_level_spec(t)),
        compatible_spec(t, a1) && level_rank(a1) <= level_rank(a2) ==> compatible_spec(t, a2),
{
}

/// Only the VT-100 target refuses borders, and it refuses every border but
/// the ASCII one.
pub proof fn lemma_border_rules(t: TerminalTarget, b: BorderDef)
    ensures
        border_error(t, b) is Some <==> (t == TerminalTarget::Vt100 && b != BorderDef::Ascii),
{
}

} // verus!
