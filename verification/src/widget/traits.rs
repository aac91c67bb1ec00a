use vstd::prelude::*;
use crate::canvas::canvas::{unchanged_outside, CanvasModel, SubCanvas};
use crate::event::keys::Key;
use crate::term::caps::TermCaps;

verus! {

/// Every UI widget implements this trait.
///
/// Widgets render into a `SubCanvas` whose dimensions equal the region
/// allocated to them by the layout manager, for a terminal with the given
/// capabilities.  A widget leaves every cell outside its region as it was:
/// a wide character in the region's last column loses its continuation
/// rather than spilling into the next column.  Regions are at
/// most 65533 columns wide, so that a text cursor inside one never passes
/// `u16::MAX`.
pub trait Widget {
    /// What this widget leaves in `after` when it draws over `before` in the
    /// region at `(oc, or)` of size `w × h`, on a terminal with `caps`.
    ///
    /// Unless the widget says more, all that is known is that it keeps every
    /// cell outside its region.
    open spec fn drawn(&self, caps: &TermCaps, before: CanvasModel, after: CanvasModel, oc: int, or: int, w: int, h: int)
        -> bool {
        unchanged_outside(before, after, oc, or, w, h)
    }

    fn render(&self, canvas: &mut SubCanvas<'_>, caps: &TermCaps)
        requires
            old(canvas).wf(),
            old(canvas).width + 2 <= u16::MAX,
        ensures
            final(canvas).same_frame(old(canvas)),
            final(canvas).wf(),
            unchanged_outside(old(canvas).parent@, final(canvas).parent@, old(canvas).origin_col as int,
                old(canvas).origin_row as int, old(canvas).width as int, old(canvas).height as int),
            self.drawn(caps, old(canvas).parent@, final(canvas).parent@, old(canvas).origin_col as int,
                old(canvas).origin_row as int, old(canvas).width as int, old(canvas).height as int),
            *final(final(canvas).parent) == *final(old(canvas).parent),
    ;

    /// The minimum size this widget reports.
    spec fn min_size_spec(&self) -> (u16, u16);

    /// Minimum `(width, height)` for the widget to be usable.
    fn min_size(&self) -> (r: (u16, u16))
        ensures
            r == self.min_size_spec(),
    ;

    /// The preferred size this widget reports: its minimum size, unless the
    /// widget says otherwise.
    open spec fn preferred_size_spec(&self) -> (u16, u16) {
        self.min_size_spec()
    }

    /// Preferred `(width, height)` when unconstrained.
    fn preferred_size(&self) -> (r: (u16, u16))
        ensures
            r == self.preferred_size_spec(),
    ;
}

/// A widget that can receive keyboard input.
///
/// `handle_key` returns `true` if the key was consumed, `false` to propagate it up.
pub trait InteractiveWidget: Widget {
    fn handle_key(&mut self, key: Key) -> bool;

    fn is_focused(&self) -> bool;

    fn set_focused(&mut self, focused: bool);
}

} // verus!
