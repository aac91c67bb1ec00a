//! # Anchor Layout
//!
//! Relative, daisy-chainable positioning for console widgets.  Instead of
//! absolute coordinates, you declare relationships between edges of widgets
//! ("edge A of widget X is `offset` cells away from edge B of widget Y") and
//! the resolver turns them into concrete `Rect` positions before rendering.
//! `AnchorLayout::container()` refers to the bounding box of the whole layout.

use vstd::prelude::*;
use crate::canvas::canvas::{CanvasModel, lemma_unchanged_outside_refl, lemma_unchanged_outside_trans,
    lemma_unchanged_outside_widen, unchanged_outside, SubCanvas};
use crate::layout::region::Rect;
use crate::term::caps::TermCaps;
use crate::widget::traits::Widget;
pub use crate::layout::resolve::{
    apply_constraint, apply_prefix, constraint_fits, container_res, derive_all, derive_all_fits,
    derive_fits, derive_res, edge_of, fits_i16, initial_state, iterate, iterate_fits, lemma_iterate_fits,
    lemma_iterate_stable, max_passes, pass, pass_fits, pref_of, prefix_fits, rect_fits, res_height,
    res_width, resolve_fits, resolve_spec, rget, unresolved, with_edge, Constraint, Edge,
    LayoutSpec, Resolved,
};
use crate::layout::resolve::{
    lemma_container_constraint_places, lemma_left_derived, lemma_tied_edge_resolves, lemma_unconstrained_unresolved,
};

verus! {

/// A stable identifier for a widget slot within an `AnchorLayout`.
/// Id 0 is reserved for the layout's bounding box (`AnchorLayout::container()`).
#[derive(Debug, Clone, Copy, PartialEq, Eq, Hash, Structural)]
pub struct AnchorId(u32);

/// The id reserved for the layout's bounding box.
pub closed spec fn container_id() -> AnchorId {
    AnchorId(0)
}

impl View for AnchorId {
    type V = u32;

    closed spec fn view(&self) -> u32 {
        self.0
    }
}

/// The id with number `n`.
pub closed spec fn anchor_id(n: u32) -> AnchorId {
    AnchorId(n)
}

/// An id is determined by its number.
pub proof fn lemma_anchor_id(n: u32, a: AnchorId)
    ensures
        anchor_id(n)@ == n,
        anchor_id(a@) == a,
        container_id() == anchor_id(0),
{
}


// ---------------------------------------------------------------------------
// Resolved positions as a key/value list
// ---------------------------------------------------------------------------

/// No id appears twice in `l`.
pub open spec fn keys_unique(l: Seq<(AnchorId, Resolved)>) -> bool {
    forall|i: int, j: int| 0 <= i < j < l.len() ==> l[i].0@ != l[j].0@
}

/// Some entry of `l` is for `id`.
pub open spec fn has_key(l: Seq<(AnchorId, Resolved)>, id: u32) -> bool {
    exists|j: int| 0 <= j < l.len() && l[j].0@ == id
}

/// The resolution state held by the list `l`.
pub open spec fn list_state(l: Seq<(AnchorId, Resolved)>) -> Map<u32, Resolved> {
    Map::new(
        |id: u32| has_key(l, id),
        |id: u32| l[choose|j: int| 0 <= j < l.len() && l[j].0@ == id].1,
    )
}

proof fn lemma_list_state_at(l: Seq<(AnchorId, Resolved)>, j: int)
    requires
        keys_unique(l),
        0 <= j < l.len(),
    ensures
        list_state(l).contains_key(l[j].0@),
        list_state(l)[l[j].0@] == l[j].1,
{
    let id = l[j].0@;
    assert(has_key(l, id));
    let k = choose|k: int| 0 <= k < l.len() && l[k].0@ == id;
    if k != j {
        if k < j {
            assert(l[k].0@ != l[j].0@);
        } else {
            assert(l[j].0@ != l[k].0@);
        }
    }
}

proof fn lemma_list_state_update(l: Seq<(AnchorId, Resolved)>, j: int, r: Resolved)
    requires
        keys_unique(l),
        0 <= j < l.len(),
    ensures
        keys_unique(l.update(j, (l[j].0, r))),
        list_state(l.update(j, (l[j].0, r))) == list_state(l).insert(l[j].0@, r),
{
    let l2 = l.update(j, (l[j].0, r));
    assert forall|i: int, k: int| 0 <= i < k < l2.len() implies l2[i].0@ != l2[k].0@ by {
    }
    let a = list_state(l2);
    let b = list_state(l).insert(l[j].0@, r);
    assert forall|id: u32| #[trigger] a.contains_key(id) <==> b.contains_key(id) by {
        if has_key(l, id) {
            let k = choose|k: int| 0 <= k < l.len() && l[k].0@ == id;
            assert(l2[k].0@ == id);
        }
        if has_key(l2, id) {
            let k = choose|k: int| 0 <= k < l2.len() && l2[k].0@ == id;
            assert(l[k].0@ == id);
        }
    }
    assert forall|id: u32| #[trigger] a.contains_key(id) implies a[id] == b[id] by {
        let k = choose|k: int| 0 <= k < l2.len() && l2[k].0@ == id;
        lemma_list_state_at(l2, k);
        lemma_list_state_at(l, k);
    }
    assert(a =~= b);
}

proof fn lemma_list_state_push(l: Seq<(AnchorId, Resolved)>, id: AnchorId, r: Resolved)
    requires
        keys_unique(l),
        !has_key(l, id@),
    ensures
        keys_unique(l.push((id, r))),
        list_state(l.push((id, r))) == list_state(l).insert(id@, r),
{
    let l2 = l.push((id, r));
    assert forall|i: int, k: int| 0 <= i < k < l2.len() implies l2[i].0@ != l2[k].0@ by {
        if k == l.len() {
            assert(l[i].0@ != id@);
        }
    }
    let a = list_state(l2);
    let b = list_state(l).insert(id@, r);
    assert forall|x: u32| #[trigger] a.contains_key(x) <==> b.contains_key(x) by {
        if has_key(l, x) {
            let k = choose|k: int| 0 <= k < l.len() && l[k].0@ == x;
            assert(l2[k].0@ == x);
        }
        if x == id@ {
            assert(l2[l.len() as int].0@ == x);
        }
        if has_key(l2, x) && x != id@ {
            let k = choose|k: int| 0 <= k < l2.len() && l2[k].0@ == x;
            assert(l[k].0@ == x);
        }
    }
    assert forall|x: u32| #[trigger] a.contains_key(x) implies a[x] == b[x] by {
        let k = choose|k: int| 0 <= k < l2.len() && l2[k].0@ == x;
        lemma_list_state_at(l2, k);
        if k < l.len() {
            lemma_list_state_at(l, k);
        }
    }
    assert(a =~= b);
}

fn find_entry(list: &Vec<(AnchorId, Resolved)>, id: AnchorId) -> (r: Option<usize>)
    ensures
        r matches Some(j) ==> j < list@.len() && list@[j as int].0@ == id@,
        r is None ==> !has_key(list@, id@),
{
    let mut j: usize = 0;
    while j < list.len()
        invariant
            j <= list@.len(),
            forall|k: int| 0 <= k < j ==> list@[k].0@ != id@,
        decreases list@.len() - j,
    {
        if list[j].0 == id {
            return Some(j);
        }
        j += 1;
    }
    None
}

impl Resolved {
    fn edge(&self, e: Edge) -> (v: Option<i16>)
        ensures
            v == edge_of(*self, e),
    {
        match e {
            Edge::Top => self.top,
            Edge::Left => self.left,
            Edge::Bottom => self.bottom,
            Edge::Right => self.right,
        }
    }

    fn with(self, e: Edge, v: i16) -> (r: Resolved)
        ensures
            r == with_edge(self, e, v),
    {
        let mut r = self;
        match e {
            Edge::Top => r.top = Some(v),
            Edge::Left => r.left = Some(v),
            Edge::Bottom => r.bottom = Some(v),
            Edge::Right => r.right = Some(v),
        }
        r
    }

    fn width(&self) -> (w: Option<u16>)
        requires
            rect_fits(*self),
        ensures
            w == res_width(*self),
    {
        match (self.left, self.right) {
            (Some(l), Some(r)) => if r > l { Some((r - l) as u16) } else { None },
            _ => None,
        }
    }

    fn height(&self) -> (h: Option<u16>)
        requires
            rect_fits(*self),
        ensures
            h == res_height(*self),
    {
        match (self.top, self.bottom) {
            (Some(t), Some(b)) => if b > t { Some((b - t) as u16) } else { None },
            _ => None,
        }
    }

    fn to_rect(&self, pref_w: u16, pref_h: u16) -> (r: Rect)
        requires
            rect_fits(*self),
        ensures
            r == rect_spec(*self, pref_w, pref_h),
    {
        let l: u16 = match self.left {
            Some(v) => if v > 0 { v as u16 } else { 0 },
            None => 0,
        };
        let t: u16 = match self.top {
            Some(v) => if v > 0 { v as u16 } else { 0 },
            None => 0,
        };
        let w = match self.width() {
            Some(w) => w,
            None => pref_w,
        };
        let h = match self.height() {
            Some(h) => h,
            None => pref_h,
        };
        Rect::new(l, t, w, h)
    }
}

/// Half of `v`, rounded toward zero (integer division by 2).
pub open spec fn half_toward_zero(v: int) -> int {
    if v >= 0 { v / 2 } else { -((-v) / 2) }
}

/// The rectangle of a resolved position: left/top clamped at zero, width and
/// height from the edges when both are known (and ordered), else the
/// preferred size.
pub open spec fn rect_spec(r: Resolved, pref_w: u16, pref_h: u16) -> Rect {
    Rect {
        x: match r.left { Some(v) => if v > 0 { v as u16 } else { 0 }, None => 0 },
        y: match r.top { Some(v) => if v > 0 { v as u16 } else { 0 }, None => 0 },
        width: match res_width(r) { Some(w) => w, None => pref_w },
        height: match res_height(r) { Some(h) => h, None => pref_h },
    }
}

/// Apply one constraint to the list of resolved positions.  Returns whether
/// an edge was determined.
fn apply_constraint_exec(list: &mut Vec<(AnchorId, Resolved)>, c: Constraint) -> (changed: bool)
    requires
        keys_unique(old(list)@),
        constraint_fits(list_state(old(list)@), c),
    ensures
        keys_unique(final(list)@),
        list_state(final(list)@) == apply_constraint(list_state(old(list)@), c),
        !changed ==> final(list)@ == old(list)@,
        final(list)@.len() >= old(list)@.len(),
{
    let ghost s = list_state(list@);
    let v = match find_entry(list, c.dst) {
        Some(j) => {
            proof {
                lemma_list_state_at(list@, j as int);
            }
            list[j].1.edge(c.dst_edge)
        },
        None => None,
    };
    match v {
        None => false,
        Some(v) => {
            let nv: i16 = v + c.offset;
            match find_entry(list, c.src) {
                None => {
                    let r = Resolved::default().with(c.src_edge, nv);
                    proof {
                        lemma_list_state_push(list@, c.src, r);
                    }
                    list.push((c.src, r));
                    true
                },
                Some(j) => {
                    proof {
                        lemma_list_state_at(list@, j as int);
                    }
                    let cur = list[j].1;
                    if cur.edge(c.src_edge).is_none() {
                        let r = cur.with(c.src_edge, nv);
                        proof {
                            lemma_list_state_update(list@, j as int, r);
                        }
                        list.set(j, (c.src, r));
                        true
                    } else {
                        false
                    }
                },
            }
        },
    }
}

/// Whether applying `c` to the list computes within `i16`.
fn constraint_fits_exec(list: &Vec<(AnchorId, Resolved)>, c: Constraint) -> (b: bool)
    requires
        keys_unique(list@),
    ensures
        b == constraint_fits(list_state(list@), c),
{
    match find_entry(list, c.dst) {
        Some(j) => {
            proof {
                lemma_list_state_at(list@, j as int);
            }
            match list[j].1.edge(c.dst_edge) {
                Some(v) => {
                    let sum: i32 = v as i32 + c.offset as i32;
                    i16::MIN as i32 <= sum && sum <= i16::MAX as i32
                },
                None => true,
            }
        },
        None => {
            assert(rget(list_state(list@), c.dst@) == unresolved());
            assert(edge_of(unresolved(), c.dst_edge) is None) by {
                match c.dst_edge {
                    Edge::Top => {},
                    Edge::Left => {},
                    Edge::Bottom => {},
                    Edge::Right => {},
                }
            }
            true
        },
    }
}

/// Whether `v` is an `i16`.
fn fits_exec(v: i32) -> (b: bool)
    ensures
        b == fits_i16(v as int),
{
    i16::MIN as i32 <= v && v <= i16::MAX as i32
}

/// Whether deriving the missing edges of `r` computes within `i16`.
fn derive_fits_exec(r: Resolved, pw: i16, ph: i16) -> (b: bool)
    ensures
        b == derive_fits(r, pw, ph),
{
    let a = match (r.bottom, r.top) {
        (None, Some(t)) => fits_exec(t as i32 + ph as i32),
        _ => true,
    };
    let b = match (r.top, r.bottom) {
        (None, Some(x)) => fits_exec(x as i32 - ph as i32),
        _ => true,
    };
    let c = match (r.right, r.left) {
        (None, Some(l)) => fits_exec(l as i32 + pw as i32),
        _ => true,
    };
    let d = match (r.left, r.right) {
        (None, Some(x)) => fits_exec(x as i32 - pw as i32),
        _ => true,
    };
    a && b && c && d
}

/// Whether measuring `r` subtracts no edges more than `i16::MAX` apart.
fn rect_fits_exec(r: &Resolved) -> (b: bool)
    ensures
        b == rect_fits(*r),
{
    let h = match (r.left, r.right) {
        (Some(a), Some(b)) => !(b > a) || (b as i32 - a as i32) <= i16::MAX as i32,
        _ => true,
    };
    let v = match (r.top, r.bottom) {
        (Some(a), Some(b)) => !(b > a) || (b as i32 - a as i32) <= i16::MAX as i32,
        _ => true,
    };
    h && v
}

fn derive_exec(r: Resolved, pw: i16, ph: i16) -> (d: Resolved)
    requires
        derive_fits(r, pw, ph),
    ensures
        d == derive_res(r, pw, ph),
{
    let mut e = r;
    if e.bottom.is_none() {
        if let Some(t) = e.top {
            e.bottom = Some(t + ph);
        }
    }
    if e.top.is_none() {
        if let Some(b) = e.bottom {
            e.top = Some(b - ph);
        }
    }
    if e.right.is_none() {
        if let Some(l) = e.left {
            e.right = Some(l + pw);
        }
    }
    if e.left.is_none() {
        if let Some(r) = e.right {
            e.left = Some(r - pw);
        }
    }
    e
}

// ---------------------------------------------------------------------------
// AnchorLayout
// ---------------------------------------------------------------------------

/// A widget of the layout and the preferred size recorded for it.
pub struct Slot<W> {
    pub widget: W,
    pub pref_w: u16,
    pub pref_h: u16,
}

impl<W> Slot<W> {
    /// A slot holding `widget`, with preferred size `pref_w × pref_h`.
    pub fn new(widget: W, pref_w: u16, pref_h: u16) -> (s: Self)
        ensures
            s.widget == widget,
            s.pref_w == pref_w,
            s.pref_h == pref_h,
    {
        Slot { widget, pref_w, pref_h }
    }
}

/// Relative-anchor layout manager.
///
/// Widgets are positioned by declaring edge-to-edge constraints.  The
/// resolver performs up to 32 forward passes over all constraints until every
/// widget has a fully-determined position (or the pass limit is reached, at
/// which point undetermined widgets fall back to their preferred sizes at
/// position `(0,0)`).
pub struct AnchorLayout {
    width: u16,
    height: u16,
    next_id: u32,
    /// The widgets with their preferred sizes, in the order they were added.
    slots: Vec<Slot<Box<dyn Widget>>>,
    constraints: Vec<Constraint>,
    /// Resolved positions — populated by `resolve()`, emptied by any change.
    resolved: Vec<(AnchorId, Resolved)>,
}

impl View for AnchorLayout {
    type V = LayoutSpec;

    closed spec fn view(&self) -> LayoutSpec {
        LayoutSpec {
            width: self.width,
            height: self.height,
            prefs: self.slots@.map_values(|s: Slot<Box<dyn Widget>>| (s.pref_w, s.pref_h)),
            constraints: self.constraints@,
        }
    }
}

const MAX_PASSES: usize = 32;

impl AnchorLayout {
    /// The reserved `AnchorId` representing the layout's bounding box.
    pub fn container() -> (id: AnchorId)
        ensures
            id == container_id(),
            id@ == 0,
    {
        AnchorId(0)
    }

    /// Internal consistency: ids are handed out in order, and resolved
    /// positions, when present, are those of the current layout.
    pub closed spec fn wf(&self) -> bool {
        &&& self.next_id == self.slots@.len() + 1
        &&& self.resolved@.len() > 0 ==> {
            &&& resolve_fits(self@)
            &&& keys_unique(self.resolved@)
            &&& list_state(self.resolved@) == resolve_spec(self@)
        }
    }

    /// The widgets with their recorded sizes, in the order they were added:
    /// the widget of slot `k` has id `k + 1`.
    pub closed spec fn slots(&self) -> Seq<Slot<Box<dyn Widget>>> {
        self.slots@
    }

    /// There is one slot per recorded size, and slot `k` records the size
    /// `prefs[k]`.
    pub proof fn lemma_slots_prefs(&self)
        ensures
            self.slots().len() == self@.prefs.len(),
            forall|k: int| 0 <= k < self.slots().len() ==> self@.prefs[k] == (#[trigger] self.slots()[k].pref_w,
                self.slots()[k].pref_h),
    {
    }

    /// Positions have been resolved for the layout as it now stands.
    pub closed spec fn is_resolved(&self) -> bool {
        self.resolved@.len() > 0
    }

    /// Create a new layout that will render into a region of `width × height`.
    pub fn new(width: u16, height: u16) -> (l: Self)
        ensures
            l.wf(),
            l@ == (LayoutSpec { width, height, prefs: Seq::empty(), constraints: Seq::empty() }),
            l.slots() == Seq::<Slot<Box<dyn Widget>>>::empty(),
            !l.is_resolved(),
    {
        let l = AnchorLayout {
            width,
            height,
            next_id: 1,
            slots: Vec::new(),
            constraints: Vec::new(),
            resolved: Vec::new(),
        };
        assert(l@.prefs =~= Seq::<(u16, u16)>::empty());
        assert(l.slots() =~= Seq::<Slot<Box<dyn Widget>>>::empty());
        l
    }

    /// Update the layout bounds (e.g. after a terminal resize).
    pub fn resize(&mut self, width: u16, height: u16)
        requires
            old(self).wf(),
        ensures
            final(self).wf(),
            final(self).slots() == old(self).slots(),
            final(self)@ == (LayoutSpec { width, height, ..old(self)@ }),
            !final(self).is_resolved(),
    {
        self.width = width;
        self.height = height;
        self.resolved.clear();
    }

    /// Add a widget and return its `AnchorId`.
    ///
    /// `size_hint` overrides the widget's `preferred_size()` if provided.
    pub fn add(&mut self, widget: Box<dyn Widget>, size_hint: Option<(u16, u16)>) -> (id: AnchorId)
        requires
            old(self).wf(),
            old(self)@.prefs.len() + 2 <= u32::MAX,
        ensures
            final(self).wf(),
            id@ == old(self)@.prefs.len() + 1,
            final(self)@.width == old(self)@.width,
            final(self)@.height == old(self)@.height,
            final(self)@.constraints == old(self)@.constraints,
            final(self)@.prefs.len() == old(self)@.prefs.len() + 1,
            final(self)@.prefs.subrange(0, old(self)@.prefs.len() as int) == old(self)@.prefs,
            size_hint matches Some(h) ==> final(self)@.prefs.last() == h,
            size_hint is None ==> final(self)@.prefs.last() == widget.preferred_size_spec(),
            final(self).slots().len() == old(self).slots().len() + 1,
            forall|j: int| 0 <= j < old(self).slots().len() ==> #[trigger] final(self).slots()[j]
                == old(self).slots()[j],
            final(self).slots()[old(self).slots().len() as int].widget == widget,
            !final(self).is_resolved(),
    {
        let (pref_w, pref_h) = match size_hint {
            Some(h) => h,
            None => widget.preferred_size(),
        };
        let id = AnchorId(self.next_id);
        self.next_id += 1;
        let slot = Slot::new(widget, pref_w, pref_h);
        self.slots.push(slot);
        self.resolved.clear();
        assert(self@.prefs.subrange(0, old(self)@.prefs.len() as int) =~= old(self)@.prefs);
        id
    }

    /// Add a constraint: `src_edge` of `src` is `offset` cells from `dst_edge` of `dst`.
    ///
    /// Constraints are applied in the order they were added; an edge keeps
    /// the first value any constraint gives it.
    pub fn constrain(&mut self, src: AnchorId, src_edge: Edge, dst: AnchorId, dst_edge: Edge, offset: i16)
        requires
            old(self).wf(),
        ensures
            final(self).wf(),
            final(self).slots() == old(self).slots(),
            final(self)@ == (LayoutSpec {
                constraints: old(self)@.constraints.push(Constraint { src, src_edge, dst, dst_edge, offset }),
                ..old(self)@
            }),
            !final(self).is_resolved(),
    {
        self.constraints.push(Constraint { src, src_edge, dst, dst_edge, offset });
        self.resolved.clear();
    }

    /// Convenience: pin all four edges of `id` to the container with the
    /// given margin on each side.
    pub fn fill(&mut self, id: AnchorId, margin: i16)
        requires
            old(self).wf(),
            margin > i16::MIN,
        ensures
            final(self).wf(),
            final(self).slots() == old(self).slots(),
            final(self)@ == (LayoutSpec {
                constraints: old(self)@.constraints
                    .push(Constraint { src: id, src_edge: Edge::Top, dst: container_id(), dst_edge: Edge::Top, offset: margin })
                    .push(Constraint { src: id, src_edge: Edge::Left, dst: container_id(), dst_edge: Edge::Left, offset: margin })
                    .push(Constraint { src: id, src_edge: Edge::Bottom, dst: container_id(), dst_edge: Edge::Bottom, offset: (-margin) as i16 })
                    .push(Constraint { src: id, src_edge: Edge::Right, dst: container_id(), dst_edge: Edge::Right, offset: (-margin) as i16 }),
                ..old(self)@
            }),
            !final(self).is_resolved(),
    {
        let c = Self::container();
        self.constrain(id, Edge::Top, c, Edge::Top, margin);
        self.constrain(id, Edge::Left, c, Edge::Left, margin);
        self.constrain(id, Edge::Bottom, c, Edge::Bottom, -margin);
        self.constrain(id, Edge::Right, c, Edge::Right, -margin);
    }

    /// Convenience: centre `id` horizontally within the container,
    /// using the widget's preferred width.
    pub fn constrain_centre_h(&mut self, id: AnchorId)
        requires
            old(self).wf(),
            fits_i16((old(self)@.width as i16) - (pref_of(old(self)@.prefs, id@).0 as i16)),
            fits_i16(half_toward_zero((old(self)@.width as i16) - (pref_of(old(self)@.prefs, id@).0 as i16))
                + (pref_of(old(self)@.prefs, id@).0 as i16)),
        ensures
            final(self).wf(),
            final(self).slots() == old(self).slots(),
            final(self)@ == (LayoutSpec {
                constraints: old(self)@.constraints
                    .push(Constraint { src: id, src_edge: Edge::Left, dst: container_id(), dst_edge: Edge::Left,
                        offset: half_toward_zero((old(self)@.width as i16) - (pref_of(old(self)@.prefs, id@).0 as i16)) as i16 })
                    .push(Constraint { src: id, src_edge: Edge::Right, dst: container_id(), dst_edge: Edge::Left,
                        offset: (half_toward_zero((old(self)@.width as i16) - (pref_of(old(self)@.prefs, id@).0 as i16))
                            + (pref_of(old(self)@.prefs, id@).0 as i16)) as i16 }),
                ..old(self)@
            }),
            !final(self).is_resolved(),
    {
        let (pref_w, _) = self.pref_exec(id);
        let diff: i16 = (self.width as i16) - (pref_w as i16);
        let left: i16 = diff / 2;
        self.constrain(id, Edge::Left, Self::container(), Edge::Left, left);
        self.constrain(id, Edge::Right, Self::container(), Edge::Left, left + pref_w as i16);
    }

    /// Convenience: centre `id` vertically within the container,
    /// using the widget's preferred height.
    pub fn constrain_centre_v(&mut self, id: AnchorId)
        requires
            old(self).wf(),
            fits_i16((old(self)@.height as i16) - (pref_of(old(self)@.prefs, id@).1 as i16)),
            fits_i16(half_toward_zero((old(self)@.height as i16) - (pref_of(old(self)@.prefs, id@).1 as i16))
                + (pref_of(old(self)@.prefs, id@).1 as i16)),
        ensures
            final(self).wf(),
            final(self).slots() == old(self).slots(),
            final(self)@ == (LayoutSpec {
                constraints: old(self)@.constraints
                    .push(Constraint { src: id, src_edge: Edge::Top, dst: container_id(), dst_edge: Edge::Top,
                        offset: half_toward_zero((old(self)@.height as i16) - (pref_of(old(self)@.prefs, id@).1 as i16)) as i16 })
                    .push(Constraint { src: id, src_edge: Edge::Bottom, dst: container_id(), dst_edge: Edge::Top,
                        offset: (half_toward_zero((old(self)@.height as i16) - (pref_of(old(self)@.prefs, id@).1 as i16))
                            + (pref_of(old(self)@.prefs, id@).1 as i16)) as i16 }),
                ..old(self)@
            }),
            !final(self).is_resolved(),
    {
        let (_, pref_h) = self.pref_exec(id);
        let diff: i16 = (self.height as i16) - (pref_h as i16);
        let top: i16 = diff / 2;
        self.constrain(id, Edge::Top, Self::container(), Edge::Top, top);
        self.constrain(id, Edge::Bottom, Self::container(), Edge::Top, top + pref_h as i16);
    }

    /// Convenience: pin `src` immediately after `dst` (below it) with an
    /// optional gap, and left-align them.
    pub fn below(&mut self, src: AnchorId, dst: AnchorId, gap: i16)
        requires
            old(self).wf(),
        ensures
            final(self).wf(),
            final(self).slots() == old(self).slots(),
            final(self)@ == (LayoutSpec {
                constraints: old(self)@.constraints
                    .push(Constraint { src, src_edge: Edge::Top, dst, dst_edge: Edge::Bottom, offset: gap })
                    .push(Constraint { src, src_edge: Edge::Left, dst, dst_edge: Edge::Left, offset: 0 }),
                ..old(self)@
            }),
            !final(self).is_resolved(),
    {
        self.constrain(src, Edge::Top, dst, Edge::Bottom, gap);
        self.constrain(src, Edge::Left, dst, Edge::Left, 0);
    }

    /// Convenience: pin `src` to the right of `dst` with an optional gap,
    /// and top-align them.
    pub fn right_of(&mut self, src: AnchorId, dst: AnchorId, gap: i16)
        requires
            old(self).wf(),
        ensures
            final(self).wf(),
            final(self).slots() == old(self).slots(),
            final(self)@ == (LayoutSpec {
                constraints: old(self)@.constraints
                    .push(Constraint { src, src_edge: Edge::Left, dst, dst_edge: Edge::Right, offset: gap })
                    .push(Constraint { src, src_edge: Edge::Top, dst, dst_edge: Edge::Top, offset: 0 }),
                ..old(self)@
            }),
            !final(self).is_resolved(),
    {
        self.constrain(src, Edge::Left, dst, Edge::Right, gap);
        self.constrain(src, Edge::Top, dst, Edge::Top, 0);
    }

    /// Convenience: align the left edges of `src` and `dst`.
    pub fn align_left(&mut self, src: AnchorId, dst: AnchorId)
        requires
            old(self).wf(),
        ensures
            final(self).wf(),
            final(self).slots() == old(self).slots(),
            final(self)@ == (LayoutSpec {
                constraints: old(self)@.constraints
                    .push(Constraint { src, src_edge: Edge::Left, dst, dst_edge: Edge::Left, offset: 0 }),
                ..old(self)@
            }),
            !final(self).is_resolved(),
    {
        self.constrain(src, Edge::Left, dst, Edge::Left, 0);
    }

    /// Convenience: align the right edges of `src` and `dst`.
    pub fn align_right(&mut self, src: AnchorId, dst: AnchorId)
        requires
            old(self).wf(),
        ensures
            final(self).wf(),
            final(self).slots() == old(self).slots(),
            final(self)@ == (LayoutSpec {
                constraints: old(self)@.constraints
                    .push(Constraint { src, src_edge: Edge::Right, dst, dst_edge: Edge::Right, offset: 0 }),
                ..old(self)@
            }),
            !final(self).is_resolved(),
    {
        self.constrain(src, Edge::Right, dst, Edge::Right, 0);
    }
}


/// Once a pass changes nothing and computes within `i16`, every later pass
/// does too.
proof fn lemma_fits_when_stable(l: LayoutSpec, p: nat, n: nat)
    requires
        p <= n,
        iterate_fits(l, p),
        pass(l, iterate(l, p)) == iterate(l, p),
        pass_fits(l, iterate(l, p)),
    ensures
        iterate_fits(l, n),
    decreases n - p,
{
    if p < n {
        lemma_fits_when_stable(l, p, (n - 1) as nat);
        lemma_iterate_stable(l, p, (n - 1) as nat);
    }
}

/// `prefix_fits` for `n` constraints covers every shorter prefix.
proof fn lemma_prefix_fits(s: Map<u32, Resolved>, cs: Seq<Constraint>, n: nat, i: nat)
    requires
        prefix_fits(s, cs, n),
        i < n,
    ensures
        constraint_fits(apply_prefix(s, cs, i), cs[i as int]),
    decreases n,
{
    if i + 1 < n {
        lemma_prefix_fits(s, cs, (n - 1) as nat, i);
    }
}

/// Rewriting the values of a list in place, keeping its ids, rewrites the
/// state entry of each id the same way.
proof fn lemma_list_state_same_keys(a: Seq<(AnchorId, Resolved)>, b: Seq<(AnchorId, Resolved)>)
    requires
        keys_unique(a),
        a.len() == b.len(),
        forall|q: int| 0 <= q < a.len() ==> #[trigger] b[q].0 == a[q].0,
    ensures
        keys_unique(b),
        list_state(b).dom() == list_state(a).dom(),
        forall|q: int| 0 <= q < a.len() ==> list_state(b)[#[trigger] a[q].0@] == b[q].1,
{
    assert forall|i: int, k: int| 0 <= i < k < b.len() implies b[i].0@ != b[k].0@ by {
        assert(b[i].0 == a[i].0);
        assert(b[k].0 == a[k].0);
    }
    assert forall|id: u32| #[trigger] list_state(b).dom().contains(id) <==> list_state(a).dom().contains(id) by {
        if has_key(a, id) {
            let k = choose|k: int| 0 <= k < a.len() && a[k].0@ == id;
            assert(b[k].0 == a[k].0);
        }
        if has_key(b, id) {
            let k = choose|k: int| 0 <= k < b.len() && b[k].0@ == id;
            assert(b[k].0 == a[k].0);
        }
    }
    assert(list_state(b).dom() =~= list_state(a).dom());
    assert forall|q: int| 0 <= q < a.len() implies list_state(b)[#[trigger] a[q].0@] == b[q].1 by {
        assert(b[q].0 == a[q].0);
        lemma_list_state_at(b, q);
    }
}

/// Where widget `k` is drawn on a `cw × ch` canvas, as local `(x, y, w, h)`:
/// its resolved rectangle with the corner held on the canvas and the size
/// cut to fit; no area at all for a widget of zero width or height.
pub open spec fn drawn_area(l: LayoutSpec, k: u32, cw: int, ch: int) -> (int, int, int, int) {
    let rect = rect_spec(rget(resolve_spec(l), k), pref_of(l.prefs, k).0, pref_of(l.prefs, k).1);
    if rect.width == 0 || rect.height == 0 {
        (0, 0, 0, 0)
    } else {
        let last_col = if cw >= 1 { cw - 1 } else { 0 };
        let last_row = if ch >= 1 { ch - 1 } else { 0 };
        let x = if rect.x < last_col { rect.x as int } else { last_col };
        let y = if rect.y < last_row { rect.y as int } else { last_row };
        let w = if rect.width < cw - x { rect.width as int } else { cw - x };
        let h = if rect.height < ch - y { rect.height as int } else { ch - y };
        (x, y, w, h)
    }
}

/// Local cell `(c, r)` lies in the drawn area of one of the widgets
/// `1 ..= n`.
pub open spec fn in_drawn_areas(l: LayoutSpec, n: nat, cw: int, ch: int, c: int, r: int) -> bool
    decreases n,
{
    if n == 0 {
        false
    } else {
        let (x, y, w, h) = drawn_area(l, n as u32, cw, ch);
        in_drawn_areas(l, (n - 1) as nat, cw, ch, c, r) || (w > 0 && h > 0 && x <= c < x + w && y <= r < y + h)
    }
}

/// What the layout leaves in `after` when it draws widget `w`, of id `k`,
/// over `before` on a canvas at `(oc, or)` of size `cw × ch`: the widget
/// drawn over its drawn area, or nothing when that area is empty.
#[verifier::opaque]
pub open spec fn slot_drawn(
    w: &Box<dyn Widget>, l: LayoutSpec, k: u32, caps: &TermCaps, before: CanvasModel, after: CanvasModel,
    oc: int, or: int, cw: int, ch: int,
) -> bool {
    area_drawn(w, caps, before, after, oc, or, drawn_area(l, k, cw, ch))
}

/// What `w` leaves when drawn over the local area `area` (column, row,
/// width, height) of a canvas at `(oc, or)`: nothing when it is empty.
pub open spec fn area_drawn(
    w: &Box<dyn Widget>, caps: &TermCaps, before: CanvasModel, after: CanvasModel, oc: int, or: int,
    area: (int, int, int, int),
) -> bool {
    if area.2 > 0 && area.3 > 0 {
        w.drawn(caps, before, after, oc + area.0, or + area.1, area.2, area.3)
    } else {
        after == before
    }
}

proof fn lemma_slot_drawn(
    w: &Box<dyn Widget>, l: LayoutSpec, k: u32, caps: &TermCaps, before: CanvasModel, after: CanvasModel,
    oc: int, or: int, cw: int, ch: int, area: (int, int, int, int),
)
    requires
        drawn_area(l, k, cw, ch) == area,
        area.2 > 0 && area.3 > 0 ==> w.drawn(caps, before, after, oc + area.0, or + area.1, area.2, area.3),
        !(area.2 > 0 && area.3 > 0) ==> after == before,
    ensures
        slot_drawn(w, l, k, caps, before, after, oc, or, cw, ch),
{
    reveal(slot_drawn);
    assert(area_drawn(w, caps, before, after, oc, or, area));
}

proof fn lemma_slots_drawn_none(
    ws: Seq<Slot<Box<dyn Widget>>>, l: LayoutSpec, caps: &TermCaps, m: CanvasModel, oc: int, or: int, cw: int, ch: int,
)
    ensures
        slots_drawn(ws, l, caps, m, m, oc, or, cw, ch, 0),
{
    let ms = seq![m];
    assert(ms.len() == 0 + 1 && ms[0] == m && ms[0int] == m);
}

proof fn lemma_slots_drawn_step(
    ws: Seq<Slot<Box<dyn Widget>>>, l: LayoutSpec, caps: &TermCaps, before: CanvasModel, mid: CanvasModel,
    after: CanvasModel, oc: int, or: int, cw: int, ch: int, n: nat,
)
    requires
        n < ws.len(),
        slots_drawn(ws, l, caps, before, mid, oc, or, cw, ch, n),
        slot_drawn(&ws[n as int].widget, l, (n + 1) as u32, caps, mid, after, oc, or, cw, ch),
    ensures
        slots_drawn(ws, l, caps, before, after, oc, or, cw, ch, n + 1),
{
    let ms = choose|ms: Seq<CanvasModel>| #[trigger] ms.len() == n + 1 && ms[0] == before && ms[n as int] == mid
        && forall|k: int| 0 <= k < n ==> slot_drawn(&ws[k].widget, l, (k + 1) as u32, caps, #[trigger] ms[k], ms[k + 1],
            oc, or, cw, ch);
    let ms2 = ms.push(after);
    assert forall|k: int| 0 <= k < n + 1 implies slot_drawn(&ws[k].widget, l, (k + 1) as u32, caps, #[trigger] ms2[k],
        ms2[k + 1], oc, or, cw, ch) by {
        if k < n {
            assert(ms2[k] == ms[k] && ms2[k + 1] == ms[k + 1]);
        }
    }
    assert(ms2.len() == n + 2);
}

/// The first `n` widgets of `ws` drawn one after the other, in insertion
/// order, each over what the ones before it left: there are canvases
/// `ms[0] == before, …, ms[n] == after` with widget `k` taking `ms[k]` to
/// `ms[k + 1]`.
pub open spec fn slots_drawn(
    ws: Seq<Slot<Box<dyn Widget>>>, l: LayoutSpec, caps: &TermCaps, before: CanvasModel, after: CanvasModel,
    oc: int, or: int, cw: int, ch: int, n: nat,
) -> bool {
    exists|ms: Seq<CanvasModel>| #[trigger] ms.len() == n + 1 && ms[0] == before && ms[n as int] == after
        && forall|k: int| 0 <= k < n ==> slot_drawn(&ws[k].widget, l, (k + 1) as u32, caps, #[trigger] ms[k], ms[k + 1],
            oc, or, cw, ch)
}

impl AnchorLayout {
    /// Preferred size of `id`: its slot's, or `(20, 10)` for an id with no widget.
    fn pref_exec(&self, id: AnchorId) -> (p: (u16, u16))
        requires
            self.wf(),
        ensures
            p == pref_of(self@.prefs, id@),
    {
        if 1 <= id.0 && (id.0 as usize) <= self.slots.len() {
            let s = &self.slots[(id.0 - 1) as usize];
            (s.pref_w, s.pref_h)
        } else {
            (20, 10)
        }
    }

    /// The positions before the first pass.
    fn initial_list(&self) -> (list: Vec<(AnchorId, Resolved)>)
        requires
            self.wf(),
        ensures
            keys_unique(list@),
            list_state(list@) == initial_state(self@),
            list@.len() > 0,
    {
        let mut list: Vec<(AnchorId, Resolved)> = Vec::new();
        list.push((AnchorId(0), Resolved {
            top: Some(0),
            left: Some(0),
            bottom: Some(self.height as i16),
            right: Some(self.width as i16),
        }));
        let n = self.slots.len();
        let mut k: usize = 0;
        while k < n
            invariant
                k <= n,
                n == self.slots@.len(),
                self.wf(),
                list@.len() == k + 1,
                forall|j: int| 0 <= j < list@.len() ==> (#[trigger] list@[j]).0@ == j,
                list@[0].1 == container_res(self.width, self.height),
                forall|j: int| 1 <= j < list@.len() ==> (#[trigger] list@[j]).1 == unresolved(),
            decreases n - k,
        {
            list.push((AnchorId((k + 1) as u32), Resolved::default()));
            k += 1;
        }
        let ghost l = list@;
        assert forall|i: int, j: int| 0 <= i < j < l.len() implies l[i].0@ != l[j].0@ by {
            assert(l[i].0@ == i);
            assert(l[j].0@ == j);
        }
        let ghost a = list_state(l);
        let ghost b = initial_state(self@);
        assert forall|id: u32| #[trigger] a.contains_key(id) <==> b.contains_key(id) by {
            if id <= n {
                assert(l[id as int].0@ == id);
            }
            if has_key(l, id) {
                let j = choose|j: int| 0 <= j < l.len() && l[j].0@ == id;
                assert(l[j].0@ == j);
            }
        }
        assert forall|id: u32| #[trigger] a.contains_key(id) implies a[id] == b[id] by {
            let j = choose|j: int| 0 <= j < l.len() && l[j].0@ == id;
            assert(l[j].0@ == j);
            lemma_list_state_at(l, j);
        }
        assert(a =~= b);
        list
    }

    /// Compute concrete positions for all widgets.
    ///
    /// Each pass applies every constraint whose destination edge is known
    /// (an edge keeps the first value it gets), then fills a missing edge
    /// from the opposite edge and the widget's preferred size.  Stops when a
    /// pass changes nothing or after 32 passes.
    pub fn resolve(&mut self)
        requires
            old(self).wf(),
            resolve_fits(old(self)@),
        ensures
            final(self).wf(),
            final(self).slots() == old(self).slots(),
            final(self)@ == old(self)@,
            final(self).is_resolved(),
    {
        let _ = self.try_resolve();
    }

    /// Resolve as `resolve` does, where every edge the resolver computes
    /// fits in an `i16`; otherwise return `false` and change nothing.
    pub fn try_resolve(&mut self) -> (ok: bool)
        requires
            old(self).wf(),
        ensures
            ok == resolve_fits(old(self)@),
            final(self).wf(),
            final(self).slots() == old(self).slots(),
            final(self)@ == old(self)@,
            ok ==> final(self).is_resolved(),
            !ok ==> *final(self) == *old(self),
    {
        let ghost l = self@;
        let mut list = self.initial_list();
        let mut p: usize = 0;
        let mut done = false;
        while p < MAX_PASSES && !done
            invariant
                p <= MAX_PASSES,
                MAX_PASSES == max_passes(),
                self.wf(),
                self@ == l,
                *self == *old(self),
                iterate_fits(l, p as nat),
                keys_unique(list@),
                list@.len() > 0,
                list_state(list@) == iterate(l, p as nat),
                done ==> pass(l, iterate(l, p as nat)) == iterate(l, p as nat),
                done ==> pass_fits(l, iterate(l, p as nat)),
            decreases MAX_PASSES - p,
        {
            proof {
                if resolve_fits(l) {
                    lemma_iterate_fits(l, max_passes(), p as nat);
                }
            }
            let ghost start = list@;
            let ghost s0 = list_state(start);
            let mut progress = false;
            let nc = self.constraints.len();
            let mut i: usize = 0;
            while i < nc
                invariant
                    i <= nc,
                    nc == l.constraints.len(),
                    self@ == l,
                    self.wf(),
                    *self == *old(self),
                    keys_unique(list@),
                    list_state(list@) == apply_prefix(s0, l.constraints, i as nat),
                    prefix_fits(s0, l.constraints, i as nat),
                    resolve_fits(l) ==> pass_fits(l, s0),
                    !progress ==> list@ == start,
                    list@.len() > 0,
                decreases nc - i,
            {
                let c = self.constraints[i];
                if !constraint_fits_exec(&list, c) {
                    proof {
                        if resolve_fits(l) {
                            lemma_prefix_fits(s0, l.constraints, nc as nat, i as nat);
                        }
                    }
                    return false;
                }
                if apply_constraint_exec(&mut list, c) {
                    progress = true;
                }
                i += 1;
            }
            let ghost mid = list@;
            let ghost smid = list_state(mid);
            let mut j: usize = 0;
            while j < list.len()
                invariant
                    j <= list@.len(),
                    list@.len() == mid.len(),
                    mid.len() > 0,
                    self.wf(),
                    self@ == l,
                    *self == *old(self),
                    keys_unique(mid),
                    smid == list_state(mid),
                    resolve_fits(l) ==> derive_all_fits(l, smid),
                    forall|q: int| 0 <= q < j && mid[q].0@ != 0 ==> derive_fits(#[trigger] mid[q].1,
                        pref_of(l.prefs, mid[q].0@).0 as i16, pref_of(l.prefs, mid[q].0@).1 as i16),
                    forall|q: int| 0 <= q < mid.len() ==> #[trigger] list@[q].0 == mid[q].0,
                    forall|q: int| 0 <= q < j ==> #[trigger] list@[q].1 == (if mid[q].0@ == 0 { mid[q].1 } else {
                        derive_res(mid[q].1, pref_of(l.prefs, mid[q].0@).0 as i16, pref_of(l.prefs, mid[q].0@).1 as i16) }),
                    forall|q: int| j <= q < mid.len() ==> #[trigger] list@[q] == mid[q],
                    !progress ==> list@ == start && mid == start,
                decreases mid.len() - j,
            {
                let (id, r) = list[j];
                if id.0 != 0 {
                    proof {
                        lemma_list_state_at(mid, j as int);
                    }
                    let (pw, ph) = self.pref_exec(id);
                    if !derive_fits_exec(r, pw as i16, ph as i16) {
                        return false;
                    }
                    let d = derive_exec(r, pw as i16, ph as i16);
                    if d != r {
                        progress = true;
                    }
                    list.set(j, (id, d));
                }
                j += 1;
            }
            proof {
                assert forall|id: u32| #[trigger] smid.contains_key(id) && id != 0 implies
                    derive_fits(smid[id], pref_of(l.prefs, id).0 as i16, pref_of(l.prefs, id).1 as i16) by {
                    let q = choose|q: int| 0 <= q < mid.len() && mid[q].0@ == id;
                    lemma_list_state_at(mid, q);
                    assert(derive_fits(mid[q].1, pref_of(l.prefs, mid[q].0@).0 as i16,
                        pref_of(l.prefs, mid[q].0@).1 as i16));
                }
                assert(pass_fits(l, s0));
                lemma_list_state_same_keys(mid, list@);
                let a = list_state(list@);
                let b = derive_all(l, smid);
                assert forall|id: u32| #[trigger] a.contains_key(id) implies a[id] == b[id] by {
                    let q = choose|q: int| 0 <= q < mid.len() && mid[q].0@ == id;
                    lemma_list_state_at(mid, q);
                }
                assert(a =~= b);
                if !progress {
                    assert(list@ =~= start);
                }
            }
            if !progress {
                done = true;
            }
            p += 1;
        }
        proof {
            if done {
                lemma_iterate_stable(l, p as nat, max_passes());
                lemma_fits_when_stable(l, p as nat, max_passes());
            }
        }
        self.resolved = list;
        true
    }

    /// The resolved position recorded for `id` (no edge known when absent).
    fn lookup(&self, id: AnchorId) -> (r: Resolved)
        requires
            self.wf(),
            self.is_resolved(),
        ensures
            r == rget(resolve_spec(self@), id@),
    {
        match find_entry(&self.resolved, id) {
            Some(j) => {
                proof {
                    lemma_list_state_at(self.resolved@, j as int);
                }
                self.resolved[j].1
            },
            None => Resolved::default(),
        }
    }

    /// Return the resolved `Rect` for a widget, resolving first if needed.
    /// An edge that stayed undetermined counts as 0, and a size that could
    /// not be derived from two edges is the preferred size.
    pub fn rect_of(&mut self, id: AnchorId) -> (r: Rect)
        requires
            old(self).wf(),
            resolve_fits(old(self)@),
            rect_fits(rget(resolve_spec(old(self)@), id@)),
        ensures
            final(self).wf(),
            final(self).slots() == old(self).slots(),
            final(self)@ == old(self)@,
            final(self).is_resolved(),
            r == rect_spec(rget(resolve_spec(old(self)@), id@), pref_of(old(self)@.prefs, id@).0,
                pref_of(old(self)@.prefs, id@).1),
    {
        if self.resolved.len() == 0 {
            self.resolve();
        }
        let (pw, ph) = self.pref_exec(id);
        self.lookup(id).to_rect(pw, ph)
    }

    /// The rectangle of `id` as `rect_of` gives it, where resolving the
    /// layout and measuring `id` compute within `i16`; otherwise `None`.
    pub fn try_rect_of(&mut self, id: AnchorId) -> (r: Option<Rect>)
        requires
            old(self).wf(),
        ensures
            final(self).wf(),
            final(self).slots() == old(self).slots(),
            final(self)@ == old(self)@,
            r is Some <==> resolve_fits(old(self)@) && rect_fits(rget(resolve_spec(old(self)@), id@)),
            r matches Some(rect) ==> rect == layout_rect(old(self)@, id@),
    {
        if self.resolved.len() == 0 {
            if !self.try_resolve() {
                return None;
            }
        }
        let found = self.lookup(id);
        if !rect_fits_exec(&found) {
            return None;
        }
        let (pw, ph) = self.pref_exec(id);
        Some(found.to_rect(pw, ph))
    }

    /// Whether `render` can draw this layout: resolving it, and measuring
    /// every widget, compute within `i16`.
    pub fn renderable(&mut self) -> (ok: bool)
        requires
            old(self).wf(),
        ensures
            final(self).wf(),
            final(self).slots() == old(self).slots(),
            final(self)@ == old(self)@,
            ok <==> resolve_fits(old(self)@) && forall|k: u32| 1 <= k <= old(self)@.prefs.len()
                ==> rect_fits(#[trigger] rget(resolve_spec(old(self)@), k)),
    {
        if self.resolved.len() == 0 {
            if !self.try_resolve() {
                return false;
            }
        }
        let n = self.slots.len();
        let mut i: usize = 0;
        while i < n
            invariant
                i <= n,
                n == self@.prefs.len(),
                self.wf(),
                self.is_resolved(),
                self.slots() == old(self).slots(),
                self@ == old(self)@,
                forall|k: u32| 1 <= k <= i ==> rect_fits(#[trigger] rget(resolve_spec(self@), k)),
            decreases n - i,
        {
            let found = self.lookup(AnchorId((i + 1) as u32));
            if !rect_fits_exec(&found) {
                return false;
            }
            i += 1;
        }
        true
    }

    /// Resolve all positions and render every widget into `canvas`.
    ///
    /// Widgets are rendered in insertion order (the order `add()` was called),
    /// each clipped to the canvas; later widgets paint over earlier ones if
    /// they overlap.  Nothing outside the canvas region changes.
    #[verifier::rlimit(40)]
    pub fn render(&mut self, canvas: &mut SubCanvas<'_>, caps: &TermCaps)
        requires
            old(self).wf(),
            resolve_fits(old(self)@),
            forall|k: u32| 1 <= k <= old(self)@.prefs.len() ==> rect_fits(#[trigger] rget(resolve_spec(old(self)@), k)),
            old(canvas).wf(),
            old(canvas).width + 2 <= u16::MAX,
        ensures
            final(self).wf(),
            final(self).slots() == old(self).slots(),
            final(self)@ == old(self)@,
            final(self).is_resolved(),
            final(canvas).same_frame(old(canvas)),
            final(canvas).wf(),
            unchanged_outside(old(canvas).parent@, final(canvas).parent@, old(canvas).origin_col as int,
                old(canvas).origin_row as int, old(canvas).width as int, old(canvas).height as int),
            forall|c: int, r: int| #![trigger final(canvas).parent@.at(c, r)]
                old(canvas).parent@.in_bounds(c, r) && !in_drawn_areas(old(self)@, old(self)@.prefs.len(),
                old(canvas).width as int, old(canvas).height as int, c - old(canvas).origin_col, r - old(canvas).origin_row)
                ==> final(canvas).parent@.at(c, r) == old(canvas).parent@.at(c, r),
            slots_drawn(old(self).slots(), old(self)@, caps, old(canvas).parent@, final(canvas).parent@,
                old(canvas).origin_col as int, old(canvas).origin_row as int, old(canvas).width as int,
                old(canvas).height as int, old(self)@.prefs.len()),
            *final(final(canvas).parent) == *final(old(canvas).parent),
    {
        self.resolve();
        let ghost oc = canvas.origin_col as int;
        let ghost or = canvas.origin_row as int;
        let ghost cw0 = canvas.width as int;
        let ghost ch0 = canvas.height as int;
        let ghost m0 = canvas.parent@;
        proof {
            lemma_unchanged_outside_refl(m0, oc, or, cw0, ch0);
        }
        let n = self.slots.len();
        proof { lemma_slots_drawn_none(self.slots(), self@, caps, m0, oc, or, cw0, ch0); }
        let mut i: usize = 0;
        while i < n
            invariant
                i <= n,
                n == self.slots@.len(),
                self.wf(),
                self@ == old(self)@,
                self.is_resolved(),
                forall|k: u32| 1 <= k <= self@.prefs.len() ==> rect_fits(#[trigger] rget(resolve_spec(self@), k)),
                canvas.wf(),
                canvas.origin_col == oc,
                canvas.origin_row == or,
                canvas.width == cw0,
                canvas.height == ch0,
                cw0 + 2 <= u16::MAX,
                unchanged_outside(m0, canvas.parent@, oc, or, cw0, ch0),
                forall|c: int, r: int| #![trigger canvas.parent@.at(c, r)]
                    m0.in_bounds(c, r) && !in_drawn_areas(self@, i as nat, cw0, ch0, c - oc, r - or)
                    ==> canvas.parent@.at(c, r) == m0.at(c, r),
                self.slots() == old(self).slots(),
                self.slots().len() == n,
                slots_drawn(self.slots(), self@, caps, m0, canvas.parent@, oc, or, cw0, ch0, i as nat),
                *final(canvas.parent) == *final(old(canvas).parent),
            decreases n - i,
        {
            let ghost before_slot = canvas.parent@;
            let id = AnchorId((i + 1) as u32);
            let (pw, ph) = self.pref_exec(id);
            let rect = self.lookup(id).to_rect(pw, ph);
            if rect.width != 0 && rect.height != 0 {
                let cwid = canvas.width();
                let chgt = canvas.height();
                let x = if rect.x < cwid.saturating_sub(1) { rect.x } else { cwid.saturating_sub(1) };
                let y = if rect.y < chgt.saturating_sub(1) { rect.y } else { chgt.saturating_sub(1) };
                let w = if rect.width < cwid.saturating_sub(x) { rect.width } else { cwid.saturating_sub(x) };
                let h = if rect.height < chgt.saturating_sub(y) { rect.height } else { chgt.saturating_sub(y) };
                assert((x as int, y as int, w as int, h as int) == drawn_area(self@, (i + 1) as u32, cw0, ch0));
                if w != 0 && h != 0 {
                    let ghost before = canvas.parent@;
                    let mut sub = canvas.sub(x, y, w, h);
                    self.slots[i].widget.render(&mut sub, caps);
                    proof {
                        assert(self.slots()[i as int] == self.slots@[i as int]);
                        assert(before == before_slot);
                        lemma_slot_drawn(&self.slots()[i as int].widget, self@, (i + 1) as u32, caps, before_slot,
                            sub.parent@, oc, or, cw0, ch0, (x as int, y as int, w as int, h as int));
                        lemma_unchanged_outside_widen(before, sub.parent@, oc + x, or + y, w as int, h as int,
                            oc, or, cw0, ch0);
                        lemma_unchanged_outside_trans(m0, before, sub.parent@, oc, or, cw0, ch0);
                        let after = sub.parent@;
                        assert forall|c: int, r: int| #![trigger after.at(c, r)]
                            m0.in_bounds(c, r) && !in_drawn_areas(self@, (i + 1) as nat, cw0, ch0, c - oc, r - or)
                            implies after.at(c, r) == m0.at(c, r) by {
                            assert(before.at(c, r) == m0.at(c, r));
                        }
                    }
                }
            }
            proof {
                let now = canvas.parent@;
                if now == before_slot {
                    lemma_slot_drawn(&self.slots()[i as int].widget, self@, (i + 1) as u32, caps, before_slot, now, oc, or,
                        cw0, ch0, drawn_area(self@, (i + 1) as u32, cw0, ch0));
                }
                lemma_slots_drawn_step(self.slots(), self@, caps, m0, before_slot, now, oc, or, cw0, ch0, i as nat);
                assert forall|c: int, r: int| #![trigger now.at(c, r)]
                    m0.in_bounds(c, r) && !in_drawn_areas(self@, (i + 1) as nat, cw0, ch0, c - oc, r - or)
                    implies now.at(c, r) == m0.at(c, r) by {
                    assert(!in_drawn_areas(self@, i as nat, cw0, ch0, c - oc, r - or));
                    assert(before_slot.at(c, r) == m0.at(c, r));
                }
            }
            i += 1;
        }
    }
}

// ---------------------------------------------------------------------------
// Where the placement helpers put a widget
// ---------------------------------------------------------------------------

/// A widget that no constraint names as its source sits at `(0, 0)` with its
/// preferred size.
pub proof fn lemma_unconstrained_rect(l: LayoutSpec, a: AnchorId)
    requires
        a != container_id(),
        forall|j: int| 0 <= j < l.constraints.len() ==> (#[trigger] l.constraints[j]).src != a,
    ensures
        rect_fits(rget(resolve_spec(l), a@)),
        rect_spec(rget(resolve_spec(l), a@), pref_of(l.prefs, a@).0, pref_of(l.prefs, a@).1)
            == (Rect { x: 0, y: 0, width: pref_of(l.prefs, a@).0, height: pref_of(l.prefs, a@).1 }),
{
    assert forall|j: int| 0 <= j < l.constraints.len() implies (#[trigger] l.constraints[j]).src@ != a@ by {
        lemma_anchor_id(l.constraints[j].src@, l.constraints[j].src);
        lemma_anchor_id(a@, a);
    }
    lemma_anchor_id(0, a);
    lemma_anchor_id(a@, a);
    lemma_unconstrained_unresolved(l, a@);
}

/// `fill(a, margin)` on a widget with no earlier constraint of its own puts
/// each of its edges `margin` cells inside the container's: top and left at
/// `margin`, bottom at `height − margin`, right at `width − margin`.
pub proof fn lemma_fill_places(l: LayoutSpec, a: AnchorId, margin: i16, i: int)
    requires
        1 <= a@ <= l.prefs.len(),
        0 <= i,
        i + 4 <= l.constraints.len(),
        l.constraints[i] == (Constraint { src: a, src_edge: Edge::Top, dst: container_id(), dst_edge: Edge::Top,
            offset: margin }),
        l.constraints[i + 1] == (Constraint { src: a, src_edge: Edge::Left, dst: container_id(),
            dst_edge: Edge::Left, offset: margin }),
        l.constraints[i + 2] == (Constraint { src: a, src_edge: Edge::Bottom, dst: container_id(),
            dst_edge: Edge::Bottom, offset: (-margin) as i16 }),
        l.constraints[i + 3] == (Constraint { src: a, src_edge: Edge::Right, dst: container_id(),
            dst_edge: Edge::Right, offset: (-margin) as i16 }),
        forall|j: int| 0 <= j < i ==> (#[trigger] l.constraints[j]).src != a,
    ensures
        rget(resolve_spec(l), a@) == (Resolved {
            top: Some(margin),
            left: Some(margin),
            bottom: Some(((l.height as i16) + ((-margin) as i16)) as i16),
            right: Some(((l.width as i16) + ((-margin) as i16)) as i16),
        }),
{
    lemma_anchor_id(0, a);
    lemma_anchor_id(a@, a);
    let cs = l.constraints;
    assert forall|j: int| 0 <= j < i + 0 implies !(#[trigger] cs[j].src@ == cs[i + 0].src@
        && cs[j].src_edge == cs[i + 0].src_edge) by {
        lemma_anchor_id(cs[j].src@, cs[j].src);
    }
    assert forall|j: int| 0 <= j < i + 1 implies !(#[trigger] cs[j].src@ == cs[i + 1].src@
        && cs[j].src_edge == cs[i + 1].src_edge) by {
        lemma_anchor_id(cs[j].src@, cs[j].src);
    }
    assert forall|j: int| 0 <= j < i + 2 implies !(#[trigger] cs[j].src@ == cs[i + 2].src@
        && cs[j].src_edge == cs[i + 2].src_edge) by {
        lemma_anchor_id(cs[j].src@, cs[j].src);
    }
    assert forall|j: int| 0 <= j < i + 3 implies !(#[trigger] cs[j].src@ == cs[i + 3].src@
        && cs[j].src_edge == cs[i + 3].src_edge) by {
        lemma_anchor_id(cs[j].src@, cs[j].src);
    }
    lemma_container_constraint_places(l, i);
    lemma_container_constraint_places(l, i + 1);
    lemma_container_constraint_places(l, i + 2);
    lemma_container_constraint_places(l, i + 3);
}

/// The container is the box `(0, 0, width, height)`: a widget filled into
/// it with no margin, and with no earlier constraint of its own, gets
/// exactly that rectangle.
pub proof fn lemma_fill_container_box(l: LayoutSpec, a: AnchorId, i: int)
    requires
        1 <= a@ <= l.prefs.len(),
        1 <= l.width <= i16::MAX,
        1 <= l.height <= i16::MAX,
        0 <= i,
        i + 4 <= l.constraints.len(),
        l.constraints[i] == (Constraint { src: a, src_edge: Edge::Top, dst: container_id(), dst_edge: Edge::Top,
            offset: 0 }),
        l.constraints[i + 1] == (Constraint { src: a, src_edge: Edge::Left, dst: container_id(),
            dst_edge: Edge::Left, offset: 0 }),
        l.constraints[i + 2] == (Constraint { src: a, src_edge: Edge::Bottom, dst: container_id(),
            dst_edge: Edge::Bottom, offset: 0 }),
        l.constraints[i + 3] == (Constraint { src: a, src_edge: Edge::Right, dst: container_id(),
            dst_edge: Edge::Right, offset: 0 }),
        forall|j: int| 0 <= j < i ==> (#[trigger] l.constraints[j]).src != a,
    ensures
        rect_fits(rget(resolve_spec(l), a@)),
        rect_spec(rget(resolve_spec(l), a@), pref_of(l.prefs, a@).0, pref_of(l.prefs, a@).1)
            == (Rect { x: 0, y: 0, width: l.width, height: l.height }),
{
    lemma_fill_places(l, a, 0, i);
}

/// The rectangle that `rect_of` gives for the widget with id `id` in `l`.
pub open spec fn layout_rect(l: LayoutSpec, id: u32) -> Rect {
    rect_spec(rget(resolve_spec(l), id), pref_of(l.prefs, id).0, pref_of(l.prefs, id).1)
}

/// Distinct ids have distinct numbers, and a widget's id is not 0.
proof fn lemma_ids_distinct(a: AnchorId, b: AnchorId)
    ensures
        a != b ==> a@ != b@,
        a != container_id() ==> a@ != 0,
{
    lemma_anchor_id(a@, a);
    lemma_anchor_id(b@, b);
    lemma_anchor_id(0, a);
}

/// `below(src, dst, gap)`: when these are the only constraints on `src`
/// and `dst`'s bottom and left edges are determined in time (within fewer
/// passes than the limit), `src` starts `gap` rows under `dst`'s bottom
/// edge, left-aligned with it.
pub proof fn lemma_below_places(l: LayoutSpec, src: AnchorId, dst: AnchorId, gap: i16, i: int, k: nat)
    requires
        src != container_id(),
        src != dst,
        0 <= i,
        i + 1 < l.constraints.len(),
        l.constraints[i] == (Constraint { src, src_edge: Edge::Top, dst, dst_edge: Edge::Bottom, offset: gap }),
        l.constraints[i + 1] == (Constraint { src, src_edge: Edge::Left, dst, dst_edge: Edge::Left, offset: 0 }),
        forall|j: int| 0 <= j < l.constraints.len() && (#[trigger] l.constraints[j]).src == src ==> j == i || j == i + 1,
        k < max_passes(),
        rget(iterate(l, k), dst@).bottom is Some,
        rget(iterate(l, k), dst@).left is Some,
        rget(resolve_spec(l), dst@).top matches Some(t) && 0 <= t && t < rget(resolve_spec(l), dst@).bottom->0,
        gap >= 0,
        fits_i16(rget(resolve_spec(l), dst@).bottom->0 + gap),
    ensures
        layout_rect(l, src@).y == layout_rect(l, dst@).y + layout_rect(l, dst@).height + gap,
        layout_rect(l, src@).x == layout_rect(l, dst@).x,
{
    lemma_ids_distinct(src, dst);
    let cs = l.constraints;
    assert forall|j: int| 0 <= j < cs.len() && #[trigger] cs[j].src@ == src@ implies j == i || j == i + 1 by {
        lemma_ids_distinct(cs[j].src, src);
    }
    lemma_tied_edge_resolves(l, src@, Edge::Top, dst@, Edge::Bottom, gap, i, k);
    lemma_tied_edge_resolves(l, src@, Edge::Left, dst@, Edge::Left, 0, i + 1, k);
}

/// `right_of(src, dst, gap)`: when these are the only constraints on `src`
/// and `dst`'s right and top edges are determined in time, `src` starts
/// `gap` columns past `dst`'s right edge, top-aligned with it.
pub proof fn lemma_right_of_places(l: LayoutSpec, src: AnchorId, dst: AnchorId, gap: i16, i: int, k: nat)
    requires
        src != container_id(),
        src != dst,
        0 <= i,
        i + 1 < l.constraints.len(),
        l.constraints[i] == (Constraint { src, src_edge: Edge::Left, dst, dst_edge: Edge::Right, offset: gap }),
        l.constraints[i + 1] == (Constraint { src, src_edge: Edge::Top, dst, dst_edge: Edge::Top, offset: 0 }),
        forall|j: int| 0 <= j < l.constraints.len() && (#[trigger] l.constraints[j]).src == src ==> j == i || j == i + 1,
        k < max_passes(),
        rget(iterate(l, k), dst@).right is Some,
        rget(iterate(l, k), dst@).top is Some,
        rget(resolve_spec(l), dst@).left matches Some(x) && 0 <= x && x < rget(resolve_spec(l), dst@).right->0,
        gap >= 0,
        fits_i16(rget(resolve_spec(l), dst@).right->0 + gap),
    ensures
        layout_rect(l, src@).x == layout_rect(l, dst@).x + layout_rect(l, dst@).width + gap,
        layout_rect(l, src@).y == layout_rect(l, dst@).y,
{
    lemma_ids_distinct(src, dst);
    let cs = l.constraints;
    assert forall|j: int| 0 <= j < cs.len() && #[trigger] cs[j].src@ == src@ implies j == i || j == i + 1 by {
        lemma_ids_distinct(cs[j].src, src);
    }
    lemma_tied_edge_resolves(l, src@, Edge::Left, dst@, Edge::Right, gap, i, k);
    lemma_tied_edge_resolves(l, src@, Edge::Top, dst@, Edge::Top, 0, i + 1, k);
}

/// `align_left(src, dst)`: when this is the only constraint on `src` and
/// `dst`'s left edge is determined in time, both start in the same column.
pub proof fn lemma_align_left_places(l: LayoutSpec, src: AnchorId, dst: AnchorId, i: int, k: nat)
    requires
        src != container_id(),
        src != dst,
        0 <= i < l.constraints.len(),
        l.constraints[i] == (Constraint { src, src_edge: Edge::Left, dst, dst_edge: Edge::Left, offset: 0 }),
        forall|j: int| 0 <= j < l.constraints.len() && (#[trigger] l.constraints[j]).src == src ==> j == i,
        k < max_passes(),
        rget(iterate(l, k), dst@).left is Some,
    ensures
        layout_rect(l, src@).x == layout_rect(l, dst@).x,
{
    lemma_ids_distinct(src, dst);
    let cs = l.constraints;
    assert forall|j: int| 0 <= j < cs.len() && #[trigger] cs[j].src@ == src@ implies j == i by {
        lemma_ids_distinct(cs[j].src, src);
    }
    lemma_tied_edge_resolves(l, src@, Edge::Left, dst@, Edge::Left, 0, i, k);
}

/// `align_right(src, dst)`: when this is the only constraint on `src`,
/// `dst`'s right edge is determined in time and `src`'s preferred width
/// fits left of it, both end in the same column.
pub proof fn lemma_align_right_places(l: LayoutSpec, src: AnchorId, dst: AnchorId, i: int, k: nat)
    requires
        src != container_id(),
        src != dst,
        0 <= i < l.constraints.len(),
        l.constraints[i] == (Constraint { src, src_edge: Edge::Right, dst, dst_edge: Edge::Right, offset: 0 }),
        forall|j: int| 0 <= j < l.constraints.len() && (#[trigger] l.constraints[j]).src == src ==> j == i,
        k < max_passes(),
        rget(iterate(l, k), dst@).right is Some,
        rget(resolve_spec(l), dst@).left matches Some(x) && 0 <= x && x < rget(resolve_spec(l), dst@).right->0,
        0 < pref_of(l.prefs, src@).0 <= rget(resolve_spec(l), dst@).right->0,
    ensures
        layout_rect(l, src@).x + layout_rect(l, src@).width == layout_rect(l, dst@).x + layout_rect(l, dst@).width,
{
    lemma_ids_distinct(src, dst);
    let cs = l.constraints;
    assert forall|j: int| 0 <= j < cs.len() && #[trigger] cs[j].src@ == src@ implies j == i by {
        lemma_ids_distinct(cs[j].src, src);
    }
    lemma_tied_edge_resolves(l, src@, Edge::Right, dst@, Edge::Right, 0, i, k);
    lemma_left_derived(l, src@);
}

} // verus!
