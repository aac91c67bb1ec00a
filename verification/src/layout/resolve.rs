//! The resolution of anchor constraints, stated over abstract layouts.

use vstd::prelude::*;
use crate::layout::anchor::AnchorId;

verus! {

/// Which edge of a widget a constraint refers to.
#[derive(Debug, Clone, Copy, PartialEq, Eq, Structural)]
pub enum Edge {
    Top,
    Right,
    Bottom,
    Left,
}

/// A single constraint: widget `src`'s `src_edge` should be `offset` cells
/// from widget `dst`'s `dst_edge`.
///
/// Positive offsets:
/// - `Top`:    pushes the top edge down (increases y)
/// - `Left`:   pushes the left edge right (increases x)
/// - `Bottom`: pushes the bottom edge up (decreases effective height)
/// - `Right`:  pushes the right edge left (decreases effective width)
#[derive(Debug, Clone, Copy)]
pub struct Constraint {
    pub src: AnchorId,
    pub src_edge: Edge,
    pub dst: AnchorId,
    pub dst_edge: Edge,
    pub offset: i16,
}

/// A partially-resolved position.  `None` means not yet determined.
#[derive(Debug, Clone, Copy, PartialEq, Eq, Structural)]
pub struct Resolved {
    pub top: Option<i16>,
    pub left: Option<i16>,
    pub bottom: Option<i16>,
    pub right: Option<i16>,
}

impl Default for Resolved {
    fn default() -> (r: Resolved)
        ensures
            r == unresolved(),
    {
        Resolved { top: None, left: None, bottom: None, right: None }
    }
}

/// A position with no edge determined.
pub open spec fn unresolved() -> Resolved {
    Resolved { top: None, left: None, bottom: None, right: None }
}

/// The value of edge `e` of `r`.
pub open spec fn edge_of(r: Resolved, e: Edge) -> Option<i16> {
    match e {
        Edge::Top => r.top,
        Edge::Left => r.left,
        Edge::Bottom => r.bottom,
        Edge::Right => r.right,
    }
}

/// `r` with edge `e` determined as `v`.
pub open spec fn with_edge(r: Resolved, e: Edge, v: i16) -> Resolved {
    match e {
        Edge::Top => Resolved { top: Some(v), ..r },
        Edge::Left => Resolved { left: Some(v), ..r },
        Edge::Bottom => Resolved { bottom: Some(v), ..r },
        Edge::Right => Resolved { right: Some(v), ..r },
    }
}

/// The position recorded for `id` in a resolution state; ids with no entry
/// have no edge determined.
pub open spec fn rget(s: Map<u32, Resolved>, id: u32) -> Resolved {
    if s.contains_key(id) {
        s[id]
    } else {
        unresolved()
    }
}

/// What a layout is made of, as far as resolution is concerned.
pub struct LayoutSpec {
    pub width: u16,
    pub height: u16,
    /// Preferred `(width, height)` of the widget with id `k + 1`.
    pub prefs: Seq<(u16, u16)>,
    pub constraints: Seq<Constraint>,
}

/// Preferred size of `id`: its slot's, or `(20, 10)` for an id with no widget.
pub open spec fn pref_of(prefs: Seq<(u16, u16)>, id: u32) -> (u16, u16) {
    if 1 <= id <= prefs.len() {
        prefs[id - 1]
    } else {
        (20, 10)
    }
}

/// The seeded position of the container: the whole `width × height` region.
pub open spec fn container_res(width: u16, height: u16) -> Resolved {
    Resolved { top: Some(0), left: Some(0), bottom: Some(height as i16), right: Some(width as i16) }
}

/// The state before the first pass: the container seeded, every widget
/// present with no edge determined.
pub open spec fn initial_state(l: LayoutSpec) -> Map<u32, Resolved> {
    Map::new(
        |id: u32| id <= l.prefs.len(),
        |id: u32| if id == 0 { container_res(l.width, l.height) } else { unresolved() },
    )
}

/// `v` is an `i16`.
pub open spec fn fits_i16(v: int) -> bool {
    i16::MIN <= v <= i16::MAX
}

/// Applying `c` to `s` computes no out-of-range sum.
pub open spec fn constraint_fits(s: Map<u32, Resolved>, c: Constraint) -> bool {
    edge_of(rget(s, c.dst@), c.dst_edge) matches Some(v) ==> fits_i16(v + c.offset)
}

/// One constraint step: when `dst`'s edge is known and `src`'s edge is not
/// yet, `src`'s edge becomes `dst`'s edge plus the offset.  A determined edge
/// is never overwritten.
pub open spec fn apply_constraint(s: Map<u32, Resolved>, c: Constraint) -> Map<u32, Resolved> {
    match edge_of(rget(s, c.dst@), c.dst_edge) {
        Some(v) => if edge_of(rget(s, c.src@), c.src_edge) is None {
            s.insert(c.src@, with_edge(rget(s, c.src@), c.src_edge, (v + c.offset) as i16))
        } else {
            s
        },
        None => s,
    }
}

/// The first `n` constraints of `cs` applied in order.
pub open spec fn apply_prefix(s: Map<u32, Resolved>, cs: Seq<Constraint>, n: nat) -> Map<u32, Resolved>
    decreases n,
{
    if n == 0 {
        s
    } else {
        apply_constraint(apply_prefix(s, cs, (n - 1) as nat), cs[n - 1])
    }
}

/// No step of `apply_prefix(s, cs, n)` computes an out-of-range sum.
pub open spec fn prefix_fits(s: Map<u32, Resolved>, cs: Seq<Constraint>, n: nat) -> bool
    decreases n,
{
    n == 0 || (prefix_fits(s, cs, (n - 1) as nat) && constraint_fits(apply_prefix(s, cs, (n - 1) as nat), cs[n - 1]))
}

/// Fill a missing edge from the opposite one and the preferred size:
/// bottom = top + height, then top = bottom − height, right = left + width,
/// then left = right − width.
pub open spec fn derive_res(r: Resolved, pw: i16, ph: i16) -> Resolved {
    let bottom = if r.bottom is None && r.top is Some { Some((r.top->0 + ph) as i16) } else { r.bottom };
    let top = if r.top is None && bottom is Some { Some((bottom->0 - ph) as i16) } else { r.top };
    let right = if r.right is None && r.left is Some { Some((r.left->0 + pw) as i16) } else { r.right };
    let left = if r.left is None && right is Some { Some((right->0 - pw) as i16) } else { r.left };
    Resolved { top, left, bottom, right }
}

/// `derive_res(r, pw, ph)` computes no out-of-range sum.
pub open spec fn derive_fits(r: Resolved, pw: i16, ph: i16) -> bool {
    &&& (r.bottom is None && r.top is Some) ==> fits_i16(r.top->0 + ph)
    &&& (r.top is None && r.bottom is Some) ==> fits_i16(r.bottom->0 - ph)
    &&& (r.right is None && r.left is Some) ==> fits_i16(r.left->0 + pw)
    &&& (r.left is None && r.right is Some) ==> fits_i16(r.right->0 - pw)
}

/// Every entry but the container's derived from its preferred size.
pub open spec fn derive_all(l: LayoutSpec, s: Map<u32, Resolved>) -> Map<u32, Resolved> {
    Map::new(
        |id: u32| s.contains_key(id),
        |id: u32| if id == 0 {
            s[id]
        } else {
            derive_res(s[id], pref_of(l.prefs, id).0 as i16, pref_of(l.prefs, id).1 as i16)
        },
    )
}

/// Deriving the sizes of every widget computes within `i16`.
pub open spec fn derive_all_fits(l: LayoutSpec, s: Map<u32, Resolved>) -> bool {
    forall|id: u32| #[trigger] s.contains_key(id) && id != 0 ==>
        derive_fits(s[id], pref_of(l.prefs, id).0 as i16, pref_of(l.prefs, id).1 as i16)
}

/// One resolution pass: every constraint in order, then the size derivation.
pub open spec fn pass(l: LayoutSpec, s: Map<u32, Resolved>) -> Map<u32, Resolved> {
    derive_all(l, apply_prefix(s, l.constraints, l.constraints.len()))
}

/// A pass from `s` computes no sum outside `i16`.
pub open spec fn pass_fits(l: LayoutSpec, s: Map<u32, Resolved>) -> bool {
    &&& prefix_fits(s, l.constraints, l.constraints.len())
    &&& derive_all_fits(l, apply_prefix(s, l.constraints, l.constraints.len()))
}

/// The state after `n` passes.
pub open spec fn iterate(l: LayoutSpec, n: nat) -> Map<u32, Resolved>
    decreases n,
{
    if n == 0 {
        initial_state(l)
    } else {
        pass(l, iterate(l, (n - 1) as nat))
    }
}

/// The first `n` passes compute no sum outside `i16`.
pub open spec fn iterate_fits(l: LayoutSpec, n: nat) -> bool
    decreases n,
{
    n == 0 || (iterate_fits(l, (n - 1) as nat) && pass_fits(l, iterate(l, (n - 1) as nat)))
}

/// The number of passes the resolver makes at most.
pub open spec fn max_passes() -> nat {
    32
}

/// The resolved positions of a layout.
pub open spec fn resolve_spec(l: LayoutSpec) -> Map<u32, Resolved> {
    iterate(l, max_passes())
}

/// Resolving the layout computes no sum outside `i16` (where the resolver
/// would overflow).
pub open spec fn resolve_fits(l: LayoutSpec) -> bool {
    iterate_fits(l, max_passes())
}

/// When the first `n` passes compute within `i16`, so does each of them.
pub proof fn lemma_iterate_fits(l: LayoutSpec, n: nat, k: nat)
    requires
        iterate_fits(l, n),
        k < n,
    ensures
        pass_fits(l, iterate(l, k)),
    decreases n,
{
    if k < n - 1 {
        lemma_iterate_fits(l, (n - 1) as nat, k);
    }
}

/// Once a pass changes nothing, further passes change nothing.
pub proof fn lemma_iterate_stable(l: LayoutSpec, k: nat, n: nat)
    requires
        k <= n,
        pass(l, iterate(l, k)) == iterate(l, k),
    ensures
        iterate(l, n) == iterate(l, k),
    decreases n - k,
{
    if k < n {
        lemma_iterate_stable(l, k, (n - 1) as nat);
    }
}

// ---------------------------------------------------------------------------
// Rectangles of resolved positions
// ---------------------------------------------------------------------------

/// Width from left and right edges, when both are known and right > left.
pub open spec fn res_width(r: Resolved) -> Option<u16> {
    match (r.left, r.right) {
        (Some(a), Some(b)) => if b > a { Some((b - a) as u16) } else { None },
        _ => None,
    }
}

/// Height from top and bottom edges, when both are known and bottom > top.
pub open spec fn res_height(r: Resolved) -> Option<u16> {
    match (r.top, r.bottom) {
        (Some(a), Some(b)) => if b > a { Some((b - a) as u16) } else { None },
        _ => None,
    }
}

/// Computing the rectangle of `r` subtracts no edges more than `i16::MAX` apart.
pub open spec fn rect_fits(r: Resolved) -> bool {
    &&& (r.left is Some && r.right is Some && r.right->0 > r.left->0) ==> r.right->0 - r.left->0 <= i16::MAX
    &&& (r.top is Some && r.bottom is Some && r.bottom->0 > r.top->0) ==> r.bottom->0 - r.top->0 <= i16::MAX
}


// ---------------------------------------------------------------------------
// Laws of resolution
// ---------------------------------------------------------------------------

/// `b` keeps every edge that `a` has determined, with the same value.
pub open spec fn extends(a: Map<u32, Resolved>, b: Map<u32, Resolved>) -> bool {
    forall|id: u32, e: Edge| #[trigger] edge_of(rget(a, id), e) is Some ==> edge_of(rget(b, id), e) == edge_of(rget(a, id), e)
}

proof fn lemma_extends_trans(a: Map<u32, Resolved>, b: Map<u32, Resolved>, c: Map<u32, Resolved>)
    requires
        extends(a, b),
        extends(b, c),
    ensures
        extends(a, c),
{
    assert forall|id: u32, e: Edge| #[trigger] edge_of(rget(a, id), e) is Some implies
        edge_of(rget(c, id), e) == edge_of(rget(a, id), e) by {
        assert(edge_of(rget(b, id), e) == edge_of(rget(a, id), e));
    }
}

proof fn lemma_apply_constraint_extends(s: Map<u32, Resolved>, c: Constraint)
    ensures
        extends(s, apply_constraint(s, c)),
{
    let t = apply_constraint(s, c);
    assert forall|id: u32, e: Edge| #[trigger] edge_of(rget(s, id), e) is Some implies
        edge_of(rget(t, id), e) == edge_of(rget(s, id), e) by {
        if id == c.src@ {
            match e {
                Edge::Top => {},
                Edge::Left => {},
                Edge::Bottom => {},
                Edge::Right => {},
            }
            match c.src_edge {
                Edge::Top => {},
                Edge::Left => {},
                Edge::Bottom => {},
                Edge::Right => {},
            }
        }
    }
}

proof fn lemma_apply_prefix_extends(s: Map<u32, Resolved>, cs: Seq<Constraint>, i: nat, n: nat)
    requires
        i <= n,
    ensures
        extends(apply_prefix(s, cs, i), apply_prefix(s, cs, n)),
    decreases n - i,
{
    if i < n {
        lemma_apply_prefix_extends(s, cs, i, (n - 1) as nat);
        lemma_apply_constraint_extends(apply_prefix(s, cs, (n - 1) as nat), cs[n - 1]);
        lemma_extends_trans(apply_prefix(s, cs, i), apply_prefix(s, cs, (n - 1) as nat), apply_prefix(s, cs, n));
    }
}

proof fn lemma_derive_all_extends(l: LayoutSpec, s: Map<u32, Resolved>)
    ensures
        extends(s, derive_all(l, s)),
{
}

/// A pass never changes an edge that is already determined: resolution only
/// adds information.
pub proof fn lemma_pass_extends(l: LayoutSpec, s: Map<u32, Resolved>)
    ensures
        extends(s, pass(l, s)),
{
    let n = l.constraints.len();
    lemma_apply_prefix_extends(s, l.constraints, 0, n);
    lemma_derive_all_extends(l, apply_prefix(s, l.constraints, n));
    lemma_extends_trans(s, apply_prefix(s, l.constraints, n), pass(l, s));
}

proof fn lemma_iterate_extends(l: LayoutSpec, n: nat)
    ensures
        extends(initial_state(l), iterate(l, n)),
    decreases n,
{
    if n > 0 {
        lemma_iterate_extends(l, (n - 1) as nat);
        lemma_pass_extends(l, iterate(l, (n - 1) as nat));
        lemma_extends_trans(initial_state(l), iterate(l, (n - 1) as nat), iterate(l, n));
    }
}

/// After resolution the container still spans the whole layout:
/// top 0, left 0, bottom `height`, right `width`.
pub proof fn lemma_resolve_keeps_container(l: LayoutSpec)
    ensures
        rget(resolve_spec(l), 0) == container_res(l.width, l.height),
{
    lemma_iterate_extends(l, max_passes());
    let s = resolve_spec(l);
    assert(rget(initial_state(l), 0) == container_res(l.width, l.height));
    assert(edge_of(rget(initial_state(l), 0), Edge::Top) is Some);
    assert(edge_of(rget(initial_state(l), 0), Edge::Left) is Some);
    assert(edge_of(rget(initial_state(l), 0), Edge::Bottom) is Some);
    assert(edge_of(rget(initial_state(l), 0), Edge::Right) is Some);
}

/// Once a pass changes nothing, resolution is complete: every constraint
/// whose destination edge is known has determined its source edge, and
/// every widget has both or neither of its vertical edges, and both or
/// neither of its horizontal edges.
pub proof fn lemma_settled_state(l: LayoutSpec, s: Map<u32, Resolved>)
    requires
        pass(l, s) == s,
    ensures
        forall|i: int| 0 <= i < l.constraints.len() && #[trigger] edge_of(rget(s, l.constraints[i].dst@), l.constraints[i].dst_edge) is Some
            ==> edge_of(rget(s, l.constraints[i].src@), l.constraints[i].src_edge) is Some,
        forall|id: u32| id != 0 ==> (#[trigger] rget(s, id).top is Some <==> rget(s, id).bottom is Some),
        forall|id: u32| id != 0 ==> (#[trigger] rget(s, id).left is Some <==> rget(s, id).right is Some),
{
    let cs = l.constraints;
    let n = cs.len();
    assert forall|i: int| 0 <= i < n && #[trigger] edge_of(rget(s, cs[i].dst@), cs[i].dst_edge) is Some
        implies edge_of(rget(s, cs[i].src@), cs[i].src_edge) is Some by {
        let c = cs[i];
        lemma_apply_prefix_extends(s, cs, 0, i as nat);
        let t = apply_prefix(s, cs, i as nat);
        assert(edge_of(rget(t, c.dst@), c.dst_edge) is Some);
        let t1 = apply_prefix(s, cs, (i + 1) as nat);
        assert(t1 == apply_constraint(t, c));
        assert(edge_of(rget(t1, c.src@), c.src_edge) is Some) by {
            match c.src_edge {
                Edge::Top => {},
                Edge::Left => {},
                Edge::Bottom => {},
                Edge::Right => {},
            }
        }
        lemma_apply_prefix_extends(s, cs, (i + 1) as nat, n);
        lemma_derive_all_extends(l, apply_prefix(s, cs, n));
        lemma_extends_trans(t1, apply_prefix(s, cs, n), pass(l, s));
    }
}

/// A constraint only ever sets its own source edge: an edge that no
/// constraint of `cs[.. n]` names as its source keeps its value.
proof fn lemma_apply_prefix_untouched(s: Map<u32, Resolved>, cs: Seq<Constraint>, n: nat, id: u32, e: Edge)
    requires
        n <= cs.len(),
        forall|j: int| 0 <= j < n ==> !(#[trigger] cs[j].src@ == id && cs[j].src_edge == e),
    ensures
        edge_of(rget(apply_prefix(s, cs, n), id), e) == edge_of(rget(s, id), e),
    decreases n,
{
    if n > 0 {
        lemma_apply_prefix_untouched(s, cs, (n - 1) as nat, id, e);
        let t = apply_prefix(s, cs, (n - 1) as nat);
        let c = cs[n - 1];
        assert(!(c.src@ == id && c.src_edge == e));
        match e {
            Edge::Top => {},
            Edge::Left => {},
            Edge::Bottom => {},
            Edge::Right => {},
        }
        match c.src_edge {
            Edge::Top => {},
            Edge::Left => {},
            Edge::Bottom => {},
            Edge::Right => {},
        }
    }
}

/// Later passes keep what earlier ones determined.
proof fn lemma_iterate_mono(l: LayoutSpec, a: nat, b: nat)
    requires
        a <= b,
    ensures
        extends(iterate(l, a), iterate(l, b)),
    decreases b - a,
{
    if a < b {
        lemma_iterate_mono(l, a, (b - 1) as nat);
        lemma_pass_extends(l, iterate(l, (b - 1) as nat));
        lemma_extends_trans(iterate(l, a), iterate(l, (b - 1) as nat), iterate(l, b));
    }
}

/// A constraint to the container's box places its edge: when constraint `i`
/// ties edge `src_edge` of a widget to an edge of the container (top 0, left
/// 0, bottom `height`, right `width`) and no earlier constraint names that
/// same edge as its source, the resolved edge is the container's edge plus
/// the offset.  So `fill`, the centring helpers and any `constrain` against
/// `CONTAINER` put the widget where they say.
pub proof fn lemma_container_constraint_places(l: LayoutSpec, i: int)
    requires
        0 <= i < l.constraints.len(),
        l.constraints[i].dst@ == 0,
        1 <= l.constraints[i].src@ <= l.prefs.len(),
        forall|j: int| 0 <= j < i ==> !(#[trigger] l.constraints[j].src@ == l.constraints[i].src@
            && l.constraints[j].src_edge == l.constraints[i].src_edge),
    ensures
        edge_of(rget(resolve_spec(l), l.constraints[i].src@), l.constraints[i].src_edge) == Some(
            (edge_of(container_res(l.width, l.height), l.constraints[i].dst_edge)->0 + l.constraints[i].offset) as i16),
{
    let cs = l.constraints;
    let c = cs[i];
    let s0 = initial_state(l);
    let t = apply_prefix(s0, cs, i as nat);
    lemma_apply_prefix_untouched(s0, cs, i as nat, c.src@, c.src_edge);
    assert(rget(s0, c.src@) == unresolved());
    assert(edge_of(unresolved(), c.src_edge) is None) by {
        match c.src_edge {
            Edge::Top => {},
            Edge::Left => {},
            Edge::Bottom => {},
            Edge::Right => {},
        }
    }
    lemma_apply_prefix_extends(s0, cs, 0, i as nat);
    assert(rget(s0, 0) == container_res(l.width, l.height));
    assert(edge_of(rget(s0, 0), c.dst_edge) is Some) by {
        match c.dst_edge {
            Edge::Top => {},
            Edge::Left => {},
            Edge::Bottom => {},
            Edge::Right => {},
        }
    }
    assert(edge_of(rget(t, 0), c.dst_edge) == edge_of(rget(s0, 0), c.dst_edge));
    let t1 = apply_prefix(s0, cs, (i + 1) as nat);
    assert(t1 == apply_constraint(t, c));
    let v = (edge_of(container_res(l.width, l.height), c.dst_edge)->0 + c.offset) as i16;
    assert(edge_of(rget(t1, c.src@), c.src_edge) == Some(v)) by {
        match c.src_edge {
            Edge::Top => {},
            Edge::Left => {},
            Edge::Bottom => {},
            Edge::Right => {},
        }
    }
    let n = cs.len();
    lemma_apply_prefix_extends(s0, cs, (i + 1) as nat, n);
    lemma_derive_all_extends(l, apply_prefix(s0, cs, n));
    lemma_extends_trans(t1, apply_prefix(s0, cs, n), pass(l, s0));
    assert(iterate(l, 0) == s0);
    assert(iterate(l, 1) == pass(l, s0));
    lemma_iterate_mono(l, 1, max_passes());
    lemma_extends_trans(t1, iterate(l, 1), resolve_spec(l));
}

/// The other edge on the same axis: top and bottom, left and right.
pub open spec fn opposite(e: Edge) -> Edge {
    match e {
        Edge::Top => Edge::Bottom,
        Edge::Bottom => Edge::Top,
        Edge::Left => Edge::Right,
        Edge::Right => Edge::Left,
    }
}

/// In `s`, edge `e` of `a`, once determined, is edge `f` of `d` plus `o`,
/// and the opposite edge of `a` is only determined after `e`.
pub open spec fn tied(s: Map<u32, Resolved>, a: u32, e: Edge, d: u32, f: Edge, o: i16) -> bool {
    &&& edge_of(rget(s, a), e) is Some ==> edge_of(rget(s, d), f) is Some
        && edge_of(rget(s, a), e) == Some((edge_of(rget(s, d), f)->0 + o) as i16)
    &&& edge_of(rget(s, a), opposite(e)) is Some ==> edge_of(rget(s, a), e) is Some
}

proof fn lemma_tied_apply(s: Map<u32, Resolved>, c: Constraint, a: u32, e: Edge, d: u32, f: Edge, o: i16)
    requires
        tied(s, a, e, d, f, o),
        a != d,
        !(c.src@ == a && c.src_edge == opposite(e)),
        c.src@ == a && c.src_edge == e ==> c.dst@ == d && c.dst_edge == f && c.offset == o,
    ensures
        tied(apply_constraint(s, c), a, e, d, f, o),
{
    lemma_apply_constraint_extends(s, c);
    let t = apply_constraint(s, c);
    assert(edge_of(rget(s, a), e) is Some ==> edge_of(rget(t, a), e) == edge_of(rget(s, a), e));
    assert(edge_of(rget(s, d), f) is Some ==> edge_of(rget(t, d), f) == edge_of(rget(s, d), f));
    match e {
        Edge::Top => {},
        Edge::Left => {},
        Edge::Bottom => {},
        Edge::Right => {},
    }
    match c.src_edge {
        Edge::Top => {},
        Edge::Left => {},
        Edge::Bottom => {},
        Edge::Right => {},
    }
}

proof fn lemma_tied_prefix(s: Map<u32, Resolved>, cs: Seq<Constraint>, n: nat, a: u32, e: Edge, d: u32, f: Edge, o: i16)
    requires
        n <= cs.len(),
        tied(s, a, e, d, f, o),
        a != d,
        forall|j: int| 0 <= j < cs.len() ==> !(#[trigger] cs[j].src@ == a && cs[j].src_edge == opposite(e)),
        forall|j: int| 0 <= j < cs.len() && #[trigger] cs[j].src@ == a && cs[j].src_edge == e ==>
            cs[j].dst@ == d && cs[j].dst_edge == f && cs[j].offset == o,
    ensures
        tied(apply_prefix(s, cs, n), a, e, d, f, o),
    decreases n,
{
    if n > 0 {
        lemma_tied_prefix(s, cs, (n - 1) as nat, a, e, d, f, o);
        let c = cs[n - 1];
        assert(!(cs[n - 1].src@ == a && cs[n - 1].src_edge == opposite(e)));
        lemma_tied_apply(apply_prefix(s, cs, (n - 1) as nat), c, a, e, d, f, o);
    }
}

proof fn lemma_tied_derive(l: LayoutSpec, s: Map<u32, Resolved>, a: u32, e: Edge, d: u32, f: Edge, o: i16)
    requires
        tied(s, a, e, d, f, o),
        a != 0,
        s.contains_key(a) || rget(s, a) == unresolved(),
    ensures
        tied(derive_all(l, s), a, e, d, f, o),
{
    lemma_derive_all_extends(l, s);
    let t = derive_all(l, s);
    assert(edge_of(rget(s, d), f) is Some ==> edge_of(rget(t, d), f) == edge_of(rget(s, d), f));
    assert(edge_of(rget(s, a), e) is Some ==> edge_of(rget(t, a), e) == edge_of(rget(s, a), e));
    if !s.contains_key(a) {
        assert(!t.contains_key(a));
    }
    match e {
        Edge::Top => {},
        Edge::Left => {},
        Edge::Bottom => {},
        Edge::Right => {},
    }
}

proof fn lemma_tied_iterate(l: LayoutSpec, n: nat, a: u32, e: Edge, d: u32, f: Edge, o: i16)
    requires
        1 <= a,
        a != d,
        forall|j: int| 0 <= j < l.constraints.len() ==>
            !(#[trigger] l.constraints[j].src@ == a && l.constraints[j].src_edge == opposite(e)),
        forall|j: int| 0 <= j < l.constraints.len() && #[trigger] l.constraints[j].src@ == a
            && l.constraints[j].src_edge == e ==> l.constraints[j].dst@ == d && l.constraints[j].dst_edge == f
            && l.constraints[j].offset == o,
    ensures
        tied(iterate(l, n), a, e, d, f, o),
        iterate(l, n).contains_key(a) || rget(iterate(l, n), a) == unresolved(),
    decreases n,
{
    if n == 0 {
        let s0 = initial_state(l);
        if s0.contains_key(a) {
            assert(s0[a] == unresolved());
        }
        match e {
            Edge::Top => {},
            Edge::Left => {},
            Edge::Bottom => {},
            Edge::Right => {},
        }
    } else {
        lemma_tied_iterate(l, (n - 1) as nat, a, e, d, f, o);
        let s = iterate(l, (n - 1) as nat);
        let cs = l.constraints;
        lemma_tied_prefix(s, cs, cs.len(), a, e, d, f, o);
        let p = apply_prefix(s, cs, cs.len());
        lemma_apply_prefix_keys(s, cs, cs.len(), a);
        lemma_tied_derive(l, p, a, e, d, f, o);
    }
}

proof fn lemma_apply_prefix_keys(s: Map<u32, Resolved>, cs: Seq<Constraint>, n: nat, a: u32)
    requires
        s.contains_key(a) || rget(s, a) == unresolved(),
    ensures
        apply_prefix(s, cs, n).contains_key(a) || rget(apply_prefix(s, cs, n), a) == unresolved(),
    decreases n,
{
    if n > 0 {
        lemma_apply_prefix_keys(s, cs, (n - 1) as nat, a);
    }
}

/// A widget edge tied to one other edge is placed by it: when every
/// constraint that names edge `e` of widget `a` as its source ties it to
/// edge `f` of another widget `d` at offset `o`, and no constraint names
/// the opposite edge of `a`, then once resolution has determined `e`, it
/// is `d`'s edge `f` plus `o`.  This is what `below` (top under the
/// bottom), `right_of` (left past the right edge), `align_left` and
/// `align_right` promise, for a widget with nothing else on that axis.
pub proof fn lemma_tied_edge_placed(l: LayoutSpec, a: u32, e: Edge, d: u32, f: Edge, o: i16)
    requires
        1 <= a,
        a != d,
        forall|j: int| 0 <= j < l.constraints.len() ==>
            !(#[trigger] l.constraints[j].src@ == a && l.constraints[j].src_edge == opposite(e)),
        forall|j: int| 0 <= j < l.constraints.len() && #[trigger] l.constraints[j].src@ == a
            && l.constraints[j].src_edge == e ==> l.constraints[j].dst@ == d && l.constraints[j].dst_edge == f
            && l.constraints[j].offset == o,
    ensures
        edge_of(rget(resolve_spec(l), a), e) is Some ==> edge_of(rget(resolve_spec(l), d), f) is Some
            && edge_of(rget(resolve_spec(l), a), e) == Some((edge_of(rget(resolve_spec(l), d), f)->0 + o) as i16),
{
    lemma_tied_iterate(l, max_passes(), a, e, d, f, o);
}

/// `r` has every edge undetermined exactly when each of its four edges is.
proof fn lemma_all_edges_none(r: Resolved)
    requires
        edge_of(r, Edge::Top) is None,
        edge_of(r, Edge::Left) is None,
        edge_of(r, Edge::Bottom) is None,
        edge_of(r, Edge::Right) is None,
    ensures
        r == unresolved(),
{
}

proof fn lemma_unconstrained_iterate(l: LayoutSpec, a: u32, n: nat)
    requires
        a != 0,
        forall|j: int| 0 <= j < l.constraints.len() ==> (#[trigger] l.constraints[j]).src@ != a,
    ensures
        rget(iterate(l, n), a) == unresolved(),
    decreases n,
{
    if n > 0 {
        lemma_unconstrained_iterate(l, a, (n - 1) as nat);
        let s = iterate(l, (n - 1) as nat);
        let cs = l.constraints;
        let p = apply_prefix(s, cs, cs.len());
        lemma_apply_prefix_untouched(s, cs, cs.len(), a, Edge::Top);
        lemma_apply_prefix_untouched(s, cs, cs.len(), a, Edge::Left);
        lemma_apply_prefix_untouched(s, cs, cs.len(), a, Edge::Bottom);
        lemma_apply_prefix_untouched(s, cs, cs.len(), a, Edge::Right);
        lemma_all_edges_none(rget(p, a));
    }
}

/// A widget that no constraint names as its source is never placed: every
/// edge stays undetermined, so it sits at `(0, 0)` with its preferred size.
pub proof fn lemma_unconstrained_unresolved(l: LayoutSpec, a: u32)
    requires
        a != 0,
        forall|j: int| 0 <= j < l.constraints.len() ==> (#[trigger] l.constraints[j]).src@ != a,
    ensures
        rget(resolve_spec(l), a) == unresolved(),
{
    lemma_unconstrained_iterate(l, a, max_passes());
}

/// A tied edge is placed once the edge it is tied to is known in time: when
/// some constraint names edge `e` of widget `a` as its source, every such
/// constraint ties it to edge `f` of another widget `d` at offset `o`, no
/// constraint names the opposite edge of `a`, and `d`'s edge `f` is
/// determined within `k` passes for some `k` below the pass limit, then the
/// resolved edge `e` of `a` is `d`'s resolved edge `f` plus `o`.
pub proof fn lemma_tied_edge_resolves(l: LayoutSpec, a: u32, e: Edge, d: u32, f: Edge, o: i16, i: int, k: nat)
    requires
        1 <= a,
        a != d,
        0 <= i < l.constraints.len(),
        l.constraints[i].src@ == a,
        l.constraints[i].src_edge == e,
        forall|j: int| 0 <= j < l.constraints.len() ==>
            !(#[trigger] l.constraints[j].src@ == a && l.constraints[j].src_edge == opposite(e)),
        forall|j: int| 0 <= j < l.constraints.len() && #[trigger] l.constraints[j].src@ == a
            && l.constraints[j].src_edge == e ==> l.constraints[j].dst@ == d && l.constraints[j].dst_edge == f
            && l.constraints[j].offset == o,
        k < max_passes(),
        edge_of(rget(iterate(l, k), d), f) is Some,
    ensures
        edge_of(rget(resolve_spec(l), d), f) is Some,
        edge_of(rget(resolve_spec(l), a), e) == Some((edge_of(rget(resolve_spec(l), d), f)->0 + o) as i16),
{
    let cs = l.constraints;
    let last = (max_passes() - 1) as nat;
    lemma_iterate_mono(l, k, last);
    let s = iterate(l, last);
    assert(edge_of(rget(s, d), f) is Some);
    lemma_apply_prefix_extends(s, cs, 0, i as nat);
    let t = apply_prefix(s, cs, i as nat);
    assert(edge_of(rget(t, d), f) is Some);
    let t1 = apply_prefix(s, cs, (i + 1) as nat);
    assert(t1 == apply_constraint(t, cs[i]));
    assert(edge_of(rget(t1, a), e) is Some) by {
        match e {
            Edge::Top => {},
            Edge::Left => {},
            Edge::Bottom => {},
            Edge::Right => {},
        }
    }
    lemma_apply_prefix_extends(s, cs, (i + 1) as nat, cs.len());
    lemma_derive_all_extends(l, apply_prefix(s, cs, cs.len()));
    lemma_extends_trans(t1, apply_prefix(s, cs, cs.len()), pass(l, s));
    assert(iterate(l, max_passes()) == pass(l, s));
    lemma_tied_edge_placed(l, a, e, d, f, o);
}

/// The left edge of `a` in `s` is derived from its right edge and the
/// preferred width `pw`.
pub open spec fn left_from_right(s: Map<u32, Resolved>, a: u32, pw: i16) -> bool {
    rget(s, a).left is Some ==> rget(s, a).right is Some && rget(s, a).left == Some((rget(s, a).right->0 - pw) as i16)
}

proof fn lemma_left_from_right_iterate(l: LayoutSpec, a: u32, n: nat)
    requires
        a != 0,
        forall|j: int| 0 <= j < l.constraints.len() ==>
            !(#[trigger] l.constraints[j].src@ == a && l.constraints[j].src_edge == Edge::Left),
    ensures
        left_from_right(iterate(l, n), a, pref_of(l.prefs, a).0 as i16),
        n > 0 ==> (rget(iterate(l, n), a).right is Some ==> rget(iterate(l, n), a).left is Some),
    decreases n,
{
    if n > 0 {
        lemma_left_from_right_iterate(l, a, (n - 1) as nat);
        let s = iterate(l, (n - 1) as nat);
        let cs = l.constraints;
        let p = apply_prefix(s, cs, cs.len());
        lemma_apply_prefix_untouched(s, cs, cs.len(), a, Edge::Left);
        lemma_apply_prefix_extends(s, cs, 0, cs.len());
        assert(edge_of(rget(s, a), Edge::Right) is Some ==> edge_of(rget(p, a), Edge::Right) == edge_of(rget(s, a), Edge::Right));
        assert(left_from_right(p, a, pref_of(l.prefs, a).0 as i16));
        let t = derive_all(l, p);
        if !p.contains_key(a) {
            assert(!t.contains_key(a));
        }
    }
}

/// A widget whose left edge no constraint names gets it from its right
/// edge: once resolution has determined the right edge, the left edge is
/// the right edge minus the preferred width.
pub proof fn lemma_left_derived(l: LayoutSpec, a: u32)
    requires
        a != 0,
        forall|j: int| 0 <= j < l.constraints.len() ==>
            !(#[trigger] l.constraints[j].src@ == a && l.constraints[j].src_edge == Edge::Left),
    ensures
        rget(resolve_spec(l), a).right matches Some(r) ==> rget(resolve_spec(l), a).left == Some(
            (r - (pref_of(l.prefs, a).0 as i16)) as i16),
{
    lemma_left_from_right_iterate(l, a, max_passes());
}

/// The value edge `e` gets from the value `v` of the opposite edge and the
/// preferred size `pw × ph`: top = bottom − height, bottom = top + height,
/// left = right − width, right = left + width.
pub open spec fn from_opposite(e: Edge, v: i16, pw: i16, ph: i16) -> i16 {
    match e {
        Edge::Top => (v - ph) as i16,
        Edge::Bottom => (v + ph) as i16,
        Edge::Left => (v - pw) as i16,
        Edge::Right => (v + pw) as i16,
    }
}

/// Edge `e` of `a` in `s`, once determined, was derived from the opposite
/// edge.
pub open spec fn derived_in(s: Map<u32, Resolved>, a: u32, e: Edge, pw: i16, ph: i16) -> bool {
    edge_of(rget(s, a), e) is Some ==> edge_of(rget(s, a), opposite(e)) is Some
        && edge_of(rget(s, a), e) == Some(from_opposite(e, edge_of(rget(s, a), opposite(e))->0, pw, ph))
}

proof fn lemma_derived_iterate(l: LayoutSpec, a: u32, e: Edge, n: nat)
    requires
        a != 0,
        forall|j: int| 0 <= j < l.constraints.len() ==>
            !(#[trigger] l.constraints[j].src@ == a && l.constraints[j].src_edge == e),
    ensures
        derived_in(iterate(l, n), a, e, pref_of(l.prefs, a).0 as i16, pref_of(l.prefs, a).1 as i16),
        n > 0 ==> (edge_of(rget(iterate(l, n), a), opposite(e)) is Some ==> edge_of(rget(iterate(l, n), a), e) is Some),
    decreases n,
{
    let pw = pref_of(l.prefs, a).0 as i16;
    let ph = pref_of(l.prefs, a).1 as i16;
    if n == 0 {
        let s0 = initial_state(l);
        if s0.contains_key(a) {
            assert(s0[a] == unresolved());
        }
        match e {
            Edge::Top => {},
            Edge::Left => {},
            Edge::Bottom => {},
            Edge::Right => {},
        }
    } else {
        lemma_derived_iterate(l, a, e, (n - 1) as nat);
        let s = iterate(l, (n - 1) as nat);
        let cs = l.constraints;
        let p = apply_prefix(s, cs, cs.len());
        lemma_apply_prefix_untouched(s, cs, cs.len(), a, e);
        lemma_apply_prefix_extends(s, cs, 0, cs.len());
        assert(edge_of(rget(s, a), opposite(e)) is Some ==> edge_of(rget(p, a), opposite(e))
            == edge_of(rget(s, a), opposite(e)));
        assert(derived_in(p, a, e, pw, ph));
        let t = derive_all(l, p);
        if !p.contains_key(a) {
            assert(!t.contains_key(a));
            match e {
                Edge::Top => {},
                Edge::Left => {},
                Edge::Bottom => {},
                Edge::Right => {},
            }
        } else {
            assert(t[a] == derive_res(p[a], pw, ph));
            match e {
                Edge::Top => {},
                Edge::Left => {},
                Edge::Bottom => {},
                Edge::Right => {},
            }
        }
    }
}

/// A widget whose top edge no constraint names gets it from its bottom
/// edge: once resolution has determined the bottom edge, the top edge is
/// the bottom edge minus the preferred height.
pub proof fn lemma_top_derived(l: LayoutSpec, a: u32)
    requires
        a != 0,
        forall|j: int| 0 <= j < l.constraints.len() ==>
            !(#[trigger] l.constraints[j].src@ == a && l.constraints[j].src_edge == Edge::Top),
    ensures
        rget(resolve_spec(l), a).bottom matches Some(b) ==> rget(resolve_spec(l), a).top == Some(
            (b - (pref_of(l.prefs, a).1 as i16)) as i16),
{
    lemma_derived_iterate(l, a, Edge::Top, max_passes());
}

/// A widget whose bottom edge no constraint names gets it from its top
/// edge: once resolution has determined the top edge, the bottom edge is
/// the top edge plus the preferred height.
pub proof fn lemma_bottom_derived(l: LayoutSpec, a: u32)
    requires
        a != 0,
        forall|j: int| 0 <= j < l.constraints.len() ==>
            !(#[trigger] l.constraints[j].src@ == a && l.constraints[j].src_edge == Edge::Bottom),
    ensures
        rget(resolve_spec(l), a).top matches Some(t) ==> rget(resolve_spec(l), a).bottom == Some(
            (t + (pref_of(l.prefs, a).1 as i16)) as i16),
{
    lemma_derived_iterate(l, a, Edge::Bottom, max_passes());
}

/// A widget whose right edge no constraint names gets it from its left
/// edge: once resolution has determined the left edge, the right edge is
/// the left edge plus the preferred width.
pub proof fn lemma_right_derived(l: LayoutSpec, a: u32)
    requires
        a != 0,
        forall|j: int| 0 <= j < l.constraints.len() ==>
            !(#[trigger] l.constraints[j].src@ == a && l.constraints[j].src_edge == Edge::Right),
    ensures
        rget(resolve_spec(l), a).left matches Some(x) ==> rget(resolve_spec(l), a).right == Some(
            (x + (pref_of(l.prefs, a).0 as i16)) as i16),
{
    lemma_derived_iterate(l, a, Edge::Right, max_passes());
}

} // verus!
