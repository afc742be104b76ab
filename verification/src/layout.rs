//! The compositor's per-output layout: the window stack (back → front),
//! the work zone, and where each toplevel is placed in it.

use vstd::prelude::*;

use crate::geometry::{Point, Rect};
use crate::home::SurfaceId;

verus! {

/// How a toplevel is arranged right now.
#[derive(Clone, Copy, Debug, PartialEq, Eq, Structural)]
pub enum WindowMode {
    /// Fills the work zone (default; re-applied on zone changes).
    Maximized,
    /// Dialogs: never sized or maximized, kept centered over their parent.
    Floating,
    /// Fullscreen request honored: rendered above the top layer.
    Fullscreen,
}

// ---------------------------------------------------------------------------
// Sequences of surfaces.

/// `s` without any occurrence of `x`.
pub open spec fn without(s: Seq<SurfaceId>, x: SurfaceId) -> Seq<SurfaceId>
    decreases s.len(),
{
    if s.len() == 0 {
        s
    } else if s.last() == x {
        without(s.drop_last(), x)
    } else {
        without(s.drop_last(), x).push(s.last())
    }
}

/// The elements of `s` that are (`keep`) or are not (`!keep`) in `set`, in order.
pub open spec fn select(s: Seq<SurfaceId>, set: Seq<SurfaceId>, keep: bool) -> Seq<SurfaceId>
    decreases s.len(),
{
    if s.len() == 0 {
        s
    } else if set.contains(s.last()) == keep {
        select(s.drop_last(), set, keep).push(s.last())
    } else {
        select(s.drop_last(), set, keep)
    }
}

pub proof fn lemma_select_contains(s: Seq<SurfaceId>, set: Seq<SurfaceId>, keep: bool, x: SurfaceId)
    ensures
        select(s, set, keep).contains(x) <==> (s.contains(x) && set.contains(x) == keep),
    decreases s.len(),
{
    if s.len() > 0 {
        lemma_select_contains(s.drop_last(), set, keep, x);
        let r = select(s.drop_last(), set, keep);
        if s.contains(x) && s.last() != x {
            let i = choose|i: int| 0 <= i < s.len() && s[i] == x;
            assert(s.drop_last()[i] == x);
        }
        if s.drop_last().contains(x) {
            let i = choose|i: int| 0 <= i < s.drop_last().len() && s.drop_last()[i] == x;
            assert(s[i] == x);
        }
        if set.contains(s.last()) == keep {
            assert(r.push(s.last())[r.len() as int] == s.last());
            if r.push(s.last()).contains(x) && x != s.last() {
                let i = choose|i: int| 0 <= i < r.push(s.last()).len() && r.push(s.last())[i] == x;
                assert(r[i] == x);
            }
            if r.contains(x) {
                let i = choose|i: int| 0 <= i < r.len() && r[i] == x;
                assert(r.push(s.last())[i] == x);
            }
        }
    }
}

pub proof fn lemma_select_no_duplicates(s: Seq<SurfaceId>, set: Seq<SurfaceId>, keep: bool)
    requires
        s.no_duplicates(),
    ensures
        select(s, set, keep).no_duplicates(),
    decreases s.len(),
{
    if s.len() > 0 {
        lemma_select_no_duplicates(s.drop_last(), set, keep);
        lemma_select_contains(s.drop_last(), set, keep, s.last());
        if s.drop_last().contains(s.last()) {
            let i = choose|i: int| 0 <= i < s.drop_last().len() && s.drop_last()[i] == s.last();
            assert(s[i] == s[s.len() - 1]);
        }
    }
}

pub proof fn lemma_without_contains(s: Seq<SurfaceId>, x: SurfaceId, y: SurfaceId)
    ensures
        without(s, x).contains(y) <==> (s.contains(y) && y != x),
    decreases s.len(),
{
    if s.len() > 0 {
        lemma_without_contains(s.drop_last(), x, y);
        let r = without(s.drop_last(), x);
        if s.contains(y) && s.last() != y {
            let i = choose|i: int| 0 <= i < s.len() && s[i] == y;
            assert(s.drop_last()[i] == y);
        }
        if s.drop_last().contains(y) {
            let i = choose|i: int| 0 <= i < s.drop_last().len() && s.drop_last()[i] == y;
            assert(s[i] == y);
        }
        if s.last() != x {
            assert(r.push(s.last())[r.len() as int] == s.last());
            if r.push(s.last()).contains(y) && y != s.last() {
                let i = choose|i: int| 0 <= i < r.push(s.last()).len() && r.push(s.last())[i] == y;
                assert(r[i] == y);
            }
            if r.contains(y) {
                let i = choose|i: int| 0 <= i < r.len() && r[i] == y;
                assert(r.push(s.last())[i] == y);
            }
        }
    }
}

// ---------------------------------------------------------------------------
// The layout model.

pub struct LayoutView {
    pub stack: Seq<SurfaceId>,
    pub zone: Rect,
}

/// Per-output model: the window stack (back → front) and the work zone.
#[derive(Debug)]
pub struct Layout {
    stack: Vec<SurfaceId>,
    zone: Rect,
}

impl View for Layout {
    type V = LayoutView;

    closed spec fn view(&self) -> LayoutView {
        LayoutView { stack: self.stack@, zone: self.zone }
    }
}

/// Moving the group to the front: everything else keeps its order behind
/// it, and the group follows in its own order.
pub open spec fn activate_spec(stack: Seq<SurfaceId>, group: Seq<SurfaceId>) -> Seq<SurfaceId> {
    select(stack, group, false) + group
}

impl Default for Layout {
    fn default() -> (l: Self)
        ensures
            l@.stack == Seq::<SurfaceId>::empty(),
            l@.zone == (Rect { x: 0, y: 0, w: 0, h: 0 }),
    {
        Layout { stack: Vec::new(), zone: Rect { x: 0, y: 0, w: 0, h: 0 } }
    }
}

impl Layout {
    /// Whether `surface` is stacked on this output.
    pub fn contains(&self, surface: SurfaceId) -> (b: bool)
        ensures
            b == self@.stack.contains(surface),
    {
        let mut k: usize = 0;
        while k < self.stack.len()
            invariant
                0 <= k <= self@.stack.len(),
                forall|j: int| 0 <= j < k ==> self@.stack[j] != surface,
            decreases self@.stack.len() - k,
        {
            if self.stack[k] == surface {
                return true;
            }
            k = k + 1;
        }
        false
    }

    /// Stack `surface` on top, unless it is stacked already.
    pub fn insert(&mut self, surface: SurfaceId)
        ensures
            final(self)@.zone == old(self)@.zone,
            final(self)@.stack == if old(self)@.stack.contains(surface) {
                old(self)@.stack
            } else {
                old(self)@.stack.push(surface)
            },
    {
        if !self.contains(surface) {
            self.stack.push(surface);
        }
    }

    /// Unstack `surface`.
    pub fn remove(&mut self, surface: SurfaceId)
        ensures
            final(self)@.zone == old(self)@.zone,
            final(self)@.stack == without(old(self)@.stack, surface),
    {
        let ghost s0 = self@.stack;
        let mut kept: Vec<SurfaceId> = Vec::new();
        let mut k: usize = 0;
        assert(s0.take(0) =~= Seq::<SurfaceId>::empty());
        while k < self.stack.len()
            invariant
                0 <= k <= s0.len(),
                self@.stack == s0,
                kept@ == without(s0.take(k as int), surface),
            decreases s0.len() - k,
        {
            assert(s0.take(k + 1).drop_last() =~= s0.take(k as int));
            if self.stack[k] != surface {
                kept.push(self.stack[k]);
            }
            k = k + 1;
        }
        assert(s0.take(k as int) =~= s0);
        self.stack = kept;
    }

    /// Keep only the surfaces in `keep`, in stack order.
    pub fn retain(&mut self, keep: &[SurfaceId])
        ensures
            final(self)@.zone == old(self)@.zone,
            final(self)@.stack == select(old(self)@.stack, keep@, true),
    {
        self.stack = select_exec(&self.stack, keep, true);
    }

    pub fn set_zone(&mut self, zone: Rect)
        ensures
            final(self)@ == (LayoutView { zone, ..old(self)@ }),
    {
        self.zone = zone;
    }

    pub fn zone(&self) -> (r: Rect)
        ensures
            r == self@.zone,
    {
        self.zone
    }

    /// Move this ancestor chain (root → leaf) to the front of the stack.
    pub fn activate_group(&mut self, group: Vec<SurfaceId>)
        ensures
            final(self)@.zone == old(self)@.zone,
            final(self)@.stack == activate_spec(old(self)@.stack, group@),
    {
        let mut rest = select_exec(&self.stack, group.as_slice(), false);
        let mut g = group;
        rest.append(&mut g);
        self.stack = rest;
    }

    /// The stack, back → front.
    pub fn stack(&self) -> (s: &[SurfaceId])
        ensures
            s@ == self@.stack,
    {
        self.stack.as_slice()
    }

    /// The frontmost surface.
    pub fn top(&self) -> (r: Option<SurfaceId>)
        ensures
            r == if self@.stack.len() == 0 {
                None
            } else {
                Some(self@.stack.last())
            },
    {
        if self.stack.len() == 0 {
            None
        } else {
            Some(self.stack[self.stack.len() - 1])
        }
    }

    /// What is on screen when `focused` leads the group: its ancestor chain
    /// (see `ancestor_chain`), or nothing without focus.
    pub fn visible(&self, focused: Option<SurfaceId>, parents: &[(SurfaceId, SurfaceId)]) -> (v:
        Vec<SurfaceId>)
        requires
            focused matches Some(f) ==> reaches_root(parents@, f, parents@.len()),
        ensures
            v@ == match focused {
                Some(f) => chain_spec(parents@, f),
                None => Seq::empty(),
            },
    {
        match focused {
            Some(f) => ancestor_chain(f, parents),
            None => Vec::new(),
        }
    }

    /// The surfaces of the focused group that are stacked here.
    pub fn visible_surfaces(&self, focused: Option<SurfaceId>, parents: &[(SurfaceId, SurfaceId)]) -> (v:
        Vec<SurfaceId>)
        requires
            focused matches Some(f) ==> reaches_root(parents@, f, parents@.len()),
        ensures
            v@ == match focused {
                Some(f) => select(chain_spec(parents@, f), self@.stack, true),
                None => Seq::empty(),
            },
    {
        let chain = self.visible(focused, parents);
        let v = select_exec(&chain, self.stack.as_slice(), true);
        proof {
            if focused is None {
                assert(select(Seq::<SurfaceId>::empty(), self@.stack, true) =~= Seq::<SurfaceId>::empty());
            }
        }
        v
    }
}

/// The elements of `s` that are (`keep`) or are not in `set`, in order.
fn select_exec(s: &Vec<SurfaceId>, set: &[SurfaceId], keep: bool) -> (r: Vec<SurfaceId>)
    ensures
        r@ == select(s@, set@, keep),
{
    let mut out: Vec<SurfaceId> = Vec::new();
    let mut k: usize = 0;
    assert(s@.take(0) =~= Seq::<SurfaceId>::empty());
    while k < s.len()
        invariant
            0 <= k <= s@.len(),
            out@ == select(s@.take(k as int), set@, keep),
        decreases s@.len() - k,
    {
        assert(s@.take(k + 1).drop_last() =~= s@.take(k as int));
        if slice_contains(set, s[k]) == keep {
            out.push(s[k]);
        }
        k = k + 1;
    }
    assert(s@.take(k as int) =~= s@);
    out
}

fn slice_contains(set: &[SurfaceId], x: SurfaceId) -> (b: bool)
    ensures
        b == set@.contains(x),
{
    let mut k: usize = 0;
    while k < set.len()
        invariant
            0 <= k <= set@.len(),
            forall|j: int| 0 <= j < k ==> set@[j] != x,
        decreases set@.len() - k,
    {
        if set[k] == x {
            return true;
        }
        k = k + 1;
    }
    false
}

// ---------------------------------------------------------------------------
// Ancestor chains.

/// The parent of `s` in the (child, parent) pairs: the first pair for it.
pub open spec fn parent_of(parents: Seq<(SurfaceId, SurfaceId)>, s: SurfaceId) -> Option<SurfaceId>
    decreases parents.len(),
{
    if parents.len() == 0 {
        None
    } else if parents[0].0 == s {
        Some(parents[0].1)
    } else {
        parent_of(parents.drop_first(), s)
    }
}

/// Following parents from `s` reaches a surface without one in at most `n`
/// steps.
pub open spec fn reaches_root(parents: Seq<(SurfaceId, SurfaceId)>, s: SurfaceId, n: nat) -> bool
    decreases n,
{
    match parent_of(parents, s) {
        None => true,
        Some(p) => n > 0 && reaches_root(parents, p, (n - 1) as nat),
    }
}

/// `s` and its ancestors, leaf first, following at most `n` parents.
pub open spec fn up_from(parents: Seq<(SurfaceId, SurfaceId)>, s: SurfaceId, n: nat) -> Seq<SurfaceId>
    decreases n,
{
    match parent_of(parents, s) {
        Some(p) => if n > 0 {
            seq![s] + up_from(parents, p, (n - 1) as nat)
        } else {
            seq![s]
        },
        None => seq![s],
    }
}

/// The ancestor chain of `focused`, root first, `focused` last.
pub open spec fn chain_spec(parents: Seq<(SurfaceId, SurfaceId)>, focused: SurfaceId) -> Seq<
    SurfaceId,
> {
    up_from(parents, focused, parents.len()).reverse()
}

fn parent_in(parents: &[(SurfaceId, SurfaceId)], s: SurfaceId) -> (r: Option<SurfaceId>)
    ensures
        r == parent_of(parents@, s),
{
    let mut k: usize = 0;
    assert(parents@.skip(0) =~= parents@);
    while k < parents.len()
        invariant
            0 <= k <= parents@.len(),
            parent_of(parents@, s) == parent_of(parents@.skip(k as int), s),
        decreases parents@.len() - k,
    {
        assert(parents@.skip(k as int)[0] == parents@[k as int]);
        assert(parents@.skip(k as int).drop_first() =~= parents@.skip(k + 1));
        if parents[k].0 == s {
            return Some(parents[k].1);
        }
        k = k + 1;
    }
    assert(parents@.skip(k as int) =~= Seq::<(SurfaceId, SurfaceId)>::empty());
    None
}

/// The ancestor chain of `focused` (root first); `parents` lists each
/// surface's parent as (child, parent) pairs.
pub fn ancestor_chain(focused: SurfaceId, parents: &[(SurfaceId, SurfaceId)]) -> (v: Vec<SurfaceId>)
    requires
        reaches_root(parents@, focused, parents@.len()),
    ensures
        v@ == chain_spec(parents@, focused),
{
    let mut chain: Vec<SurfaceId> = Vec::new();
    chain.push(focused);
    let mut current = focused;
    let mut fuel: usize = parents.len();
    let ghost n = parents@.len();
    assert(up_from(parents@, focused, n) == seq![focused] + up_from(parents@, focused, n).drop_first()) by {
        assert(up_from(parents@, focused, n)[0] == focused);
    }
    loop
        invariant
            fuel <= n,
            n == parents@.len(),
            reaches_root(parents@, current, fuel as nat),
            chain@.len() >= 1,
            chain@.last() == current,
            up_from(parents@, focused, n) == chain@.drop_last() + up_from(parents@, current, fuel as nat),
        ensures
            up_from(parents@, focused, n) == chain@,
        decreases fuel,
    {
        match parent_in(parents, current) {
            Some(p) => {
                assert(fuel > 0);
                let ghost before = chain@;
                assert(up_from(parents@, current, fuel as nat) =~= seq![current] + up_from(
                    parents@,
                    p,
                    (fuel - 1) as nat,
                ));
                chain.push(p);
                current = p;
                fuel = fuel - 1;
                assert(chain@.drop_last() =~= before);
                assert(before =~= before.drop_last() + seq![before.last()]);
                assert(before.drop_last() + (seq![before.last()] + up_from(parents@, p, fuel as nat))
                    =~= before + up_from(parents@, p, fuel as nat));
            },
            None => {
                assert(up_from(parents@, current, fuel as nat) == seq![current]);
                assert(chain@.drop_last() + seq![current] =~= chain@);
                break;
            },
        }
    }
    reverse_in_place(&mut chain);
    chain
}

fn reverse_in_place(v: &mut Vec<SurfaceId>)
    ensures
        final(v)@ == old(v)@.reverse(),
{
    let ghost s0 = v@;
    let n = v.len();
    let mut i: usize = 0;
    while i < n / 2
        invariant
            n == s0.len(),
            v@.len() == n,
            0 <= i <= n / 2,
            forall|k: int|
                0 <= k < n ==> #[trigger] v@[k] == if k < i || k >= n - i {
                    s0[n - 1 - k]
                } else {
                    s0[k]
                },
        decreases n / 2 - i,
    {
        let a = v[i];
        let b = v[n - 1 - i];
        v.set(i, b);
        v.set(n - 1 - i, a);
        i = i + 1;
    }
    assert(v@ =~= s0.reverse());
}

// ---------------------------------------------------------------------------
// Placement in the work zone.

/// `a / b` rounded toward zero, as Rust's `/` on integers (`b > 0`).
pub open spec fn tdiv(a: int, b: int) -> int {
    if a >= 0 {
        a / b
    } else {
        -((-a) / b)
    }
}

/// Where a window of size `geo` sits centered in `zone` (top-left when it
/// does not fit).
pub open spec fn centered_spec(zone: Rect, geo: Rect) -> Point {
    let dw = zone.w - geo.w;
    let dh = zone.h - geo.h;
    Point {
        x: (zone.x + (if dw > 0 { dw } else { 0 }) / 2) as i32,
        y: (zone.y + (if dh > 0 { dh } else { 0 }) / 2) as i32,
    }
}

/// Coordinates that leave room for the placement arithmetic.
pub open spec fn rect_small(r: Rect) -> bool {
    &&& -0x2000_0000 <= r.x <= 0x2000_0000
    &&& -0x2000_0000 <= r.y <= 0x2000_0000
    &&& -0x2000_0000 <= r.w <= 0x2000_0000
    &&& -0x2000_0000 <= r.h <= 0x2000_0000
}

pub fn centered_loc(zone: Rect, geo: Rect) -> (p: Point)
    requires
        rect_small(zone),
        rect_small(geo),
    ensures
        p == centered_spec(zone, geo),
{
    let dw = zone.w - geo.w;
    let dh = zone.h - geo.h;
    Point {
        x: zone.x + (if dw > 0 {
            dw
        } else {
            0
        }) / 2,
        y: zone.y + (if dh > 0 {
            dh
        } else {
            0
        }) / 2,
    }
}

/// A width and a height.
#[derive(Clone, Copy, Debug, PartialEq, Eq, Structural)]
pub struct Size {
    pub w: i32,
    pub h: i32,
}

/// Size, position and xdg state of one toplevel.
#[derive(Clone, Copy, Debug, PartialEq, Eq, Structural)]
pub struct Placement {
    pub loc: Point,
    /// Configured size; `None` lets the client pick.
    pub size: Option<Size>,
    /// Bounds hint for a client that picks its own size.
    pub bounds: Option<Size>,
    pub maximized: bool,
    pub reported: WindowMode,
}

/// Dialogs float at their own size, centered over their parent (or the
/// zone when the parent is not placed); everything else fills the zone,
/// maximized.
pub open spec fn placement_spec(dialog: bool, zone: Rect, geo: Rect, parent: Option<Rect>) -> Placement {
    if dialog {
        Placement {
            loc: match parent {
                Some(p) => Point {
                    x: (p.x + tdiv(p.w - geo.w, 2)) as i32,
                    y: (p.y + tdiv(p.h - geo.h, 2)) as i32,
                },
                None => centered_spec(zone, geo),
            },
            size: None,
            bounds: Some(Size { w: zone.w, h: zone.h }),
            maximized: false,
            reported: WindowMode::Floating,
        }
    } else {
        Placement {
            loc: Point { x: zone.x, y: zone.y },
            size: Some(Size { w: zone.w, h: zone.h }),
            bounds: None,
            maximized: true,
            reported: WindowMode::Maximized,
        }
    }
}

/// Placement of a toplevel of size `geo` in `zone` (see `placement_spec`);
/// `parent` is the placed rectangle of a dialog's parent.
pub fn placement(dialog: bool, zone: Rect, geo: Rect, parent: Option<Rect>) -> (r: Placement)
    requires
        rect_small(zone),
        rect_small(geo),
        parent matches Some(p) ==> rect_small(p),
    ensures
        r == placement_spec(dialog, zone, geo, parent),
{
    if dialog {
        let loc = match parent {
            Some(p) => {
                let dw = p.w - geo.w;
                let dh = p.h - geo.h;
                Point { x: p.x + dw / 2, y: p.y + dh / 2 }
            },
            None => centered_loc(zone, geo),
        };
        Placement {
            loc,
            size: None,
            bounds: Some(Size { w: zone.w, h: zone.h }),
            maximized: false,
            reported: WindowMode::Floating,
        }
    } else {
        Placement {
            loc: Point { x: zone.x, y: zone.y },
            size: Some(Size { w: zone.w, h: zone.h }),
            bounds: None,
            maximized: true,
            reported: WindowMode::Maximized,
        }
    }
}

// ---------------------------------------------------------------------------
// Laying out an output.

/// What the layout needs to know of a toplevel.
#[derive(Clone, Copy, Debug, PartialEq, Eq, Structural)]
pub struct WindowInfo {
    pub surface: SurfaceId,
    pub mode: WindowMode,
    /// It has a parent toplevel.
    pub dialog: bool,
    /// Its current geometry (the size is what matters).
    pub geo: Rect,
    /// Where its parent is placed, for a dialog whose parent is placed.
    pub parent_geo: Option<Rect>,
}

/// The first record of `s` in `windows`.
pub open spec fn info_of(windows: Seq<WindowInfo>, s: SurfaceId) -> Option<WindowInfo>
    decreases windows.len(),
{
    if windows.len() == 0 {
        None
    } else if windows[0].surface == s {
        Some(windows[0])
    } else {
        info_of(windows.drop_first(), s)
    }
}

/// Placements for the stack, back to front: every stacked toplevel that is
/// known and not fullscreen (a fullscreen window keeps its own geometry).
pub open spec fn plan_spec(stack: Seq<SurfaceId>, windows: Seq<WindowInfo>, zone: Rect) -> Seq<(SurfaceId, Placement)>
    decreases stack.len(),
{
    if stack.len() == 0 {
        Seq::empty()
    } else {
        let rest = plan_spec(stack.drop_last(), windows, zone);
        let s = stack.last();
        match info_of(windows, s) {
            Some(w) => if w.mode == WindowMode::Fullscreen {
                rest
            } else {
                rest.push((s, placement_spec(w.dialog, zone, w.geo, w.parent_geo)))
            },
            None => rest,
        }
    }
}

/// Every geometry is small enough to place.
pub open spec fn windows_small(windows: Seq<WindowInfo>) -> bool {
    forall|i: int|
        0 <= i < windows.len() ==> rect_small(#[trigger] windows[i].geo) && (windows[i].parent_geo matches Some(p) ==> rect_small(p))
}

fn info_in(windows: &[WindowInfo], s: SurfaceId) -> (r: Option<WindowInfo>)
    ensures
        r == info_of(windows@, s),
        r matches Some(w) ==> exists|i: int| 0 <= i < windows@.len() && windows@[i] == w,
{
    let mut k: usize = 0;
    assert(windows@.skip(0) =~= windows@);
    while k < windows.len()
        invariant
            0 <= k <= windows@.len(),
            info_of(windows@, s) == info_of(windows@.skip(k as int), s),
        decreases windows@.len() - k,
    {
        assert(windows@.skip(k as int)[0] == windows@[k as int]);
        assert(windows@.skip(k as int).drop_first() =~= windows@.skip(k + 1));
        if windows[k].surface == s {
            return Some(windows[k]);
        }
        k = k + 1;
    }
    assert(windows@.skip(k as int) =~= Seq::<WindowInfo>::empty());
    None
}

impl Layout {
    /// Lay the output out: bring the focused window's ancestor chain to the
    /// front (when there is a focused window), take the new work zone, and
    /// place every stacked toplevel that is known and not fullscreen, back
    /// to front (the order to raise them in).
    pub fn apply_layout(
        &mut self,
        focused: Option<SurfaceId>,
        parents: &[(SurfaceId, SurfaceId)],
        zone: Rect,
        windows: &[WindowInfo],
    ) -> (plan: Vec<(SurfaceId, Placement)>)
        requires
            focused matches Some(f) ==> reaches_root(parents@, f, parents@.len()),
            rect_small(zone),
            windows_small(windows@),
        ensures
            final(self)@.zone == zone,
            final(self)@.stack == match focused {
                Some(f) => activate_spec(old(self)@.stack, chain_spec(parents@, f)),
                None => old(self)@.stack,
            },
            plan@ == plan_spec(final(self)@.stack, windows@, zone),
    {
        match focused {
            Some(f) => {
                let group = ancestor_chain(f, parents);
                self.activate_group(group);
            },
            None => {},
        }
        self.set_zone(zone);
        let ghost st = self@.stack;
        let mut plan: Vec<(SurfaceId, Placement)> = Vec::new();
        let mut k: usize = 0;
        assert(st.take(0) =~= Seq::<SurfaceId>::empty());
        while k < self.stack.len()
            invariant
                0 <= k <= st.len(),
                st == self@.stack,
                self@.zone == zone,
                rect_small(zone),
                windows_small(windows@),
                plan@ == plan_spec(st.take(k as int), windows@, zone),
            decreases st.len() - k,
        {
            assert(st.take(k + 1).drop_last() =~= st.take(k as int));
            assert(st.take(k + 1).last() == st[k as int]);
            let s = self.stack[k];
            match info_in(windows, s) {
                Some(w) => {
                    if w.mode != WindowMode::Fullscreen {
                        let p = placement(w.dialog, zone, w.geo, w.parent_geo);
                        plan.push((s, p));
                    }
                },
                None => {},
            }
            k = k + 1;
        }
        assert(st.take(k as int) =~= st);
        plan
    }
}

// ---------------------------------------------------------------------------
// Client requests on a toplevel's mode.

/// An xdg-toplevel state request.
#[derive(Clone, Copy, Debug, PartialEq, Eq, Structural)]
pub enum ModeRequest {
    Maximize,
    Unmaximize,
    /// `output_known`: the compositor has an output to fill.
    Fullscreen { output_known: bool },
    Unfullscreen,
}

/// What the compositor does with a mode request.
#[derive(Clone, Copy, Debug, PartialEq, Eq, Structural)]
pub enum ModeResponse {
    /// Nothing changes and nothing is sent.
    Ignore,
    /// Lay the output out again, then send a configure.
    Relayout,
    /// Fill the output (when it is known, with this new mode), send a
    /// configure and focus the window.
    EnterFullscreen { mode: WindowMode },
    /// Back to maximized: lay out again and send a configure.
    LeaveFullscreen,
}

/// Dialogs are never maximized or fullscreen; a fullscreen window keeps its
/// mode against maximize; restoring what is not maximized or not fullscreen
/// does nothing.
pub open spec fn mode_request_spec(req: ModeRequest, dialog: bool, mode: WindowMode) -> ModeResponse {
    match req {
        ModeRequest::Maximize => if dialog || mode == WindowMode::Fullscreen {
            ModeResponse::Ignore
        } else {
            ModeResponse::Relayout
        },
        ModeRequest::Unmaximize => if dialog || mode != WindowMode::Maximized {
            ModeResponse::Ignore
        } else {
            ModeResponse::Relayout
        },
        ModeRequest::Fullscreen { output_known } => if dialog || mode == WindowMode::Fullscreen {
            ModeResponse::Ignore
        } else {
            ModeResponse::EnterFullscreen {
                mode: if output_known {
                    WindowMode::Fullscreen
                } else {
                    mode
                },
            }
        },
        ModeRequest::Unfullscreen => if mode != WindowMode::Fullscreen {
            ModeResponse::Ignore
        } else {
            ModeResponse::LeaveFullscreen
        },
    }
}

pub fn mode_request(req: ModeRequest, dialog: bool, mode: WindowMode) -> (r: ModeResponse)
    ensures
        r == mode_request_spec(req, dialog, mode),
{
    match req {
        ModeRequest::Maximize => if dialog || mode == WindowMode::Fullscreen {
            ModeResponse::Ignore
        } else {
            ModeResponse::Relayout
        },
        ModeRequest::Unmaximize => if dialog || mode != WindowMode::Maximized {
            ModeResponse::Ignore
        } else {
            ModeResponse::Relayout
        },
        ModeRequest::Fullscreen { output_known } => if dialog || mode == WindowMode::Fullscreen {
            ModeResponse::Ignore
        } else {
            ModeResponse::EnterFullscreen {
                mode: if output_known {
                    WindowMode::Fullscreen
                } else {
                    mode
                },
            }
        },
        ModeRequest::Unfullscreen => if mode != WindowMode::Fullscreen {
            ModeResponse::Ignore
        } else {
            ModeResponse::LeaveFullscreen
        },
    }
}

/// A fullscreen window keeps keyboard focus: focusing another window is
/// refused while one is active.
pub fn may_focus(active_fullscreen: Option<SurfaceId>, window: SurfaceId) -> (b: bool)
    ensures
        b == match active_fullscreen {
            Some(f) => f == window,
            None => true,
        },
{
    match active_fullscreen {
        Some(f) => f == window,
        None => true,
    }
}

/// The mode a window has after a request.
pub open spec fn mode_after(r: ModeResponse, mode: WindowMode) -> WindowMode {
    match r {
        ModeResponse::EnterFullscreen { mode: m } => m,
        ModeResponse::LeaveFullscreen => WindowMode::Maximized,
        _ => mode,
    }
}

/// No request makes a dialog fullscreen or changes its mode.
pub proof fn lemma_dialog_mode_fixed(req: ModeRequest, mode: WindowMode)
    ensures
        req != ModeRequest::Unfullscreen ==> mode_after(mode_request_spec(req, true, mode), mode)
            == mode,
        mode != WindowMode::Fullscreen ==> mode_after(mode_request_spec(req, true, mode), mode)
            != WindowMode::Fullscreen,
{
}

/// A second identical fullscreen or unfullscreen request changes nothing.
pub proof fn lemma_fullscreen_idempotent(dialog: bool, mode: WindowMode)
    ensures
        ({
            let m1 = mode_after(
                mode_request_spec(ModeRequest::Fullscreen { output_known: true }, dialog, mode),
                mode,
            );
            mode_request_spec(ModeRequest::Fullscreen { output_known: true }, dialog, m1)
                == ModeResponse::Ignore
        }),
        ({
            let m1 = mode_after(mode_request_spec(ModeRequest::Unfullscreen, dialog, mode), mode);
            mode_request_spec(ModeRequest::Unfullscreen, dialog, m1) == ModeResponse::Ignore
        }),
{
}

// ---------------------------------------------------------------------------
// Laws.

/// Activating a group brings it to the front in its own order, keeps every
/// other surface, and stacks nothing twice when neither did before.
pub proof fn lemma_activate_group(stack: Seq<SurfaceId>, group: Seq<SurfaceId>)
    ensures
        ({
            let r = activate_spec(stack, group);
            &&& r.skip(r.len() - group.len()) == group
            &&& forall|x: SurfaceId| #[trigger] r.contains(x) <==> (stack.contains(x) || group.contains(x))
            &&& (stack.no_duplicates() && group.no_duplicates()) ==> r.no_duplicates()
        }),
{
    let r = activate_spec(stack, group);
    let rest = select(stack, group, false);
    assert(r.skip(r.len() - group.len()) =~= group);
    assert forall|x: SurfaceId| #[trigger] r.contains(x) <==> (stack.contains(x) || group.contains(x)) by {
        lemma_select_contains(stack, group, false, x);
        if r.contains(x) {
            let i = choose|i: int| 0 <= i < r.len() && r[i] == x;
            if i < rest.len() {
                assert(rest[i] == x);
            } else {
                assert(group[i - rest.len()] == x);
            }
        }
        if rest.contains(x) {
            let i = choose|i: int| 0 <= i < rest.len() && rest[i] == x;
            assert(r[i] == x);
        }
        if group.contains(x) {
            let i = choose|i: int| 0 <= i < group.len() && group[i] == x;
            assert(r[rest.len() + i] == x);
        }
    }
    if stack.no_duplicates() && group.no_duplicates() {
        lemma_select_no_duplicates(stack, group, false);
        assert forall|i: int, j: int| 0 <= i < j < r.len() implies r[i] != r[j] by {
            if j < rest.len() {
            } else if i >= rest.len() {
                assert(group[i - rest.len()] != group[j - rest.len()]);
            } else {
                lemma_select_contains(stack, group, false, rest[i]);
                assert(rest.contains(rest[i]));
                assert(group.contains(r[j]));
            }
        }
    }
}

/// Inserting twice stacks a surface once, and removing it unstacks it.
pub proof fn lemma_insert_remove(stack: Seq<SurfaceId>, s: SurfaceId)
    ensures
        ({
            let once = if stack.contains(s) {
                stack
            } else {
                stack.push(s)
            };
            &&& once.contains(s)
            &&& (if once.contains(s) {
                once
            } else {
                once.push(s)
            }) == once
            &&& !without(once, s).contains(s)
        }),
{
    let once = if stack.contains(s) {
        stack
    } else {
        stack.push(s)
    };
    if !stack.contains(s) {
        assert(once[stack.len() as int] == s);
    }
    lemma_without_contains(once, s, s);
}

} // verus!
