//! Widget processes and their surfaces: which slot to start next, which
//! nest toplevel belongs to which slot, and where each surface goes.
//!
//! Starting and watching processes is the caller's work: it asks
//! `next_spawn`, starts the command, and reports back with `spawn_done` and
//! `reap`.

use vstd::prelude::*;

use crate::geometry::Rect;
use crate::home::{
    Home, HomeView, Item, ItemId, Kind, SurfaceId, cells_of_spec, find_item, home_wf,
    lemma_cells_of_in_limits, lemma_find_item, lift_rect_spec, lifted_spec, rect_of_spec,
};
use crate::text::{is_blank, is_blank_spec};

verus! {

/// A widget whose process runs but has not shown a surface yet.
pub open spec fn pending_claim(i: Item) -> bool {
    i.kind matches Kind::Widget { child: Some(_), surface: None, .. }
}

/// A widget with a command to run, nothing running, and no failed start.
pub open spec fn ready_to_spawn(i: Item) -> bool {
    i.kind matches Kind::Widget {
        child: None,
        surface: None,
        launch_failed: false,
        command,
        ..
    } && !is_blank_spec(command@)
}

pub open spec fn owns_surface(i: Item, s: SurfaceId) -> bool {
    i.kind matches Kind::Widget { surface: Some(t), .. } && t == s
}

/// Index of the first item from `k` on that satisfies `p`.
pub open spec fn first_where(items: Seq<Item>, p: spec_fn(Item) -> bool, k: int) -> Option<int>
    decreases items.len() - k,
{
    if k < 0 || k >= items.len() {
        None
    } else if p(items[k]) {
        Some(k)
    } else {
        first_where(items, p, k + 1)
    }
}

pub proof fn lemma_first_where(items: Seq<Item>, p: spec_fn(Item) -> bool, k: int)
    requires
        k >= 0,
    ensures
        first_where(items, p, k) matches Some(j) ==> k <= j < items.len() && p(items[j]) && (
        forall|i: int| k <= i < j ==> !p(#[trigger] items[i])),
        first_where(items, p, k) is None ==> forall|i: int|
            k <= i < items.len() ==> !p(#[trigger] items[i]),
    decreases items.len() - k,
{
    if k < items.len() {
        lemma_first_where(items, p, k + 1);
    }
}

/// The slot to start next: none before the output has a size or while
/// another started widget has not shown its surface; else the first widget
/// ready to start.
pub open spec fn next_spawn_spec(h: HomeView) -> Option<int> {
    if h.output_w <= 0 || h.output_h <= 0 {
        None
    } else if first_where(h.items, |i: Item| pending_claim(i), 0) is Some {
        None
    } else {
        first_where(h.items, |i: Item| ready_to_spawn(i), 0)
    }
}

pub open spec fn command_of(i: Item) -> Seq<char> {
    match i.kind {
        Kind::Widget { command, .. } => command@,
        Kind::Icon { .. } => Seq::empty(),
    }
}

/// A widget after its start: the process, or the failure.
pub open spec fn started(i: Item, pid: Option<u32>) -> Item {
    match i.kind {
        Kind::Widget { command, surface, child, launch_failed, ever_mapped } => match pid {
            Some(p) => Item {
                kind: Kind::Widget { command, surface, child: Some(p), launch_failed, ever_mapped },
                ..i
            },
            None => Item {
                kind: Kind::Widget { command, surface, child, launch_failed: true, ever_mapped },
                ..i
            },
        },
        Kind::Icon { .. } => i,
    }
}

pub open spec fn spawn_done_spec(h: HomeView, id: ItemId, pid: Option<u32>) -> HomeView {
    match find_item(h.items, id, 0) {
        Some(k) => HomeView { items: h.items.update(k, started(h.items[k], pid)), ..h },
        None => h,
    }
}

/// A widget after process `pid` ended: no process, and a failed start if
/// it never showed a surface.
pub open spec fn exited(i: Item, pid: u32) -> Item {
    match i.kind {
        Kind::Widget { command, surface, child: Some(c), launch_failed, ever_mapped } => if c
            == pid {
            Item {
                kind: Kind::Widget {
                    command,
                    surface,
                    child: None,
                    launch_failed: launch_failed || !ever_mapped,
                    ever_mapped,
                },
                ..i
            }
        } else {
            i
        },
        _ => i,
    }
}

pub open spec fn reap_spec(h: HomeView, pid: u32) -> HomeView {
    HomeView { items: h.items.map_values(|i: Item| exited(i, pid)), ..h }
}

/// A client belongs to the process a slot started when it is that process
/// or in its process group (`client_pgid`, negative when unknown).
pub open spec fn owns_pid_spec(spawn_pid: u32, client_pid: u32, client_pgid: i32) -> bool {
    client_pid == spawn_pid || (client_pgid >= 0 && client_pgid as u32 == spawn_pid)
}

/// A widget that now shows surface `s`.
pub open spec fn claimed(i: Item, s: SurfaceId) -> Item {
    match i.kind {
        Kind::Widget { command, child, launch_failed, .. } => Item {
            kind: Kind::Widget {
                command,
                surface: Some(s),
                child,
                launch_failed,
                ever_mapped: true,
            },
            ..i
        },
        Kind::Icon { .. } => i,
    }
}

/// A new nest toplevel `s` goes to the first widget waiting for its
/// surface, if that widget's process owns the client; a surface a widget
/// already shows is accepted as it is.
pub open spec fn attach_spec(h: HomeView, s: SurfaceId, client_pid: u32, client_pgid: i32) -> (
    bool,
    HomeView,
) {
    if first_where(h.items, |i: Item| owns_surface(i, s), 0) is Some {
        (true, h)
    } else {
        match first_where(h.items, |i: Item| pending_claim(i), 0) {
            Some(k) => match h.items[k].kind {
                Kind::Widget { child: Some(p), .. } => if owns_pid_spec(p, client_pid, client_pgid) {
                    (true, HomeView { items: h.items.update(k, claimed(h.items[k], s)), ..h })
                } else {
                    (false, h)
                },
                _ => (false, h),
            },
            None => (false, h),
        }
    }
}

/// A widget whose surface is among `dead` lets go of it.
pub open spec fn released(i: Item, dead: Seq<SurfaceId>) -> Item {
    match i.kind {
        Kind::Widget { command, surface: Some(t), child, launch_failed, ever_mapped } => if dead.contains(t) {
            Item {
                kind: Kind::Widget { command, surface: None, child, launch_failed, ever_mapped },
                ..i
            }
        } else {
            i
        },
        _ => i,
    }
}

pub open spec fn release_dead_spec(h: HomeView, dead: Seq<SurfaceId>) -> HomeView {
    HomeView { items: h.items.map_values(|i: Item| released(i, dead)), ..h }
}

/// Where the surface of a widget goes: the lifted tile while it is carried,
/// else its cells.
pub open spec fn slot_rect_spec(h: HomeView, s: SurfaceId) -> Option<Rect> {
    match first_where(h.items, |i: Item| owns_surface(i, s), 0) {
        Some(k) => {
            let id = h.items[k].id;
            if lifted_spec(h) == Some(id) {
                Some(lift_rect_spec(h, id))
            } else {
                Some(rect_of_spec(h, cells_of_spec(h, id)))
            }
        },
        None => None,
    }
}

pub open spec fn page_nearby_spec(h: HomeView, page: u32) -> bool {
    -1 <= page - h.pages.current <= 1
}

/// Surfaces of the widgets on the current page and its neighbours.
pub open spec fn on_screen(h: HomeView, items: Seq<Item>) -> Seq<SurfaceId>
    decreases items.len(),
{
    if items.len() == 0 {
        Seq::empty()
    } else {
        let rest = on_screen(h, items.drop_last());
        let i = items.last();
        match i.kind {
            Kind::Widget { surface: Some(s), .. } => if page_nearby_spec(h, i.cells.page) {
                rest.push(s)
            } else {
                rest
            },
            _ => rest,
        }
    }
}

pub open spec fn lifted_surface_spec(h: HomeView) -> Option<SurfaceId> {
    match lifted_spec(h) {
        Some(id) => match find_item(h.items, id, 0) {
            Some(k) => match h.items[k].kind {
                Kind::Widget { surface, .. } => surface,
                Kind::Icon { .. } => None,
            },
            None => None,
        },
        None => None,
    }
}

/// A client belongs to a slot's process (see `owns_pid_spec`).
pub fn spawn_owns_pid(spawn_pid: u32, client_pid: u32, client_pgid: i32) -> (b: bool)
    ensures
        b == owns_pid_spec(spawn_pid, client_pid, client_pgid),
{
    if client_pid == spawn_pid {
        return true;
    }
    client_pgid >= 0 && client_pgid as u32 == spawn_pid
}

fn is_pending(i: &Item) -> (b: bool)
    ensures
        b == pending_claim(*i),
{
    match &i.kind {
        Kind::Widget { child: Some(_), surface: None, .. } => true,
        _ => false,
    }
}

fn is_ready(i: &Item) -> (b: bool)
    ensures
        b == ready_to_spawn(*i),
{
    match &i.kind {
        Kind::Widget { child: None, surface: None, launch_failed: false, command, .. } => !is_blank(
            command.as_str(),
        ),
        _ => false,
    }
}

fn shows_surface(i: &Item, s: SurfaceId) -> (b: bool)
    ensures
        b == owns_surface(*i, s),
{
    match &i.kind {
        Kind::Widget { surface: Some(t), .. } => *t == s,
        _ => false,
    }
}

impl Home {
    fn first_pending(&self) -> (r: Option<usize>)
        ensures
            r matches Some(k) ==> first_where(self@.items, |i: Item| pending_claim(i), 0) == Some(
                k as int,
            ) && k < self@.items.len(),
            r is None ==> first_where(self@.items, |i: Item| pending_claim(i), 0) is None,
    {
        let ghost p = |i: Item| pending_claim(i);
        let mut k: usize = 0;
        while k < self.items.len()
            invariant
                0 <= k <= self@.items.len(),
                p == (|i: Item| pending_claim(i)),
                first_where(self@.items, p, 0) == first_where(self@.items, p, k as int),
            decreases self@.items.len() - k,
        {
            if is_pending(&self.items[k]) {
                return Some(k);
            }
            k = k + 1;
        }
        None
    }

    fn first_owner(&self, s: SurfaceId) -> (r: Option<usize>)
        ensures
            r matches Some(k) ==> first_where(self@.items, |i: Item| owns_surface(i, s), 0) == Some(
                k as int,
            ) && k < self@.items.len(),
            r is None ==> first_where(self@.items, |i: Item| owns_surface(i, s), 0) is None,
    {
        let ghost p = |i: Item| owns_surface(i, s);
        let mut k: usize = 0;
        while k < self.items.len()
            invariant
                0 <= k <= self@.items.len(),
                p == (|i: Item| owns_surface(i, s)),
                first_where(self@.items, p, 0) == first_where(self@.items, p, k as int),
            decreases self@.items.len() - k,
        {
            if shows_surface(&self.items[k], s) {
                return Some(k);
            }
            k = k + 1;
        }
        None
    }

    /// The slot to start next and its command (see `next_spawn_spec`).
    pub fn next_spawn(&self) -> (r: Option<(ItemId, String)>)
        ensures
            match next_spawn_spec(self@) {
                Some(k) => r matches Some((id, c)) && id == self@.items[k].id && c@ == command_of(
                    self@.items[k],
                ),
                None => r is None,
            },
    {
        if self.output_w <= 0 || self.output_h <= 0 {
            return None;
        }
        if self.first_pending().is_some() {
            return None;
        }
        let ghost p = |i: Item| ready_to_spawn(i);
        let mut k: usize = 0;
        while k < self.items.len()
            invariant
                0 <= k <= self@.items.len(),
                p == (|i: Item| ready_to_spawn(i)),
                first_where(self@.items, p, 0) == first_where(self@.items, p, k as int),
                first_where(self@.items, |i: Item| pending_claim(i), 0) is None,
                self@.output_w > 0,
                self@.output_h > 0,
            decreases self@.items.len() - k,
        {
            if is_ready(&self.items[k]) {
                assert(p(self@.items[k as int]));
                assert(first_where(self@.items, p, k as int) == Some(k as int));
                match &self.items[k].kind {
                    Kind::Widget { command, .. } => {
                        return Some((self.items[k].id, command.clone()));
                    },
                    Kind::Icon { .. } => {},
                }
            }
            k = k + 1;
        }
        None
    }

    /// Record the start of slot `id`: its process, or `None` when the
    /// command could not be started.
    pub fn spawn_done(&mut self, id: ItemId, pid: Option<u32>)
        ensures
            final(self)@ == spawn_done_spec(old(self)@, id, pid),
    {
        match self.find(id) {
            Some(k) => {
                let kind = match &self.items[k].kind {
                    Kind::Widget { command, surface, child, launch_failed, ever_mapped } => {
                        match pid {
                            Some(p) => Kind::Widget {
                                command: command.clone(),
                                surface: *surface,
                                child: Some(p),
                                launch_failed: *launch_failed,
                                ever_mapped: *ever_mapped,
                            },
                            None => Kind::Widget {
                                command: command.clone(),
                                surface: *surface,
                                child: *child,
                                launch_failed: true,
                                ever_mapped: *ever_mapped,
                            },
                        }
                    },
                    Kind::Icon { .. } => {
                        assert(self@.items.update(k as int, self@.items[k as int]) =~= self@.items);
                        return ;
                    },
                };
                self.items[k].kind = kind;
                assert(self@.items =~= old(self)@.items.update(
                    k as int,
                    started(old(self)@.items[k as int], pid),
                ));
            },
            None => {},
        }
    }

    /// Record that process `pid` has ended (see `exited`).
    pub fn reap(&mut self, pid: u32)
        ensures
            final(self)@ == reap_spec(old(self)@, pid),
    {
        let ghost h0 = self@;
        let mut k: usize = 0;
        while k < self.items.len()
            invariant
                0 <= k <= self@.items.len(),
                self@.items.len() == h0.items.len(),
                self@ == (HomeView { items: self@.items, ..h0 }),
                forall|j: int|
                    0 <= j < self@.items.len() ==> #[trigger] self@.items[j] == if j < k {
                        exited(h0.items[j], pid)
                    } else {
                        h0.items[j]
                    },
            decreases self@.items.len() - k,
        {
            let next = match &self.items[k].kind {
                Kind::Widget { command, surface, child: Some(c), launch_failed, ever_mapped } => {
                    if *c == pid {
                        Some(
                            Kind::Widget {
                                command: command.clone(),
                                surface: *surface,
                                child: None,
                                launch_failed: *launch_failed || !*ever_mapped,
                                ever_mapped: *ever_mapped,
                            },
                        )
                    } else {
                        None
                    }
                },
                _ => None,
            };
            match next {
                Some(kind) => {
                    self.items[k].kind = kind;
                },
                None => {},
            }
            k = k + 1;
        }
        assert(self@.items =~= h0.items.map_values(|i: Item| exited(i, pid)));
    }

    /// Give the new nest toplevel `surface` of client `client_pid` (process
    /// group `client_pgid`, negative when unknown) to the slot that started
    /// it (see `attach_spec`).
    pub fn attach_spawned(&mut self, surface: SurfaceId, client_pid: u32, client_pgid: i32) -> (b:
        bool)
        ensures
            (b, final(self)@) == attach_spec(old(self)@, surface, client_pid, client_pgid),
    {
        if self.first_owner(surface).is_some() {
            return true;
        }
        let k = match self.first_pending() {
            Some(k) => k,
            None => {
                return false;
            },
        };
        let kind = match &self.items[k].kind {
            Kind::Widget { command, child: Some(p), launch_failed, .. } => {
                if !spawn_owns_pid(*p, client_pid, client_pgid) {
                    return false;
                }
                Kind::Widget {
                    command: command.clone(),
                    surface: Some(surface),
                    child: Some(*p),
                    launch_failed: *launch_failed,
                    ever_mapped: true,
                }
            },
            _ => {
                return false;
            },
        };
        self.items[k].kind = kind;
        assert(self@.items =~= old(self)@.items.update(
            k as int,
            claimed(old(self)@.items[k as int], surface),
        ));
        true
    }

    /// Let go of the surfaces in `dead`.
    pub fn release_dead(&mut self, dead: &[SurfaceId])
        ensures
            final(self)@ == release_dead_spec(old(self)@, dead@),
    {
        let ghost h0 = self@;
        let mut k: usize = 0;
        while k < self.items.len()
            invariant
                0 <= k <= self@.items.len(),
                self@.items.len() == h0.items.len(),
                self@ == (HomeView { items: self@.items, ..h0 }),
                forall|j: int|
                    0 <= j < self@.items.len() ==> #[trigger] self@.items[j] == if j < k {
                        released(h0.items[j], dead@)
                    } else {
                        h0.items[j]
                    },
            decreases self@.items.len() - k,
        {
            let next = match &self.items[k].kind {
                Kind::Widget { command, surface: Some(t), child, launch_failed, ever_mapped } => {
                    if contains_surface(dead, *t) {
                        Some(
                            Kind::Widget {
                                command: command.clone(),
                                surface: None,
                                child: *child,
                                launch_failed: *launch_failed,
                                ever_mapped: *ever_mapped,
                            },
                        )
                    } else {
                        None
                    }
                },
                _ => None,
            };
            match next {
                Some(kind) => {
                    self.items[k].kind = kind;
                },
                None => {},
            }
            k = k + 1;
        }
        assert(self@.items =~= h0.items.map_values(|i: Item| released(i, dead@)));
    }

    /// Where the widget showing `surface` goes (see `slot_rect_spec`).
    pub fn slot_rect(&self, surface: SurfaceId) -> (r: Option<Rect>)
        requires
            home_wf(self@),
        ensures
            r == slot_rect_spec(self@, surface),
    {
        match self.first_owner(surface) {
            Some(k) => {
                let id = self.items[k].id;
                if self.lifted() == Some(id) {
                    Some(self.lift_rect(id))
                } else {
                    Some(self.item_rect(id))
                }
            },
            None => None,
        }
    }

    /// Whether `page` is the current page or one of its neighbours.
    pub fn page_nearby(&self, page: u32) -> (b: bool)
        ensures
            b == page_nearby_spec(self@, page),
    {
        self.pages.nearby(page)
    }

    /// Surfaces of the widgets on or next to the current page.
    pub fn widgets_on_screen(&self) -> (v: Vec<SurfaceId>)
        ensures
            v@ == on_screen(self@, self@.items),
    {
        let mut v: Vec<SurfaceId> = Vec::new();
        let mut k: usize = 0;
        while k < self.items.len()
            invariant
                0 <= k <= self@.items.len(),
                v@ == on_screen(self@, self@.items.take(k as int)),
            decreases self@.items.len() - k,
        {
            proof {
                assert(self@.items.take(k + 1).drop_last() =~= self@.items.take(k as int));
                assert(self@.items.take(k + 1).last() == self@.items[k as int]);
            }
            match &self.items[k].kind {
                Kind::Widget { surface: Some(s), .. } => {
                    if self.page_nearby(self.items[k].cells.page) {
                        v.push(*s);
                    }
                },
                _ => {},
            }
            k = k + 1;
        }
        assert(self@.items.take(k as int) =~= self@.items);
        v
    }

    /// The surface of the lifted widget, if a widget is lifted.
    pub fn lifted_surface(&self) -> (r: Option<SurfaceId>)
        ensures
            r == lifted_surface_spec(self@),
    {
        match self.lifted() {
            Some(id) => match self.find(id) {
                Some(k) => match &self.items[k].kind {
                    Kind::Widget { surface, .. } => *surface,
                    Kind::Icon { .. } => None,
                },
                None => None,
            },
            None => None,
        }
    }
}

fn contains_surface(dead: &[SurfaceId], s: SurfaceId) -> (b: bool)
    ensures
        b == dead@.contains(s),
{
    let mut k: usize = 0;
    while k < dead.len()
        invariant
            0 <= k <= dead@.len(),
            forall|j: int| 0 <= j < k ==> dead@[j] != s,
        decreases dead@.len() - k,
    {
        if dead[k] == s {
            return true;
        }
        k = k + 1;
    }
    false
}

/// A slot whose command could not be started is not started again.
pub proof fn lemma_failed_start_not_retried(h: HomeView, id: ItemId)
    requires
        find_item(h.items, id, 0) is Some,
    ensures
        ({
            let k = find_item(h.items, id, 0)->0;
            let h2 = spawn_done_spec(h, id, None);
            &&& !ready_to_spawn(h2.items[k])
            &&& next_spawn_spec(h2) != Some(k)
        }),
{
    lemma_find_item(h.items, id, 0);
    let k = find_item(h.items, id, 0)->0;
    let h2 = spawn_done_spec(h, id, None);
    lemma_first_where(h2.items, |i: Item| ready_to_spawn(i), 0);
}

/// Only the process a slot started (or its process group) can give that
/// slot its surface: an item changes only by being claimed, and only when
/// its process owns the client.
pub proof fn lemma_claim_needs_ownership(
    h: HomeView,
    s: SurfaceId,
    client_pid: u32,
    client_pgid: i32,
    j: int,
)
    requires
        0 <= j < h.items.len(),
        attach_spec(h, s, client_pid, client_pgid).1.items[j] != h.items[j],
    ensures
        h.items[j].kind matches Kind::Widget { child: Some(p), surface: None, .. } && owns_pid_spec(
            p,
            client_pid,
            client_pgid,
        ),
        attach_spec(h, s, client_pid, client_pgid).1.items[j] == claimed(h.items[j], s),
{
    lemma_first_where(h.items, |i: Item| pending_claim(i), 0);
}

} // verus!
