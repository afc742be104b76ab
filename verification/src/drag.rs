//! What a lift or a resize keeps while the pointer moves and the timers
//! run, and what cancelling it gives back.

use vstd::prelude::*;

use crate::geometry::Pos;
use crate::grid::RectCells;
use crate::home::{
    apply_all, contact_down_spec, drag_lift_spec, find_item, items_snapshot, lemma_apply_all_keeps,
    lemma_find_item, occupied_spec, place_lift_spec, pointer_move_spec, resize_item_spec,
    restore_spec, start_lift_spec, steal_touch_spec, tick_spec, touch_cancel_spec,
    try_place_spec, ActionView, Gesture, HomeView, Item, ItemId, home_wf, ids_unique,
};
use crate::pages::{page_set, rank};

verus! {

/// The items carry the ids of `c`, entry for entry.
pub open spec fn ids_match(items: Seq<Item>, c: Seq<(ItemId, RectCells)>) -> bool {
    &&& items.len() == c.len()
    &&& forall|k: int| 0 <= k < items.len() ==> (#[trigger] items[k]).id == c[k].0
}

/// A lift or a resize under way that began when the items had the cells
/// recorded in `c`.
pub open spec fn drag_from(h: HomeView, c: Seq<(ItemId, RectCells)>) -> bool {
    &&& (h.gesture is Lifted || h.gesture is Resizing)
    &&& h.drag_snapshot == Some(c)
    &&& ids_match(h.items, c)
}

/// Such a drag, with every item's id its own.
pub open spec fn drag_keeps(h: HomeView, c: Seq<(ItemId, RectCells)>) -> bool {
    &&& drag_from(h, c)
    &&& ids_unique(h.items)
}

/// Applying the first `n` entries of a snapshot whose ids are the items'
/// own, one for one, sets exactly those items' cells.
proof fn lemma_apply_own(items: Seq<Item>, c: Seq<(ItemId, RectCells)>, n: int)
    requires
        ids_match(items, c),
        ids_unique(items),
        0 <= n <= c.len(),
    ensures
        apply_all(items, c, n).len() == items.len(),
        forall|k: int|
            0 <= k < items.len() ==> {
                let r = #[trigger] apply_all(items, c, n)[k];
                &&& r.id == items[k].id
                &&& r.kind == items[k].kind
                &&& r.cells == if k < n {
                    c[k].1
                } else {
                    items[k].cells
                }
            },
    decreases n,
{
    if n > 0 {
        lemma_apply_own(items, c, n - 1);
        let prev = apply_all(items, c, n - 1);
        let id = c[n - 1].0;
        lemma_find_item(prev, id, 0);
        assert(prev[n - 1].id == id);
        let found = find_item(prev, id, 0);
        assert(found == Some(n - 1)) by {
            if let Some(j) = found {
                if j != n - 1 {
                    assert(prev[j].id == items[j].id);
                }
            }
        }
    }
}

/// Restoring a drag's snapshot puts every item on its recorded cells.
proof fn lemma_restore_own(h: HomeView, c: Seq<(ItemId, RectCells)>)
    requires
        h.drag_snapshot == Some(c),
        ids_match(h.items, c),
        ids_unique(h.items),
    ensures
        ids_match(restore_spec(h).items, c),
        ids_unique(restore_spec(h).items),
        items_snapshot(restore_spec(h).items) == c,
        forall|k: int|
            0 <= k < h.items.len() ==> (#[trigger] restore_spec(h).items[k]).cells == c[k].1,
{
    lemma_apply_own(h.items, c, c.len() as int);
    assert(items_snapshot(restore_spec(h).items) =~= c);
}

/// Placing or restoring keeps the items' ids, and so the drag.
proof fn lemma_try_place_keeps(
    h: HomeView,
    c: Seq<(ItemId, RectCells)>,
    id: ItemId,
    next: RectCells,
    dirs: Seq<crate::grid::Dir>,
)
    requires
        drag_keeps(h, c),
    ensures
        drag_keeps(try_place_spec(h, id, next, dirs).1, c),
{
    let (ok, h2) = try_place_spec(h, id, next, dirs);
    if ok {
        let p = crate::home::try_dirs(h, id, next, dirs, 0)->0;
        lemma_apply_all_keeps(h.items, p, p.len() as int);
    }
}

proof fn lemma_place_lift_keeps(
    h: HomeView,
    c: Seq<(ItemId, RectCells)>,
    id: ItemId,
    start: Pos,
    pos: Pos,
)
    requires
        drag_keeps(h, c),
    ensures
        drag_keeps(place_lift_spec(h, id, start, pos).1, c),
{
    lemma_restore_own(h, c);
    let origin = crate::home::snapshot_cells_spec(h, id);
    let hole = crate::home::hole_at_spec(h, crate::home::lift_rest_spec(h, id, start, pos), origin);
    lemma_try_place_keeps(h, c, id, hole, crate::home::dirs_for(origin, hole, None));
}

proof fn lemma_drag_lift_keeps(
    h: HomeView,
    c: Seq<(ItemId, RectCells)>,
    id: ItemId,
    start: Pos,
    pos: Pos,
    now: u64,
)
    requires
        drag_keeps(h, c),
        h.gesture is Lifted,
    ensures
        drag_keeps(drag_lift_spec(h, id, start, pos, now).1, c),
{
    let h1 = crate::home::follow_spec(h, id, start, pos);
    let (page, h2) = crate::home::edge_page_spec(h1, pos, now);
    match page {
        Some(p) => {
            let visual = h2.lift_loc;
            lemma_restore_own(h2, c);
            let r = restore_spec(h2);
            let r2 = HomeView { pages: crate::pages::Pages { current: p, ..r.pages }, ..r };
            let r3 = crate::home::begin_drag_spec(r2);
            let origin = crate::home::rect_of_spec(r3, crate::home::snapshot_cells_spec(r3, id));
            let st = Pos {
                x: (pos.x - 256 * (visual.x - origin.x)) as i64,
                y: (pos.y - 256 * (visual.y - crate::home::LIFT_NUDGE_Y - origin.y)) as i64,
            };
            let r4 = HomeView { gesture: Gesture::Lifted { item: id, start: st }, ..r3 };
            assert(drag_keeps(r4, c));
            lemma_place_lift_keeps(r4, c, id, st, pos);
        },
        None => {
            if crate::home::outside_grid_spec(h2, pos) {
                lemma_restore_own(HomeView { page_edge: None, ..h2 }, c);
            } else {
                lemma_place_lift_keeps(h2, c, id, start, pos);
            }
        },
    }
}

proof fn lemma_resize_keeps(
    h: HomeView,
    c: Seq<(ItemId, RectCells)>,
    id: ItemId,
    handle: crate::chrome::Handle,
    origin: RectCells,
    grab: Pos,
    pos: Pos,
)
    requires
        drag_keeps(h, c),
    ensures
        drag_keeps(resize_item_spec(h, id, handle, origin, grab, pos).1, c),
{
    let origin_rect = crate::home::rect_of_spec(h, origin);
    let (cw, ch) = crate::home::cell_spec(h);
    let at = Pos { x: (pos.x - grab.x) as i64, y: (pos.y - grab.y) as i64 };
    let h1 = HomeView {
        frame_preview: Some(crate::grid::resize_preview_spec(origin_rect, handle, at, cw as i32, ch as i32)),
        ..h
    };
    lemma_restore_own(h1, c);
    let next = crate::grid::resize_cells_spec(origin, origin_rect, handle, at, crate::home::metrics(h));
    lemma_try_place_keeps(h1, c, id, next, crate::home::dirs_for(origin, next, Some(handle)));
}

/// A pointer move or a timer tick during a drag.
pub enum DragEvent {
    Move { pos: Pos, now: u64 },
    Tick { now: u64 },
}

pub open spec fn drag_step(h: HomeView, e: DragEvent) -> HomeView {
    match e {
        DragEvent::Move { pos, now } => pointer_move_spec(h, pos, now).1,
        DragEvent::Tick { now } => tick_spec(h, now).1,
    }
}

/// The state after handing `events` to the homescreen in order.
pub open spec fn drag_run(h: HomeView, events: Seq<DragEvent>) -> HomeView
    decreases events.len(),
{
    if events.len() == 0 {
        h
    } else {
        drag_run(drag_step(h, events[0]), events.drop_first())
    }
}

proof fn lemma_step_keeps(h: HomeView, c: Seq<(ItemId, RectCells)>, e: DragEvent)
    requires
        drag_keeps(h, c),
    ensures
        drag_keeps(drag_step(h, e), c),
{
    match e {
        DragEvent::Move { pos, now } => {
            let h1 = HomeView { last_pos: pos, ..h };
            match h.gesture {
                Gesture::Lifted { item, start } => lemma_drag_lift_keeps(h1, c, item, start, pos, now),
                Gesture::Resizing { item, handle, origin, grab } => lemma_resize_keeps(h1, c, item, handle, origin, grab, pos),
                _ => {},
            }
        },
        DragEvent::Tick { now } => {
            match h.gesture {
                Gesture::Lifted { item, start } => if h.page_edge is Some {
                    lemma_drag_lift_keeps(h, c, item, start, h.last_pos, now);
                },
                _ => {},
            }
        },
    }
}

/// Moves and ticks never end a drag, nor change the snapshot it began from
/// or which items there are.
pub proof fn lemma_drag_run_keeps(h: HomeView, c: Seq<(ItemId, RectCells)>, events: Seq<DragEvent>)
    requires
        drag_keeps(h, c),
    ensures
        drag_keeps(drag_run(h, events), c),
    decreases events.len(),
{
    if events.len() > 0 {
        lemma_step_keeps(h, c, events[0]);
        lemma_drag_run_keeps(drag_step(h, events[0]), c, events.drop_first());
    }
}

/// The pages of the cells recorded in `c`.
pub open spec fn snapshot_pages(c: Seq<(ItemId, RectCells)>) -> Seq<u32> {
    c.map_values(|e: (ItemId, RectCells)| e.1.page)
}

/// Cancelling a lift or a resize, after any run of pointer moves and timer
/// ticks, puts every item back on the cells it had when the drag began
/// (with empty pages squeezed out, as at the end of every drag), ends the
/// gesture, asks for a relayout, hands a streamed finger over to be
/// cancelled, and does not mark the layout for saving.
pub proof fn lemma_cancel_restores(h: HomeView, c: Seq<(ItemId, RectCells)>, events: Seq<DragEvent>)
    requires
        home_wf(h),
        drag_from(h, c),
    ensures
        ({
            let before = drag_run(h, events);
            let (a, h2) = touch_cancel_spec(before);
            let pages = page_set(snapshot_pages(c));
            &&& a == ActionView::Relayout
            &&& h2.gesture is Idle
            &&& h2.drag_snapshot is None
            &&& h2.pages.lift_from is None
            &&& h2.persist == before.persist
            &&& h2.touch_grab is None
            &&& (before.touch_grab is Some ==> h2.touch_steal == before.touch_grab)
            &&& h2.items.len() == c.len()
            &&& forall|k: int|
                0 <= k < c.len() ==> (#[trigger] h2.items[k]).id == c[k].0 && h2.items[k].cells == (
                RectCells { page: rank(pages, c[k].1.page) as u32, ..c[k].1 })
        }),
{
    lemma_drag_run_keeps(h, c, events);
    let before = drag_run(h, events);
    let h1 = steal_touch_spec(before);
    let h2 = HomeView { gesture: Gesture::Idle, ..h1 };
    lemma_restore_own(h2, c);
    let r = restore_spec(h2);
    assert(occupied_spec(r.items) =~= snapshot_pages(c));
    let pages = page_set(snapshot_pages(c));
    assert forall|k: int| 0 <= k < c.len() implies pages.contains(#[trigger] c[k].1.page) by {
        assert(snapshot_pages(c)[k] == c[k].1.page);
    }
}

/// A long press that lifts an item begins a drag from the cells the items
/// had at that moment.
pub proof fn lemma_lift_begins_drag(h: HomeView, id: ItemId, start: Pos, now: u64)
    requires
        home_wf(h),
    ensures
        drag_from(start_lift_spec(h, id, start, now).1, items_snapshot(h.items)),
{
    lemma_lift_keeps(h, id, start, now);
}

proof fn lemma_lift_keeps(h: HomeView, id: ItemId, start: Pos, now: u64)
    requires
        ids_unique(h.items),
    ensures
        drag_keeps(start_lift_spec(h, id, start, now).1, items_snapshot(h.items)),
{
    let c = items_snapshot(h.items);
    let h1 = crate::home::enter_edit_spec(steal_touch_spec(h), id);
    let n = crate::home::page_count_spec(h1);
    let h2 = HomeView {
        pages: crate::pages::Pages { lift_from: Some(if n >= 1 { n as u32 } else { 1u32 }), ..h1.pages },
        ..h1
    };
    let h3 = crate::home::begin_drag_spec(h2);
    let h4 = HomeView { page_edge: None, gesture: Gesture::Lifted { item: id, start }, ..h3 };
    assert(drag_keeps(h4, c));
    lemma_drag_lift_keeps(h4, c, id, start, start, now);
}

/// A press that starts a lift or a resize begins a drag from the cells the
/// items had at that moment.
pub proof fn lemma_press_begins_drag(h: HomeView, pos: Pos, touch: Option<i32>, now: u64)
    requires
        home_wf(h),
    ensures
        ({
            let h2 = contact_down_spec(h, pos, touch, now).1;
            (h2.gesture is Lifted || h2.gesture is Resizing) && h.gesture is Idle ==> drag_from(
                h2,
                items_snapshot(h.items),
            )
        }),
{
    let h1 = HomeView { last_pos: pos, ..h };
    if h.gesture is Idle && crate::home::hit_close_spec(h1, pos) is None && crate::home::hit_handle_spec(h1, pos) is None {
        let item = crate::home::hit_item_spec(h1, pos);
        if h1.edit && item is Some {
            lemma_lift_keeps(h1, item->0, pos, now);
        }
    }
}

} // verus!
