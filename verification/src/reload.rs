//! The homescreen file against the items on screen: building the layout from
//! a configuration, writing the layout back as one, and reloading a changed
//! file without restarting the widgets that stay.

use vstd::prelude::*;

use crate::config::{
    HomeConfig, HomeConfigView, IconConfig, IconView, SlotConfig, SlotView, cells_of_icon,
    cells_of_slot, config_eq, icon_cells, max1, same_config, slot_cells,
};
use crate::geometry::{Point, Pos};
use crate::grid::RectCells;
use crate::home::{
    ActionView, Gesture, Home, HomeAction, HomeView, Item, ItemId, Kind, PX_TERM, SurfaceId,
    budget_fits, carrying_spec, cell_fits, compact_spec, find_item, home_wf, home_wf_loose,
    ids_unique, is_widget, lemma_find_item, occupied_spec, screen_fits, snapshot_fits, width_abs,
};
use crate::pages::{Pages, page_set};

verus! {

// ---------------------------------------------------------------------------
// Reading the items.

/// The widgets among `items`, in order.
pub open spec fn widgets_of(items: Seq<Item>) -> Seq<Item>
    decreases items.len(),
{
    if items.len() == 0 {
        items
    } else if is_widget(items.last()) {
        widgets_of(items.drop_last()).push(items.last())
    } else {
        widgets_of(items.drop_last())
    }
}

/// The launcher icons among `items`, in order.
pub open spec fn icons_of(items: Seq<Item>) -> Seq<Item>
    decreases items.len(),
{
    if items.len() == 0 {
        items
    } else if is_widget(items.last()) {
        icons_of(items.drop_last())
    } else {
        icons_of(items.drop_last()).push(items.last())
    }
}

/// The largest id in use, 0 when there is none.
pub open spec fn max_id(items: Seq<Item>) -> int
    decreases items.len(),
{
    if items.len() == 0 {
        0
    } else {
        let m = max_id(items.drop_last());
        let l = items.last().id.0 as int;
        if l > m {
            l
        } else {
            m
        }
    }
}

pub open spec fn slot_of(i: Item) -> SlotView {
    SlotView {
        page: i.cells.page,
        col: i.cells.col,
        row: i.cells.row,
        col_span: i.cells.col_span,
        row_span: i.cells.row_span,
        command: match i.kind {
            Kind::Widget { command, .. } => command@,
            Kind::Icon { .. } => Seq::empty(),
        },
    }
}

pub open spec fn icon_of(i: Item) -> IconView {
    IconView {
        page: i.cells.page,
        col: i.cells.col,
        row: i.cells.row,
        desktop: match i.kind {
            Kind::Widget { .. } => Seq::empty(),
            Kind::Icon { desktop, .. } => desktop@,
        },
    }
}

/// The layout on screen as a configuration: widgets become slots, icons
/// stay icons, each in the order of the items.
pub open spec fn current_config_spec(h: HomeView) -> HomeConfigView {
    HomeConfigView {
        columns: h.columns,
        rows: h.rows,
        slots: widgets_of(h.items).map_values(|i: Item| slot_of(i)),
        icons: icons_of(h.items).map_values(|i: Item| icon_of(i)),
    }
}

// ---------------------------------------------------------------------------
// Matching a file against the items.

pub open spec fn runs_command(i: Item, s: SlotConfig) -> bool {
    i.kind matches Kind::Widget { command, .. } && command@ == s.command@
}

pub open spec fn shows_desktop(i: Item, ic: IconConfig) -> bool {
    i.kind matches Kind::Icon { desktop, .. } && desktop@ == ic.desktop@
}

/// The first widget from `k` on that runs the slot's command, and sits on
/// the slot's cells when `exact`.
pub open spec fn widget_match(pool: Seq<Item>, s: SlotConfig, exact: bool, k: int) -> Option<int>
    decreases pool.len() - k,
{
    if k < 0 || k >= pool.len() {
        None
    } else if runs_command(pool[k], s) && (!exact || pool[k].cells == slot_cells(s@)) {
        Some(k)
    } else {
        widget_match(pool, s, exact, k + 1)
    }
}

/// The old widget that a slot keeps: one on the same cells with the same
/// command, else the first with the same command.
pub open spec fn take_widget_spec(pool: Seq<Item>, s: SlotConfig) -> Option<int> {
    match widget_match(pool, s, true, 0) {
        Some(k) => Some(k),
        None => widget_match(pool, s, false, 0),
    }
}

pub open spec fn icon_match(pool: Seq<Item>, ic: IconConfig, exact: bool, k: int) -> Option<int>
    decreases pool.len() - k,
{
    if k < 0 || k >= pool.len() {
        None
    } else if shows_desktop(pool[k], ic) && (!exact || pool[k].cells == icon_cells(ic@)) {
        Some(k)
    } else {
        icon_match(pool, ic, exact, k + 1)
    }
}

/// The old icon that an icon entry keeps, chosen as for widgets.
pub open spec fn take_icon_spec(pool: Seq<Item>, ic: IconConfig) -> Option<int> {
    match icon_match(pool, ic, true, 0) {
        Some(k) => Some(k),
        None => icon_match(pool, ic, false, 0),
    }
}

/// Items placed so far, old items not claimed yet, and the next fresh id.
pub struct Placing {
    pub items: Seq<Item>,
    pub pool: Seq<Item>,
    pub next: int,
}

pub open spec fn fresh_widget(id: int, s: SlotConfig) -> Item {
    Item {
        id: ItemId(id as u32),
        cells: slot_cells(s@),
        kind: Kind::Widget {
            command: s.command,
            surface: None,
            child: None,
            launch_failed: false,
            ever_mapped: false,
        },
    }
}

pub open spec fn fresh_icon(id: int, ic: IconConfig, exec: String, hue: int) -> Item {
    Item {
        id: ItemId(id as u32),
        cells: icon_cells(ic@),
        kind: Kind::Icon { desktop: ic.desktop, exec_cmd: exec, hue: hue as u32 },
    }
}

/// One slot: keep the matching old widget on the slot's cells, else start
/// a fresh one.
pub open spec fn slot_step(p: Placing, s: SlotConfig) -> Placing {
    match take_widget_spec(p.pool, s) {
        Some(k) => Placing {
            items: p.items.push(Item { cells: slot_cells(s@), ..p.pool[k] }),
            pool: p.pool.remove(k),
            next: p.next,
        },
        None => Placing { items: p.items.push(fresh_widget(p.next, s)), pool: p.pool, next: p.next + 1 },
    }
}

pub open spec fn place_slots(slots: Seq<SlotConfig>, p: Placing) -> Placing
    decreases slots.len(),
{
    if slots.len() == 0 {
        p
    } else {
        slot_step(place_slots(slots.drop_last(), p), slots.last())
    }
}

/// One icon entry (the `hue`-th): keep the matching old icon, else a fresh
/// one that runs `exec`.
pub open spec fn icon_step(p: Placing, ic: IconConfig, exec: String, hue: int) -> Placing {
    match take_icon_spec(p.pool, ic) {
        Some(k) => Placing {
            items: p.items.push(Item { cells: icon_cells(ic@), ..p.pool[k] }),
            pool: p.pool.remove(k),
            next: p.next,
        },
        None => Placing {
            items: p.items.push(fresh_icon(p.next, ic, exec, hue)),
            pool: p.pool,
            next: p.next + 1,
        },
    }
}

pub open spec fn place_icons(icons: Seq<IconConfig>, execs: Seq<String>, p: Placing) -> Placing
    decreases icons.len(),
{
    if icons.len() == 0 {
        p
    } else {
        let n = icons.len() - 1;
        icon_step(place_icons(icons.drop_last(), execs, p), icons[n], execs[n], n)
    }
}

/// Surfaces of the widgets in `pool`, in order.
pub open spec fn surfaces_of(pool: Seq<Item>) -> Seq<SurfaceId>
    decreases pool.len(),
{
    if pool.len() == 0 {
        Seq::empty()
    } else {
        match pool.last().kind {
            Kind::Widget { surface: Some(s), .. } => surfaces_of(pool.drop_last()).push(s),
            _ => surfaces_of(pool.drop_last()),
        }
    }
}

/// Processes of the widgets in `pool`, in order.
pub open spec fn children_of(pool: Seq<Item>) -> Seq<u32>
    decreases pool.len(),
{
    if pool.len() == 0 {
        Seq::empty()
    } else {
        match pool.last().kind {
            Kind::Widget { child: Some(c), .. } => children_of(pool.drop_last()).push(c),
            _ => children_of(pool.drop_last()),
        }
    }
}

pub open spec fn slots_placed(h: HomeView, cfg: HomeConfig) -> Placing {
    place_slots(
        cfg.slots@,
        Placing { items: Seq::empty(), pool: widgets_of(h.items), next: max_id(h.items) + 1 },
    )
}

pub open spec fn all_placed(h: HomeView, cfg: HomeConfig, execs: Seq<String>) -> Placing {
    let ps = slots_placed(h, cfg);
    place_icons(
        cfg.icons@,
        execs,
        Placing { items: ps.items, pool: icons_of(h.items), next: ps.next },
    )
}

/// The items of the file (slots first, then icons), old items kept where
/// they match; the processes of dropped widgets queued for killing; then
/// the pages compacted.
pub open spec fn place_config_spec(h: HomeView, cfg: HomeConfig, execs: Seq<String>) -> HomeView {
    compact_spec(
        HomeView {
            columns: max1(cfg.columns),
            rows: max1(cfg.rows),
            items: all_placed(h, cfg, execs).items,
            kills: h.kills + children_of(slots_placed(h, cfg).pool),
            ..h
        },
    )
}

pub open spec fn missing(h: HomeView, id: ItemId) -> bool {
    find_item(h.items, id, 0) is None
}

/// The gesture holds an item that is no longer there.
pub open spec fn gesture_gone(h: HomeView) -> bool {
    match h.gesture {
        Gesture::Lifted { item, .. } => missing(h, item),
        Gesture::Resizing { item, .. } => missing(h, item),
        Gesture::Pending { item: Some(id), .. } => missing(h, id),
        _ => false,
    }
}

/// Apply a changed file: place its items, ask for a write-back if the
/// result differs from the file, drop a selection or gesture on an item
/// that is gone, and close the surfaces of dropped widgets.
pub open spec fn apply_config_spec(h: HomeView, cfg: HomeConfig, execs: Seq<String>) -> (
    ActionView,
    HomeView,
) {
    let c = place_config_spec(h, cfg, execs);
    let c1 = HomeView {
        persist: c.persist || !config_eq(current_config_spec(c), cfg@),
        selected: match c.selected {
            Some(id) => if missing(c, id) {
                None
            } else {
                Some(id)
            },
            None => None,
        },
        ..c
    };
    let c2 = if gesture_gone(c1) {
        HomeView {
            gesture: Gesture::Idle,
            frame_preview: None,
            drag_snapshot: None,
            page_edge: None,
            pages: Pages { lift_from: None, ..c1.pages },
            ..c1
        }
    } else {
        c1
    };
    (ActionView::Reload { close: surfaces_of(slots_placed(h, cfg).pool) }, c2)
}

/// Reloading a file equal to the layout on screen does nothing.
pub open spec fn reload_spec(h: HomeView, cfg: HomeConfig, execs: Seq<String>) -> (
    ActionView,
    HomeView,
) {
    if config_eq(current_config_spec(h), cfg@) {
        (ActionView::NoOp, h)
    } else {
        apply_config_spec(h, cfg, execs)
    }
}

/// The screen with the grid of `cfg`.
pub open spec fn config_geometry(h: HomeView, cfg: HomeConfigView) -> HomeView {
    HomeView { columns: max1(cfg.columns), rows: max1(cfg.rows), ..h }
}

/// The cells of the file's entries: its slots, then its icons.
pub open spec fn config_cells(cfg: HomeConfigView) -> Seq<RectCells> {
    cfg.slots.map_values(|s: SlotView| slot_cells(s)) + cfg.icons.map_values(
        |i: IconView| icon_cells(i),
    )
}

/// The pages of the file's entries.
pub open spec fn config_pages(cfg: HomeConfigView) -> Seq<u32> {
    config_cells(cfg).map_values(|c: RectCells| c.page)
}

/// A file the screen `h` can hold: with the file's grid, the screen's
/// pixel terms stay within `PX_TERM` (see `home_wf`) for every entry, for
/// the pages the entries end up on once compacted (on the file's own pages
/// while an item is carried, as nothing is compacted then), and for a drag
/// in progress; the push cascade's budget fits.
pub open spec fn config_in_limits(h: HomeView, cfg: HomeConfigView) -> bool {
    let g = config_geometry(h, cfg);
    let pages = page_set(config_pages(cfg));
    &&& screen_fits(g)
    &&& budget_fits(g.columns as int, g.rows as int, config_cells(cfg).len() as int)
    &&& forall|k: int|
        0 <= k < config_cells(cfg).len() ==> cell_fits(
            g,
            RectCells { page: 0, ..#[trigger] config_cells(cfg)[k] },
        )
    &&& pages.len() <= u32::MAX
    &&& (pages.len() - 1) * width_abs(h) <= PX_TERM
    &&& (h.drag_snapshot matches Some(s) ==> snapshot_fits(g, s))
    &&& (h.gesture matches Gesture::Resizing { origin, .. } ==> cell_fits(g, origin))
    &&& (h.gesture is Lifted ==> forall|k: int|
        0 <= k < config_cells(cfg).len() ==> cell_fits(g, #[trigger] config_cells(cfg)[k]))
}

/// Fresh ids for every entry of `cfg` fit in `u32`.
pub open spec fn ids_fit(h: HomeView, cfg: HomeConfigView) -> bool {
    max_id(h.items) + cfg.slots.len() + cfg.icons.len() < 0xffff_ffff
}

// ---------------------------------------------------------------------------
// Lemmas.

proof fn lemma_place_slots(slots: Seq<SlotConfig>, p: Placing)
    ensures
        place_slots(slots, p).items.len() == p.items.len() + slots.len(),
        p.next <= place_slots(slots, p).next <= p.next + slots.len(),
        forall|k: int| 0 <= k < p.items.len() ==> #[trigger] place_slots(slots, p).items[k] == p.items[k],
        forall|k: int|
            0 <= k < slots.len() ==> #[trigger] place_slots(slots, p).items[p.items.len() + k].cells
                == slot_cells(slots[k]@),
    decreases slots.len(),
{
    if slots.len() > 0 {
        let r = place_slots(slots.drop_last(), p);
        lemma_place_slots(slots.drop_last(), p);
        let s = slots.last();
        let q = slot_step(r, s);
        assert forall|k: int| 0 <= k < slots.len() implies #[trigger] q.items[p.items.len() + k].cells
            == slot_cells(slots[k]@) by {
            if k < slots.len() - 1 {
                assert(slots.drop_last()[k] == slots[k]);
                assert(q.items[p.items.len() + k] == r.items[p.items.len() + k]);
            }
        }
        assert forall|k: int| 0 <= k < p.items.len() implies #[trigger] q.items[k] == p.items[k] by {
            assert(q.items[k] == r.items[k]);
        }
    }
}

proof fn lemma_place_icons(icons: Seq<IconConfig>, execs: Seq<String>, p: Placing)
    ensures
        place_icons(icons, execs, p).items.len() == p.items.len() + icons.len(),
        p.next <= place_icons(icons, execs, p).next <= p.next + icons.len(),
        forall|k: int|
            0 <= k < p.items.len() ==> #[trigger] place_icons(icons, execs, p).items[k] == p.items[k],
        forall|k: int|
            0 <= k < icons.len() ==> #[trigger] place_icons(icons, execs, p).items[p.items.len()
                + k].cells == icon_cells(icons[k]@),
    decreases icons.len(),
{
    if icons.len() > 0 {
        let n = icons.len() - 1;
        let r = place_icons(icons.drop_last(), execs, p);
        lemma_place_icons(icons.drop_last(), execs, p);
        let q = icon_step(r, icons[n], execs[n], n);
        assert forall|k: int| 0 <= k < icons.len() implies #[trigger] q.items[p.items.len() + k].cells
            == icon_cells(icons[k]@) by {
            if k < n {
                assert(icons.drop_last()[k] == icons[k]);
                assert(q.items[p.items.len() + k] == r.items[p.items.len() + k]);
            }
        }
        assert forall|k: int| 0 <= k < p.items.len() implies #[trigger] q.items[k] == p.items[k] by {
            assert(q.items[k] == r.items[k]);
        }
    }
}

proof fn lemma_max_id(items: Seq<Item>)
    ensures
        0 <= max_id(items),
        forall|k: int| 0 <= k < items.len() ==> #[trigger] items[k].id.0 <= max_id(items),
    decreases items.len(),
{
    if items.len() > 0 {
        lemma_max_id(items.drop_last());
        assert forall|k: int| 0 <= k < items.len() implies #[trigger] items[k].id.0 <= max_id(
            items,
        ) by {
            if k < items.len() - 1 {
                assert(items.drop_last()[k] == items[k]);
            }
        }
    }
}

proof fn lemma_place_slots_step(slots: Seq<SlotConfig>, p: Placing, i: int)
    requires
        0 <= i < slots.len(),
    ensures
        place_slots(slots.take(i + 1), p) == slot_step(place_slots(slots.take(i), p), slots[i]),
{
    assert(slots.take(i + 1).drop_last() =~= slots.take(i));
    assert(slots.take(i + 1).last() == slots[i]);
}

proof fn lemma_place_icons_step(icons: Seq<IconConfig>, execs: Seq<String>, p: Placing, i: int)
    requires
        0 <= i < icons.len(),
    ensures
        place_icons(icons.take(i + 1), execs, p) == icon_step(
            place_icons(icons.take(i), execs, p),
            icons[i],
            execs[i],
            i,
        ),
{
    assert(icons.take(i + 1).drop_last() =~= icons.take(i));
    assert(icons.take(i + 1)[i] == icons[i]);
}

proof fn lemma_widget_match_finds(pool: Seq<Item>, s: SlotConfig, exact: bool, k: int, j: int)
    requires
        0 <= k <= j < pool.len(),
        runs_command(pool[j], s),
        !exact || pool[j].cells == slot_cells(s@),
    ensures
        widget_match(pool, s, exact, k) matches Some(m) && k <= m <= j && runs_command(pool[m], s)
            && (!exact || pool[m].cells == slot_cells(s@)),
    decreases j - k,
{
    if !(runs_command(pool[k], s) && (!exact || pool[k].cells == slot_cells(s@))) {
        lemma_widget_match_finds(pool, s, exact, k + 1, j);
    }
}

proof fn lemma_widget_match_sound(pool: Seq<Item>, s: SlotConfig, exact: bool, k: int)
    requires
        0 <= k,
    ensures
        widget_match(pool, s, exact, k) matches Some(m) ==> k <= m < pool.len() && runs_command(
            pool[m],
            s,
        ) && (!exact || pool[m].cells == slot_cells(s@)),
    decreases pool.len() - k,
{
    if k < pool.len() {
        lemma_widget_match_sound(pool, s, exact, k + 1);
    }
}

/// A slot whose command an old widget runs keeps an old widget that runs
/// it, one on the slot's cells if there is one: same id, same process and
/// same surface, moved to the slot's cells, and no fresh id is used.
pub proof fn lemma_slot_keeps_running_widget(p: Placing, s: SlotConfig, j: int)
    requires
        0 <= j < p.pool.len(),
        runs_command(p.pool[j], s),
    ensures
        take_widget_spec(p.pool, s) matches Some(m) && 0 <= m < p.pool.len() && runs_command(
            p.pool[m],
            s,
        ) && (p.pool[j].cells == slot_cells(s@) ==> p.pool[m].cells == slot_cells(s@))
            && slot_step(p, s) == (Placing {
            items: p.items.push(Item { cells: slot_cells(s@), ..p.pool[m] }),
            pool: p.pool.remove(m),
            next: p.next,
        }),
{
    lemma_widget_match_finds(p.pool, s, false, 0, j);
    lemma_widget_match_sound(p.pool, s, true, 0);
    if p.pool[j].cells == slot_cells(s@) {
        lemma_widget_match_finds(p.pool, s, true, 0, j);
    }
}

// ---------------------------------------------------------------------------
// Ids stay unique.

/// `x` is the id of a widget (`widget`) or of an icon (`!widget`) of `old`.
pub open spec fn id_from(old: Seq<Item>, x: ItemId, widget: bool) -> bool {
    exists|k: int| 0 <= k < old.len() && old[k].id == x && #[trigger] is_widget(old[k]) == widget
}

/// Placing keeps ids apart: placed items, and pool items, each have an id of
/// their own, no placed id is a pool id, all are below `next`, and each is
/// fresh (above `max_id(old)`) or an id of the `widget` kind of `old`.
pub open spec fn ids_apart(p: Placing, old: Seq<Item>, widget: bool) -> bool {
    &&& ids_unique(p.items)
    &&& ids_unique(p.pool)
    &&& forall|i: int, j: int|
        0 <= i < p.items.len() && 0 <= j < p.pool.len() ==> p.items[i].id != p.pool[j].id
    &&& forall|i: int| 0 <= i < p.items.len() ==> (#[trigger] p.items[i]).id.0 < p.next
    &&& forall|j: int| 0 <= j < p.pool.len() ==> (#[trigger] p.pool[j]).id.0 < p.next
    &&& forall|j: int| 0 <= j < p.pool.len() ==> id_from(old, (#[trigger] p.pool[j]).id, widget)
}

proof fn lemma_take_in_range(p: Placing, s: SlotConfig)
    ensures
        take_widget_spec(p.pool, s) matches Some(m) ==> 0 <= m < p.pool.len(),
{
    lemma_widget_match_sound(p.pool, s, true, 0);
    lemma_widget_match_sound(p.pool, s, false, 0);
}

proof fn lemma_icon_match_sound(pool: Seq<Item>, ic: IconConfig, exact: bool, k: int)
    requires
        0 <= k,
    ensures
        icon_match(pool, ic, exact, k) matches Some(m) ==> k <= m < pool.len(),
    decreases pool.len() - k,
{
    if k < pool.len() {
        lemma_icon_match_sound(pool, ic, exact, k + 1);
    }
}

/// Moving pool entry `m` to the placed items, or placing a fresh id, keeps
/// ids apart.
proof fn lemma_move_apart(p: Placing, old: Seq<Item>, widget: bool, m: Option<int>, x: Item)
    requires
        ids_apart(p, old, widget),
        p.next < u32::MAX,
        m matches Some(k) ==> 0 <= k < p.pool.len() && x.id == p.pool[k].id,
        m is None ==> x.id.0 == p.next,
    ensures
        ids_apart(
            match m {
                Some(k) => Placing { items: p.items.push(x), pool: p.pool.remove(k), next: p.next },
                None => Placing { items: p.items.push(x), pool: p.pool, next: p.next + 1 },
            },
            old,
            widget,
        ),
{
    match m {
        Some(k) => {
            let q = Placing { items: p.items.push(x), pool: p.pool.remove(k), next: p.next };
            assert forall|j: int| 0 <= j < q.pool.len() implies (#[trigger] q.pool[j]) == p.pool[if j < k {
                j
            } else {
                j + 1
            }] by {}
            assert forall|i: int, j: int| 0 <= i < j < q.pool.len() implies q.pool[i].id != q.pool[j].id by {
                assert(q.pool[i] == p.pool[if i < k { i } else { i + 1 }]);
                assert(q.pool[j] == p.pool[if j < k { j } else { j + 1 }]);
            }
            assert forall|i: int, j: int| 0 <= i < q.items.len() && 0 <= j < q.pool.len() implies q.items[i].id
                != q.pool[j].id by {
                assert(q.pool[j] == p.pool[if j < k { j } else { j + 1 }]);
                if i < p.items.len() {
                    assert(q.items[i] == p.items[i]);
                }
            }
            assert forall|i: int, j: int| 0 <= i < j < q.items.len() implies q.items[i].id != q.items[j].id by {
                assert(q.items[i] == p.items[i]);
                if j < p.items.len() {
                    assert(q.items[j] == p.items[j]);
                }
            }
            assert forall|j: int| 0 <= j < q.pool.len() implies id_from(old, (#[trigger] q.pool[j]).id, widget) by {
                assert(q.pool[j] == p.pool[if j < k { j } else { j + 1 }]);
            }
        },
        None => {
            let q = Placing { items: p.items.push(x), pool: p.pool, next: p.next + 1 };
            assert forall|i: int, j: int| 0 <= i < j < q.items.len() implies q.items[i].id != q.items[j].id by {
                assert(q.items[i] == p.items[i]);
                if j < p.items.len() {
                    assert(q.items[j] == p.items[j]);
                }
            }
            assert forall|i: int, j: int| 0 <= i < q.items.len() && 0 <= j < q.pool.len() implies q.items[i].id
                != q.pool[j].id by {
                if i < p.items.len() {
                    assert(q.items[i] == p.items[i]);
                }
            }
        },
    }
}

/// Placed ids are fresh (from `floor` on) or ids of the `widget` kind of `old`.
pub open spec fn items_from(p: Placing, old: Seq<Item>, floor: int, widget: bool) -> bool {
    forall|i: int|
        0 <= i < p.items.len() ==> (#[trigger] p.items[i]).id.0 >= floor || id_from(
            old,
            p.items[i].id,
            widget,
        )
}

proof fn lemma_slots_apart(slots: Seq<SlotConfig>, p: Placing, old: Seq<Item>, floor: int)
    requires
        ids_apart(p, old, true),
        items_from(p, old, floor, true),
        0 <= floor <= p.next,
        p.next + slots.len() <= u32::MAX,
    ensures
        ids_apart(place_slots(slots, p), old, true),
        items_from(place_slots(slots, p), old, floor, true),
        floor <= place_slots(slots, p).next,
    decreases slots.len(),
{
    if slots.len() > 0 {
        lemma_slots_apart(slots.drop_last(), p, old, floor);
        lemma_place_slots(slots.drop_last(), p);
        let r = place_slots(slots.drop_last(), p);
        let s = slots.last();
        lemma_take_in_range(r, s);
        let q = slot_step(r, s);
        assert(0 <= r.next < u32::MAX);
        match take_widget_spec(r.pool, s) {
            Some(k) => {
                lemma_move_apart(r, old, true, Some(k), Item { cells: slot_cells(s@), ..r.pool[k] });
                assert forall|i: int| 0 <= i < q.items.len() implies (#[trigger] q.items[i]).id.0 >= floor
                    || id_from(old, q.items[i].id, true) by {
                    if i < r.items.len() {
                        assert(q.items[i] == r.items[i]);
                    }
                }
            },
            None => {
                lemma_move_apart(r, old, true, None, fresh_widget(r.next, s));
                assert forall|i: int| 0 <= i < q.items.len() implies (#[trigger] q.items[i]).id.0 >= floor
                    || id_from(old, q.items[i].id, true) by {
                    if i < r.items.len() {
                        assert(q.items[i] == r.items[i]);
                    }
                }
            },
        }
    }
}

proof fn lemma_icons_apart(icons: Seq<IconConfig>, execs: Seq<String>, p: Placing, old: Seq<Item>)
    requires
        ids_apart(p, old, false),
        0 <= p.next,
        p.next + icons.len() <= u32::MAX,
        execs.len() >= icons.len(),
    ensures
        ids_apart(place_icons(icons, execs, p), old, false),
    decreases icons.len(),
{
    if icons.len() > 0 {
        let n = icons.len() - 1;
        lemma_icons_apart(icons.drop_last(), execs, p, old);
        lemma_place_icons(icons.drop_last(), execs, p);
        let r = place_icons(icons.drop_last(), execs, p);
        assert(0 <= r.next < u32::MAX);
        let ic = icons[n];
        lemma_icon_match_sound(r.pool, ic, true, 0);
        lemma_icon_match_sound(r.pool, ic, false, 0);
        match take_icon_spec(r.pool, ic) {
            Some(k) => lemma_move_apart(r, old, false, Some(k), Item { cells: icon_cells(ic@), ..r.pool[k] }),
            None => lemma_move_apart(r, old, false, None, fresh_icon(r.next, ic, execs[n], n)),
        }
    }
}

/// The widgets (`widget`) or the icons of `items`, in order.
pub open spec fn of_kind(items: Seq<Item>, widget: bool) -> Seq<Item> {
    if widget {
        widgets_of(items)
    } else {
        icons_of(items)
    }
}

/// The widgets (or the icons) of items with unique ids have unique ids,
/// all of them ids of that kind of `all`, no larger than `max_id(all)`.
proof fn lemma_kind_unique(all: Seq<Item>, widget: bool)
    requires
        ids_unique(all),
    ensures
        ids_unique(of_kind(all, widget)),
        forall|j: int|
            0 <= j < of_kind(all, widget).len() ==> id_from(all, (#[trigger] of_kind(all, widget)[j]).id, widget),
        forall|j: int|
            0 <= j < of_kind(all, widget).len() ==> (#[trigger] of_kind(all, widget)[j]).id.0 <= max_id(all),
    decreases all.len(),
{
    lemma_max_id(all);
    if all.len() > 0 {
        let d = all.drop_last();
        assert forall|j: int, k: int| 0 <= j < k < d.len() implies d[j].id != d[k].id by {
            assert(d[j] == all[j] && d[k] == all[k]);
        }
        lemma_kind_unique(d, widget);
        lemma_max_id(d);
        let part = of_kind(all, widget);
        let dp = of_kind(d, widget);
        let last = all.last();
        assert(all[all.len() - 1] == last);
        assert forall|j: int| 0 <= j < dp.len() implies id_from(all, (#[trigger] dp[j]).id, widget) && dp[j].id
            != last.id && dp[j].id.0 <= max_id(all) by {
            assert(id_from(d, dp[j].id, widget));
            let k = choose|k: int| 0 <= k < d.len() && d[k].id == dp[j].id && #[trigger] is_widget(d[k]) == widget;
            assert(all[k] == d[k]);
            assert(is_widget(all[k]) == widget);
        }
        if is_widget(last) == widget {
            assert(part == dp.push(last));
            assert forall|a: int, b: int| 0 <= a < b < part.len() implies part[a].id != part[b].id by {
                assert(part[a] == dp[a]);
                if b < dp.len() {
                    assert(part[b] == dp[b]);
                }
            }
            assert forall|j: int| 0 <= j < part.len() implies id_from(all, (#[trigger] part[j]).id, widget)
                && part[j].id.0 <= max_id(all) by {
                if j < dp.len() {
                    assert(part[j] == dp[j]);
                } else {
                    assert(is_widget(all[all.len() - 1]) == widget);
                }
            }
        } else {
            assert(part == dp);
        }
    }
}

/// Placing a file's entries gives every item an id of its own.
proof fn lemma_placed_unique(h: HomeView, cfg: HomeConfig, execs: Seq<String>)
    requires
        ids_unique(h.items),
        max_id(h.items) + cfg@.slots.len() + cfg@.icons.len() < 0xffff_ffff,
        cfg@.slots.len() == cfg.slots@.len(),
        cfg@.icons.len() == cfg.icons@.len(),
        execs.len() == cfg.icons@.len(),
    ensures
        ids_unique(all_placed(h, cfg, execs).items),
{
    let all = h.items;
    lemma_kind_unique(all, true);
    lemma_kind_unique(all, false);
    lemma_max_id(all);
    let start = Placing { items: Seq::empty(), pool: widgets_of(all), next: max_id(all) + 1 };
    assert(of_kind(all, true) == start.pool);
    assert(of_kind(all, false) == icons_of(all));
    assert(ids_apart(start, all, true));
    lemma_slots_apart(cfg.slots@, start, all, max_id(all) + 1);
    lemma_place_slots(cfg.slots@, start);
    let ps = slots_placed(h, cfg);
    let istart = Placing { items: ps.items, pool: icons_of(all), next: ps.next };
    assert forall|i: int, j: int| 0 <= i < istart.items.len() && 0 <= j < istart.pool.len() implies istart.items[i].id
        != istart.pool[j].id by {
        let x = istart.items[i].id;
        let y = istart.pool[j].id;
        assert(id_from(all, y, false));
        assert(y.0 <= max_id(all));
        if x == y {
            assert(id_from(all, x, true));
            let a = choose|a: int| 0 <= a < all.len() && all[a].id == x && #[trigger] is_widget(all[a]) == true;
            let b = choose|b: int| 0 <= b < all.len() && all[b].id == y && #[trigger] is_widget(all[b]) == false;
            assert(a != b);
        }
    }
    assert(ids_apart(istart, all, false));
    lemma_icons_apart(cfg.icons@, execs, istart, all);
}

/// Reloading a file that equals the layout on screen changes nothing.
pub proof fn lemma_reload_unchanged(h: HomeView, cfg: HomeConfig, execs: Seq<String>)
    requires
        cfg@ == current_config_spec(h),
    ensures
        reload_spec(h, cfg, execs) == (ActionView::NoOp, h),
{
}

// ---------------------------------------------------------------------------
// Executable matching.

fn runs(item: &Item, slot: &SlotConfig) -> (b: bool)
    ensures
        b == runs_command(*item, *slot),
{
    match &item.kind {
        Kind::Widget { command, .. } => *command == slot.command,
        Kind::Icon { .. } => false,
    }
}

fn shows(item: &Item, icon: &IconConfig) -> (b: bool)
    ensures
        b == shows_desktop(*item, *icon),
{
    match &item.kind {
        Kind::Widget { .. } => false,
        Kind::Icon { desktop, .. } => *desktop == icon.desktop,
    }
}

/// The old widget that `slot` keeps (see `take_widget_spec`).
fn take_widget(old: &[Item], slot: &SlotConfig) -> (r: Option<usize>)
    ensures
        r matches Some(k) ==> k < old@.len() && take_widget_spec(old@, *slot) == Some(k as int),
        r is None ==> take_widget_spec(old@, *slot) is None,
{
    let cells = cells_of_slot(slot);
    let mut k: usize = 0;
    while k < old.len()
        invariant
            0 <= k <= old@.len(),
            cells == slot_cells(slot@),
            widget_match(old@, *slot, true, 0) == widget_match(old@, *slot, true, k as int),
        decreases old@.len() - k,
    {
        if runs(&old[k], slot) && old[k].cells == cells {
            return Some(k);
        }
        k = k + 1;
    }
    let mut k: usize = 0;
    while k < old.len()
        invariant
            0 <= k <= old@.len(),
            widget_match(old@, *slot, true, 0) is None,
            widget_match(old@, *slot, false, 0) == widget_match(old@, *slot, false, k as int),
        decreases old@.len() - k,
    {
        if runs(&old[k], slot) {
            return Some(k);
        }
        k = k + 1;
    }
    None
}

/// The old icon that `icon` keeps (see `take_icon_spec`).
fn take_icon(old: &[Item], icon: &IconConfig) -> (r: Option<usize>)
    ensures
        r matches Some(k) ==> k < old@.len() && take_icon_spec(old@, *icon) == Some(k as int),
        r is None ==> take_icon_spec(old@, *icon) is None,
{
    let cells = cells_of_icon(icon);
    let mut k: usize = 0;
    while k < old.len()
        invariant
            0 <= k <= old@.len(),
            cells == icon_cells(icon@),
            icon_match(old@, *icon, true, 0) == icon_match(old@, *icon, true, k as int),
        decreases old@.len() - k,
    {
        if shows(&old[k], icon) && old[k].cells == cells {
            return Some(k);
        }
        k = k + 1;
    }
    let mut k: usize = 0;
    while k < old.len()
        invariant
            0 <= k <= old@.len(),
            icon_match(old@, *icon, true, 0) is None,
            icon_match(old@, *icon, false, 0) == icon_match(old@, *icon, false, k as int),
        decreases old@.len() - k,
    {
        if shows(&old[k], icon) {
            return Some(k);
        }
        k = k + 1;
    }
    None
}

// ---------------------------------------------------------------------------
// The homescreen and its file.

/// A homescreen with no items, before the output is known.
pub open spec fn blank_view() -> HomeView {
    HomeView {
        columns: 1,
        rows: 1,
        pages: Pages { current: 0, lift_from: None },
        items: Seq::empty(),
        output_w: 0,
        output_h: 0,
        edit: false,
        selected: None,
        gesture: Gesture::Idle,
        drag_px: 0,
        last_pos: Pos { x: 0, y: 0 },
        drag_snapshot: None,
        lift_loc: Point { x: 0, y: 0 },
        frame_preview: None,
        page_edge: None,
        wait: None,
        touch_grab: None,
        touch_steal: None,
        persist: false,
        kills: Seq::empty(),
    }
}

/// The homescreen that a configuration file describes; `execs[i]` is the
/// command of the desktop entry of icon `i`.
pub open spec fn load_spec(cfg: HomeConfig, execs: Seq<String>) -> HomeView {
    place_config_spec(blank_view(), cfg, execs)
}

/// Whether a fresh homescreen can hold `cfg` (see `config_in_limits`),
/// with an id in `u32` for every entry.
pub fn fits(cfg: &HomeConfig) -> (b: bool)
    ensures
        b == (config_in_limits(blank_view(), cfg@) && ids_fit(blank_view(), cfg@)),
{
    let h = Home::blank();
    proof {
        assert(crate::home::cell_dims(1, 1, 0, 0) == (1int, 1int));
        assert(home_wf(h@));
    }
    h.accepts(cfg)
}

/// Whether the push cascade's budget fits for `n` entries (`budget_fits`).
fn budget_ok(columns: u32, rows: u32, n: usize) -> (b: bool)
    ensures
        b == budget_fits(columns as int, rows as int, n as int),
{
    proof {
        assert(0 <= columns * rows <= 0xffff_ffff * 0xffff_ffff) by (nonlinear_arith)
            requires 0 <= columns <= 0xffff_ffff, 0 <= rows <= 0xffff_ffff;
    }
    let g = columns as u64 * rows as u64;
    if g > 0xffff_ffff {
        return false;
    }
    let m: usize = if n == 0 {
        1
    } else {
        n
    };
    match (g as usize).checked_mul(m) {
        Some(_) => true,
        None => false,
    }
}

/// The cells of `cfg`'s entries (see `config_cells`).
fn cells_of_config(cfg: &HomeConfig) -> (v: Vec<RectCells>)
    ensures
        v@ == config_cells(cfg@),
{
    let mut v: Vec<RectCells> = Vec::new();
    let mut k: usize = 0;
    while k < cfg.slots.len()
        invariant
            0 <= k <= cfg.slots@.len(),
            v@ == cfg@.slots.take(k as int).map_values(|s: SlotView| slot_cells(s)),
        decreases cfg.slots@.len() - k,
    {
        v.push(cells_of_slot(&cfg.slots[k]));
        proof {
            assert(cfg@.slots[k as int] == cfg.slots@[k as int]@);
            assert(v@ =~= cfg@.slots.take(k + 1).map_values(|s: SlotView| slot_cells(s)));
        }
        k = k + 1;
    }
    assert(cfg@.slots.take(k as int) =~= cfg@.slots);
    let ghost sv = v@;
    let mut k: usize = 0;
    while k < cfg.icons.len()
        invariant
            0 <= k <= cfg.icons@.len(),
            sv == cfg@.slots.map_values(|s: SlotView| slot_cells(s)),
            v@ == sv + cfg@.icons.take(k as int).map_values(|i: IconView| icon_cells(i)),
        decreases cfg.icons@.len() - k,
    {
        v.push(cells_of_icon(&cfg.icons[k]));
        proof {
            assert(cfg@.icons[k as int] == cfg.icons@[k as int]@);
            assert(v@ =~= sv + cfg@.icons.take(k + 1).map_values(|i: IconView| icon_cells(i)));
        }
        k = k + 1;
    }
    assert(cfg@.icons.take(k as int) =~= cfg@.icons);
    v
}

impl Home {
    fn blank() -> (h: Home)
        ensures
            h@ == blank_view(),
    {
        let h = Home {
            columns: 1,
            rows: 1,
            pages: Pages { current: 0, lift_from: None },
            items: Vec::new(),
            output_w: 0,
            output_h: 0,
            edit: false,
            selected: None,
            gesture: Gesture::Idle,
            drag_px: 0,
            last_pos: Pos { x: 0, y: 0 },
            drag_snapshot: None,
            lift_loc: Point { x: 0, y: 0 },
            frame_preview: None,
            page_edge: None,
            wait: None,
            touch_grab: None,
            touch_steal: None,
            persist: false,
            kills: Vec::new(),
        };
        assert(h@.items =~= blank_view().items);
        assert(h@.kills =~= blank_view().kills);
        h
    }

    /// The layout on screen as a configuration (see `current_config_spec`).
    pub fn current_config(&self) -> (c: HomeConfig)
        ensures
            c@ == current_config_spec(self@),
    {
        let mut slots: Vec<SlotConfig> = Vec::new();
        let mut icons: Vec<IconConfig> = Vec::new();
        let ghost all = self.items@;
        let mut i: usize = 0;
        while i < self.items.len()
            invariant
                0 <= i <= all.len(),
                all == self.items@,
                slots@.len() == widgets_of(all.take(i as int)).len(),
                forall|k: int|
                    0 <= k < slots@.len() ==> (#[trigger] slots@[k])@ == slot_of(
                        widgets_of(all.take(i as int))[k],
                    ),
                icons@.len() == icons_of(all.take(i as int)).len(),
                forall|k: int|
                    0 <= k < icons@.len() ==> (#[trigger] icons@[k])@ == icon_of(
                        icons_of(all.take(i as int))[k],
                    ),
            decreases all.len() - i,
        {
            let item = &self.items[i];
            proof {
                assert(all.take(i + 1).drop_last() =~= all.take(i as int));
                assert(all.take(i + 1).last() == all[i as int]);
            }
            match &item.kind {
                Kind::Widget { command, .. } => {
                    slots.push(
                        SlotConfig {
                            page: item.cells.page,
                            col: item.cells.col,
                            row: item.cells.row,
                            col_span: item.cells.col_span,
                            row_span: item.cells.row_span,
                            command: command.clone(),
                        },
                    );
                },
                Kind::Icon { desktop, .. } => {
                    icons.push(
                        IconConfig {
                            page: item.cells.page,
                            col: item.cells.col,
                            row: item.cells.row,
                            desktop: desktop.clone(),
                        },
                    );
                },
            }
            i = i + 1;
        }
        assert(all.take(i as int) =~= all);
        let c = HomeConfig { columns: self.columns, rows: self.rows, slots, icons };
        assert(c@.slots =~= current_config_spec(self@).slots);
        assert(c@.icons =~= current_config_spec(self@).icons);
        c
    }

    /// Whether this screen can hold `cfg` (see `config_in_limits`).
    pub fn holds(&self, cfg: &HomeConfig) -> (b: bool)
        requires
            home_wf(self@),
        ensures
            b == config_in_limits(self@, cfg@),
    {
        let ghost g = config_geometry(self@, cfg@);
        let cols: u32 = if cfg.columns >= 1 {
            cfg.columns
        } else {
            1
        };
        let rws: u32 = if cfg.rows >= 1 {
            cfg.rows
        } else {
            1
        };
        let (cw, ch) = crate::home::cell_dims_of(cols, rws, self.output_w, self.output_h);
        proof {
            crate::home::lemma_dims(cols, rws, self.output_w as int, self.output_h as int);
            assert(crate::home::pitch_x(g) == cw + 16 && crate::home::pitch_y(g) == ch + 16);
        }
        let px = cw + 16;
        let py = ch + 16;
        let wabs: i64 = if self.output_w < 0 {
            -(self.output_w as i64)
        } else {
            self.output_w as i64
        };
        proof {
            assert(0 <= cols * px <= 0xffff_ffff * 0x400_0010) by (nonlinear_arith)
                requires 0 <= cols <= 0xffff_ffff, 0 <= px <= 0x400_0010;
            assert(0 <= rws * py <= 0xffff_ffff * 0x400_0010) by (nonlinear_arith)
                requires 0 <= rws <= 0xffff_ffff, 0 <= py <= 0x400_0010;
        }
        if cols as i64 * px > PX_TERM || rws as i64 * py > PX_TERM {
            return false;
        }
        let cells = cells_of_config(cfg);
        if !budget_ok(cols, rws, cells.len()) {
            return false;
        }
        let lifted = match self.gesture {
            Gesture::Lifted { .. } => true,
            _ => false,
        };
        let mut pages: Vec<u32> = Vec::new();
        let mut k: usize = 0;
        while k < cells.len()
            invariant
                0 <= k <= cells@.len(),
                cells@ == config_cells(cfg@),
                g == config_geometry(self@, cfg@),
                crate::home::pitch_x(g) == px,
                crate::home::pitch_y(g) == py,
                width_abs(g) == wabs,
                0 <= px <= 0x400_0010,
                0 <= py <= 0x400_0010,
                0 <= wabs <= 0x400_0000,
                pages@ == cells@.take(k as int).map_values(|c: RectCells| c.page),
                forall|j: int| 0 <= j < k ==> cell_fits(g, RectCells { page: 0, ..#[trigger] cells@[j] }),
                lifted == (self@.gesture is Lifted),
                lifted ==> forall|j: int| 0 <= j < k ==> cell_fits(g, #[trigger] cells@[j]),
            decreases cells@.len() - k,
        {
            let c = cells[k];
            if !crate::home::cell_fits_exec(px, py, wabs, RectCells { page: 0, ..c }) {
                return false;
            }
            if lifted && !crate::home::cell_fits_exec(px, py, wabs, c) {
                return false;
            }
            pages.push(c.page);
            proof {
                assert(pages@ =~= cells@.take(k + 1).map_values(|c: RectCells| c.page));
            }
            k = k + 1;
        }
        assert(cells@.take(k as int) =~= cells@);
        assert(pages@ =~= config_pages(cfg@));
        let n = crate::pages::distinct_count(pages.as_slice());
        if n > 0xffff_ffff {
            return false;
        }
        proof {
            assert(0 <= n * wabs <= 0xffff_ffff * 0x400_0000) by (nonlinear_arith)
                requires 0 <= n <= 0xffff_ffff, 0 <= wabs <= 0x400_0000;
        }
        proof {
            if n >= 1 {
                assert(0 <= (n - 1) * wabs <= n * wabs) by (nonlinear_arith)
                    requires 1 <= n, 0 <= wabs;
            }
        }
        if n >= 1 && (n as i64 - 1) * wabs > PX_TERM {
            return false;
        }
        proof {
            if n == 0 {
                let ni = n as int;
                assert((ni - 1) * wabs == -wabs) by (nonlinear_arith) requires ni == 0;
            }
        }
        match &self.drag_snapshot {
            Some(snap) => {
                if !budget_ok(cols, rws, snap.len()) {
                    return false;
                }
                let mut j: usize = 0;
                while j < snap.len()
                    invariant
                        0 <= j <= snap@.len(),
                        g == config_geometry(self@, cfg@),
                        self@.drag_snapshot == Some(snap@),
                        crate::home::pitch_x(g) == px,
                        crate::home::pitch_y(g) == py,
                        width_abs(g) == wabs,
                        0 <= px <= 0x400_0010,
                        0 <= py <= 0x400_0010,
                        0 <= wabs <= 0x400_0000,
                        forall|i: int| 0 <= i < j ==> cell_fits(g, #[trigger] snap@[i].1),
                    decreases snap@.len() - j,
                {
                    if !crate::home::cell_fits_exec(px, py, wabs, snap[j].1) {
                        assert(!cell_fits(g, snap@[j as int].1));
                        return false;
                    }
                    j = j + 1;
                }
            },
            None => {},
        }
        match self.gesture {
            Gesture::Resizing { origin, .. } => crate::home::cell_fits_exec(px, py, wabs, origin),
            _ => true,
        }
    }

    /// Whether the model can hold `cfg` next to the items on screen (the
    /// screen's ranges, and fresh ids that fit in `u32`).
    pub fn accepts(&self, cfg: &HomeConfig) -> (b: bool)
        requires
            home_wf(self@),
        ensures
            b == (config_in_limits(self@, cfg@) && ids_fit(self@, cfg@)),
    {
        if !self.holds(cfg) {
            return false;
        }
        let mut max: u32 = 0;
        let mut j: usize = 0;
        while j < self.items.len()
            invariant
                0 <= j <= self.items@.len(),
                max as int == max_id(self.items@.take(j as int)),
            decreases self.items@.len() - j,
        {
            proof {
                assert(self.items@.take(j + 1).drop_last() =~= self.items@.take(j as int));
            }
            if self.items[j].id.0 > max {
                max = self.items[j].id.0;
            }
            j = j + 1;
        }
        assert(self.items@.take(j as int) =~= self.items@);
        if cfg.slots.len() >= 0xffff_ffff || cfg.icons.len() >= 0xffff_ffff {
            return false;
        }
        (max as u64) + (cfg.slots.len() as u64) + (cfg.icons.len() as u64) < 0xffff_ffff
    }

    /// Place the items of `cfg` (see `place_config_spec`); returns the
    /// surfaces of the widgets it dropped.
    fn place_config(&mut self, cfg: &HomeConfig, execs: &Vec<String>) -> (close: Vec<SurfaceId>)
        requires
            home_wf(old(self)@),
            config_in_limits(old(self)@, cfg@),
            ids_fit(old(self)@, cfg@),
            execs@.len() == cfg.icons@.len(),
        ensures
            final(self)@ == place_config_spec(old(self)@, *cfg, execs@),
            close@ == surfaces_of(slots_placed(old(self)@, *cfg).pool),
            home_wf(final(self)@),
    {
        let ghost h0 = self@;
        let mut old: Vec<Item> = Vec::new();
        std::mem::swap(&mut old, &mut self.items);
        let ghost all = old@;
        let mut widgets: Vec<Item> = Vec::new();
        let mut icons: Vec<Item> = Vec::new();
        let mut max: u32 = 0;
        let mut i: usize = 0;
        assert(all.take(0) =~= Seq::<Item>::empty());
        assert(all.skip(0) =~= all);
        let total = old.len();
        while old.len() > 0
            invariant
                0 <= i <= all.len(),
                all.len() == total,
                old@ == all.skip(i as int),
                widgets@ == widgets_of(all.take(i as int)),
                icons@ == icons_of(all.take(i as int)),
                max as int == max_id(all.take(i as int)),
            decreases old@.len(),
        {
            assert(old@.len() == all.len() - i);
            let item = old.remove(0);
            proof {
                assert(old@ =~= all.skip(i + 1));
                assert(all.take(i + 1).drop_last() =~= all.take(i as int));
                assert(all.take(i + 1).last() == all[i as int]);
            }
            if item.id.0 > max {
                max = item.id.0;
            }
            let widget = match &item.kind {
                Kind::Widget { .. } => true,
                Kind::Icon { .. } => false,
            };
            if widget {
                widgets.push(item);
            } else {
                icons.push(item);
            }
            i = i + 1;
        }
        assert(all.take(i as int) =~= all);
        assert(self@ == (HomeView { items: Seq::empty(), ..h0 }));
        proof {
            lemma_max_id(all);
        }
        let mut next_id: u32 = max + 1;
        let ghost start = Placing {
            items: Seq::empty(),
            pool: widgets_of(h0.items),
            next: max_id(h0.items) + 1,
        };
        let mut items: Vec<Item> = Vec::new();
        let mut k: usize = 0;
        assert(cfg.slots@.take(0) =~= Seq::<SlotConfig>::empty());
        while k < cfg.slots.len()
            invariant
                0 <= k <= cfg.slots@.len(),
                (Placing { items: items@, pool: widgets@, next: next_id as int }) == place_slots(
                    cfg.slots@.take(k as int),
                    start,
                ),
                max_id(h0.items) + 1 <= next_id <= max_id(h0.items) + 1 + k,
                ids_fit(h0, cfg@),
                cfg@.slots.len() == cfg.slots@.len(),
            decreases cfg.slots@.len() - k,
        {
            let slot = &cfg.slots[k];
            let cells = cells_of_slot(slot);
            proof {
                lemma_place_slots_step(cfg.slots@, start, k as int);
            }
            match take_widget(widgets.as_slice(), slot) {
                Some(idx) => {
                    let mut item = widgets.remove(idx);
                    item.cells = cells;
                    items.push(item);
                },
                None => {
                    items.push(
                        Item {
                            id: ItemId(next_id),
                            cells,
                            kind: Kind::Widget {
                                command: slot.command.clone(),
                                surface: None,
                                child: None,
                                launch_failed: false,
                                ever_mapped: false,
                            },
                        },
                    );
                    next_id = next_id + 1;
                },
            }
            k = k + 1;
        }
        assert(cfg.slots@.take(k as int) =~= cfg.slots@);
        let ghost ps = slots_placed(h0, *cfg);
        let ghost pool = widgets@;
        let mut close: Vec<SurfaceId> = Vec::new();
        let mut j: usize = 0;
        assert(pool.take(0) =~= Seq::<Item>::empty());
        assert(h0.kills + Seq::<u32>::empty() =~= h0.kills);
        while j < widgets.len()
            invariant
                0 <= j <= pool.len(),
                widgets@ == pool,
                close@ == surfaces_of(pool.take(j as int)),
                self@ == (HomeView {
                    items: Seq::empty(),
                    kills: h0.kills + children_of(pool.take(j as int)),
                    ..h0
                }),
            decreases pool.len() - j,
        {
            proof {
                assert(pool.take(j + 1).drop_last() =~= pool.take(j as int));
                assert(pool.take(j + 1).last() == pool[j as int]);
            }
            match &widgets[j].kind {
                Kind::Widget { surface, child, .. } => {
                    match child {
                        Some(pid) => {
                            self.kills.push(*pid);
                        },
                        None => {},
                    }
                    match surface {
                        Some(s) => {
                            close.push(*s);
                        },
                        None => {},
                    }
                },
                Kind::Icon { .. } => {},
            }
            proof {
                assert(self.kills@ =~= h0.kills + children_of(pool.take(j + 1)));
            }
            j = j + 1;
        }
        assert(pool.take(j as int) =~= pool);
        let ghost istart = Placing { items: ps.items, pool: icons_of(h0.items), next: ps.next };
        let mut k: usize = 0;
        assert(cfg.icons@.take(0) =~= Seq::<IconConfig>::empty());
        while k < cfg.icons.len()
            invariant
                0 <= k <= cfg.icons@.len(),
                execs@.len() == cfg.icons@.len(),
                (Placing { items: items@, pool: icons@, next: next_id as int }) == place_icons(
                    cfg.icons@.take(k as int),
                    execs@,
                    istart,
                ),
                ps.next <= next_id <= ps.next + k,
                ps.next <= max_id(h0.items) + 1 + cfg.slots@.len(),
                ids_fit(h0, cfg@),
                cfg@.slots.len() == cfg.slots@.len(),
                cfg@.icons.len() == cfg.icons@.len(),
                cfg.icons@.len() < 0xffff_ffff,
            decreases cfg.icons@.len() - k,
        {
            let icon = &cfg.icons[k];
            let cells = cells_of_icon(icon);
            proof {
                lemma_place_icons_step(cfg.icons@, execs@, istart, k as int);
            }
            match take_icon(icons.as_slice(), icon) {
                Some(idx) => {
                    let mut item = icons.remove(idx);
                    item.cells = cells;
                    items.push(item);
                },
                None => {
                    items.push(
                        Item {
                            id: ItemId(next_id),
                            cells,
                            kind: Kind::Icon {
                                desktop: icon.desktop.clone(),
                                exec_cmd: execs[k].clone(),
                                hue: k as u32,
                            },
                        },
                    );
                    next_id = next_id + 1;
                },
            }
            k = k + 1;
        }
        assert(cfg.icons@.take(k as int) =~= cfg.icons@);
        let ghost pi = all_placed(h0, *cfg, execs@);
        self.columns = if cfg.columns >= 1 {
            cfg.columns
        } else {
            1
        };
        self.rows = if cfg.rows >= 1 {
            cfg.rows
        } else {
            1
        };
        self.items = items;
        proof {
            lemma_place_slots(cfg.slots@, start);
            lemma_place_icons(cfg.icons@, execs@, istart);
            assert(self@.items == pi.items);
            let cc = config_cells(cfg@);
            let ns = cfg.slots@.len() as int;
            assert(pi.items.len() == cc.len());
            assert forall|k: int| 0 <= k < cc.len() implies #[trigger] self@.items[k].cells == cc[k] by {
                if k < ns {
                    assert(cfg@.slots[k] == cfg.slots@[k]@);
                    assert(pi.items[k] == istart.items[k]);
                    assert(ps.items[start.items.len() + k].cells == slot_cells(cfg.slots@[k]@));
                } else {
                    assert(cfg@.icons[k - ns] == cfg.icons@[k - ns]@);
                    assert(pi.items[ns + (k - ns)].cells == icon_cells(cfg.icons@[k - ns]@));
                }
            }
            let g = config_geometry(h0, cfg@);
            assert forall|k: int| 0 <= k < self@.items.len() implies cell_fits(
                self@,
                RectCells { page: 0, ..(#[trigger] self@.items[k]).cells },
            ) by {
                assert(cell_fits(g, RectCells { page: 0, ..cc[k] }));
            }
            assert(occupied_spec(self@.items) =~= config_pages(cfg@));
            crate::home::lemma_budget_shrinks(
                self@.columns as int,
                self@.rows as int,
                cc.len() as int,
                0,
            );
            assert(home_wf(HomeView { items: Seq::empty(), ..self@ }));
            lemma_placed_unique(h0, *cfg, execs@);
            assert(ids_unique(self@.items));
            if h0.gesture is Lifted {
                assert forall|k: int| 0 <= k < self@.items.len() implies cell_fits(
                    self@,
                    #[trigger] self@.items[k].cells,
                ) by {
                    assert(cell_fits(g, cc[k]));
                }
                assert(home_wf(self@));
            }
        }
        self.compact_pages();
        close
    }

    /// Apply a changed file (see `apply_config_spec`).
    fn apply_config(&mut self, cfg: &HomeConfig, execs: &Vec<String>) -> (a: HomeAction)
        requires
            home_wf(old(self)@),
            config_in_limits(old(self)@, cfg@),
            ids_fit(old(self)@, cfg@),
            execs@.len() == cfg.icons@.len(),
        ensures
            (a@, final(self)@) == apply_config_spec(old(self)@, *cfg, execs@),
            home_wf(final(self)@),
    {
        let close = self.place_config(cfg, execs);
        let cur = self.current_config();
        if !same_config(&cur, cfg) {
            self.persist = true;
        }
        match self.selected {
            Some(id) => {
                if self.find(id).is_none() {
                    self.selected = None;
                }
            },
            None => {},
        }
        let gone = match self.gesture {
            Gesture::Lifted { item, .. } => self.find(item).is_none(),
            Gesture::Resizing { item, .. } => self.find(item).is_none(),
            Gesture::Pending { item: Some(id), .. } => self.find(id).is_none(),
            _ => false,
        };
        if gone {
            self.gesture = Gesture::Idle;
            self.frame_preview = None;
            self.drag_snapshot = None;
            self.page_edge = None;
            self.pages.end_lift();
        }
        HomeAction::Reload { close }
    }

    /// Reload from a file's contents: nothing when it matches the layout on
    /// screen, else apply it (see `reload_spec`). `execs[i]` is the command
    /// of the desktop entry of icon `i`.
    pub fn reload(&mut self, cfg: &HomeConfig, execs: &Vec<String>) -> (a: HomeAction)
        requires
            home_wf(old(self)@),
            config_in_limits(old(self)@, cfg@),
            ids_fit(old(self)@, cfg@),
            execs@.len() == cfg.icons@.len(),
        ensures
            (a@, final(self)@) == reload_spec(old(self)@, *cfg, execs@),
            home_wf(final(self)@),
    {
        let cur = self.current_config();
        if same_config(&cur, cfg) {
            return HomeAction::NoOp;
        }
        self.apply_config(cfg, execs)
    }

    /// The homescreen that `cfg` describes (see `load_spec`).
    pub fn load(cfg: &HomeConfig, execs: &Vec<String>) -> (h: Home)
        requires
            config_in_limits(blank_view(), cfg@),
            ids_fit(blank_view(), cfg@),
            execs@.len() == cfg.icons@.len(),
        ensures
            h@ == load_spec(*cfg, execs@),
            home_wf(h@),
    {
        let mut h = Home::blank();
        proof {
            assert(crate::home::cell_dims(1, 1, 0, 0) == (1int, 1int));
        }
        let _ = h.place_config(cfg, execs);
        h
    }
}

} // verus!
