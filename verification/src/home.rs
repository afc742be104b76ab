//! The homescreen model: items on the grid and the gesture state machine.
//!
//! Time is passed in as monotonic nanoseconds and pointer positions as
//! Wayland fixed-point values (1/256 of a logical pixel). Page swiping keeps
//! its pixel offset and fling velocity with the caller, which hands back the
//! rounded offset (`set_page_drag`) and which way a release turns the page.

use vstd::prelude::*;

use crate::chrome::{self, Fill, Handle, Paint};
use crate::config::{
    HomeConfig, HomeConfigView, IconConfig, IconView, SlotConfig, SlotView, cells_of_icon,
    cells_of_slot, config_eq, icon_cells, same_config, slot_cells,
};
use crate::geometry::{Point, Pos, Rect, contains_px, fx_round, fx_trunc, rect_contains_px, round_px, trunc_px};
use crate::grid::{
    self, Dir, GAP, GridMetrics, RectCells, nearest_cell, nearest_cell_spec, push_dirs, push_resolve,
    resize_cells, resize_preview,
};
use crate::pages::{Pages, count_spec, page_set, rank};

verus! {

/// Identity of an item on the homescreen.
#[derive(Clone, Copy, Debug, PartialEq, Eq, Structural)]
pub struct ItemId(pub u32);

/// A nest surface, by the compositor's handle for it.
#[derive(Clone, Copy, Debug, PartialEq, Eq, Structural)]
pub struct SurfaceId(pub u64);

/// Press-and-hold before a tap turns into edit mode, in nanoseconds.
pub const LONG_PRESS: u64 = 500_000_000;
/// Movement (fixed-point) before a press stops being a tap.
pub const SLOP: i64 = 20 * 256;
/// Visual pop while lifted. Hole math uses the un-nudged rest position.
pub const LIFT_NUDGE_Y: i32 = -36;
/// Width of the screen edge (fixed-point) that flips pages while carrying.
pub const PAGE_EDGE: i64 = 48 * 256;
/// How long a carried item must rest at an edge to flip, in nanoseconds.
pub const PAGE_EDGE_HOLD: u64 = 400_000_000;

/// Bound on each term of a pixel coordinate on the page strip, 2^26 pixels.
/// Pixel geometry is `i32`, as in the compositor's rectangles. A coordinate
/// adds a grid offset (`cells × pitch`), a page's offset and the view's
/// (`page × output width`) and the drag; with every term within this bound,
/// every coordinate stays within ±2^28 and the sums made from it (an edge,
/// a pointer's travel, a chrome handle) within `i32`. The bound is on the
/// products, so a narrow screen has room for more pages and a coarse grid
/// for larger cells.
pub const PX_TERM: i64 = 0x400_0000;

pub enum Kind {
    Widget {
        command: String,
        surface: Option<SurfaceId>,
        /// Process id of the client started for this slot.
        child: Option<u32>,
        launch_failed: bool,
        ever_mapped: bool,
    },
    Icon {
        desktop: String,
        exec_cmd: String,
        /// Position among the icons when it was created; picks its colour.
        hue: u32,
    },
}

pub struct Item {
    pub id: ItemId,
    pub cells: RectCells,
    pub kind: Kind,
}

#[derive(Clone, Copy, Debug, PartialEq, Eq, Structural)]
pub enum TouchPhase {
    Down,
    Motion,
    Up,
}

#[derive(Clone, Copy, Debug, PartialEq, Eq, Structural)]
pub enum Gesture {
    Idle,
    Pending { start: Pos, t0: u64, item: Option<ItemId> },
    Swipe { start_x: i64, origin_page: u32 },
    Lifted { item: ItemId, start: Pos },
    Resizing {
        item: ItemId,
        handle: Handle,
        origin: RectCells,
        /// `pointer - handle_anchor` at press. The grabbed pixel stays put.
        grab: Pos,
    },
}

pub enum HomeAction {
    NoOp,
    Redraw,
    /// Move the lifted surface in Space only — no xdg configure.
    Relocate,
    Relayout,
    PointerClick { pos: Pos },
    /// Stream a finger into the nest. Swipe/lift steal with `Cancel`.
    Touch { id: i32, pos: Pos, phase: TouchPhase },
    Launch(String),
    CloseSurface(SurfaceId),
    /// Config changed: close leftover nest surfaces, then relayout.
    Reload { close: Vec<SurfaceId> },
}

/// An action as plain values.
pub enum ActionView {
    NoOp,
    Redraw,
    Relocate,
    Relayout,
    PointerClick { pos: Pos },
    Touch { id: i32, pos: Pos, phase: TouchPhase },
    Launch(Seq<char>),
    CloseSurface(SurfaceId),
    Reload { close: Seq<SurfaceId> },
}

impl View for HomeAction {
    type V = ActionView;

    open spec fn view(&self) -> ActionView {
        match self {
            HomeAction::NoOp => ActionView::NoOp,
            HomeAction::Redraw => ActionView::Redraw,
            HomeAction::Relocate => ActionView::Relocate,
            HomeAction::Relayout => ActionView::Relayout,
            HomeAction::PointerClick { pos } => ActionView::PointerClick { pos: *pos },
            HomeAction::Touch { id, pos, phase } => ActionView::Touch {
                id: *id,
                pos: *pos,
                phase: *phase,
            },
            HomeAction::Launch(s) => ActionView::Launch(s@),
            HomeAction::CloseSurface(s) => ActionView::CloseSurface(*s),
            HomeAction::Reload { close } => ActionView::Reload { close: close@ },
        }
    }
}

/// The homescreen state as plain values.
pub struct HomeView {
    pub columns: u32,
    pub rows: u32,
    pub pages: Pages,
    pub items: Seq<Item>,
    pub output_w: i32,
    pub output_h: i32,
    pub edit: bool,
    pub selected: Option<ItemId>,
    pub gesture: Gesture,
    pub drag_px: i32,
    pub last_pos: Pos,
    pub drag_snapshot: Option<Seq<(ItemId, RectCells)>>,
    pub lift_loc: Point,
    pub frame_preview: Option<Rect>,
    pub page_edge: Option<(i32, u64)>,
    pub wait: Option<u64>,
    pub touch_grab: Option<i32>,
    pub touch_steal: Option<i32>,
    pub persist: bool,
    pub kills: Seq<u32>,
}

pub struct Home {
    pub columns: u32,
    pub rows: u32,
    pub pages: Pages,
    pub items: Vec<Item>,
    pub output_w: i32,
    pub output_h: i32,
    pub edit: bool,
    pub selected: Option<ItemId>,
    pub gesture: Gesture,
    /// Page-drag offset in whole pixels, as last rounded by the caller.
    pub drag_px: i32,
    pub last_pos: Pos,
    pub drag_snapshot: Option<Vec<(ItemId, RectCells)>>,
    pub lift_loc: Point,
    /// Pixel frame during resize. Follows the handle; snaps to the grid on release.
    pub frame_preview: Option<Rect>,
    pub page_edge: Option<(i32, u64)>,
    pub wait: Option<u64>,
    /// Nest `wl_touch` slot we are streaming. Pointer never sets this.
    pub touch_grab: Option<i32>,
    /// Grab to cancel before the next nest action (swipe / lift / host cancel).
    pub touch_steal: Option<i32>,
    /// The layout changed in a way that belongs in the file.
    pub persist: bool,
    /// Processes of removed widgets, to be killed.
    pub kills: Vec<u32>,
}

impl View for Home {
    type V = HomeView;

    open spec fn view(&self) -> HomeView {
        HomeView {
            columns: self.columns,
            rows: self.rows,
            pages: self.pages,
            items: self.items@,
            output_w: self.output_w,
            output_h: self.output_h,
            edit: self.edit,
            selected: self.selected,
            gesture: self.gesture,
            drag_px: self.drag_px,
            last_pos: self.last_pos,
            drag_snapshot: match self.drag_snapshot {
                Some(v) => Some(v@),
                None => None,
            },
            lift_loc: self.lift_loc,
            frame_preview: self.frame_preview,
            page_edge: self.page_edge,
            wait: self.wait,
            touch_grab: self.touch_grab,
            touch_steal: self.touch_steal,
            persist: self.persist,
            kills: self.kills@,
        }
    }
}

/// A cell rectangle at all: spans of at least one cell, far edges that the
/// grid's `i32` comparisons can take, a page after which a page count fits
/// in `u32`.
pub open spec fn cells_in_limits(c: RectCells) -> bool {
    &&& c.page < u32::MAX
    &&& 1 <= c.col_span
    &&& 1 <= c.row_span
    &&& grid::cells_ok(c)
}

/// Width of a cell column and height of a cell row, gap included.
pub open spec fn pitch_x(h: HomeView) -> int {
    cell_spec(h).0 + GAP
}

pub open spec fn pitch_y(h: HomeView) -> int {
    cell_spec(h).1 + GAP
}

/// Width of the output, either sign.
pub open spec fn width_abs(h: HomeView) -> int {
    grid::abs(h.output_w as int)
}

/// A cell rectangle whose pixel terms on this screen are within `PX_TERM`.
pub open spec fn cell_fits(h: HomeView, c: RectCells) -> bool {
    cell_fits_at(pitch_x(h), pitch_y(h), width_abs(h), c)
}

/// The same, for pitches `px`, `py` and an output `wabs` pixels wide.
pub open spec fn cell_fits_at(px: int, py: int, wabs: int, c: RectCells) -> bool {
    &&& cells_in_limits(c)
    &&& (c.col + c.col_span) * px <= PX_TERM
    &&& (c.row + c.row_span) * py <= PX_TERM
    &&& c.page * wabs <= PX_TERM
}

/// The push cascade's step budget, `columns × rows × entries`, in `u32`
/// and `usize` as the cascade computes it.
pub open spec fn budget_fits(columns: int, rows: int, n: int) -> bool {
    &&& columns * rows <= u32::MAX
    &&& columns * rows * (if n == 0 {
        1
    } else {
        n
    }) <= usize::MAX
}

/// A pointer position in the range of a Wayland fixed-point value (`i32`
/// with eight fractional bits).
pub open spec fn pos_ok(p: Pos) -> bool {
    &&& -0x8000_0000 <= p.x <= 0x8000_0000
    &&& -0x8000_0000 <= p.y <= 0x8000_0000
}

pub open spec fn pos_within(p: Pos, b: int) -> bool {
    &&& -b <= p.x <= b
    &&& -b <= p.y <= b
}

pub open spec fn rect_in_limits(r: Rect) -> bool {
    &&& -0x4000_0000 <= r.x <= 0x4000_0000
    &&& -0x4000_0000 <= r.y <= 0x4000_0000
    &&& -0x4000_0000 <= r.w <= 0x4000_0000
    &&& -0x4000_0000 <= r.h <= 0x4000_0000
    &&& -0x5000_0000 <= r.x + r.w <= 0x5000_0000
    &&& -0x5000_0000 <= r.y + r.h <= 0x5000_0000
}

pub open spec fn gesture_ok(h: HomeView, g: Gesture) -> bool {
    match g {
        Gesture::Idle => true,
        Gesture::Pending { start, .. } => pos_ok(start),
        Gesture::Swipe { origin_page, .. } => origin_page * width_abs(h) <= PX_TERM && origin_page < u32::MAX,
        Gesture::Lifted { start, .. } => pos_within(start, 0x80_0000_0000),
        Gesture::Resizing { origin, grab, .. } => cell_fits(h, origin) && pos_within(
            grab,
            0x20_0000_0000,
        ),
    }
}

pub open spec fn snapshot_fits(h: HomeView, s: Seq<(ItemId, RectCells)>) -> bool {
    &&& budget_fits(h.columns as int, h.rows as int, s.len() as int)
    &&& forall|k: int| 0 <= k < s.len() ==> cell_fits(h, #[trigger] s[k].1)
}

/// The screen's grid and strip: cells, pages and drag within `PX_TERM`.
pub open spec fn screen_fits(h: HomeView) -> bool {
    &&& 1 <= h.columns
    &&& 1 <= h.rows
    &&& -PX_TERM <= h.output_w <= PX_TERM
    &&& -PX_TERM <= h.output_h <= PX_TERM
    &&& h.columns * pitch_x(h) <= PX_TERM
    &&& h.rows * pitch_y(h) <= PX_TERM
    &&& h.pages.current * width_abs(h) <= PX_TERM
    &&& h.pages.current < u32::MAX
    &&& (h.pages.lift_from matches Some(b) ==> b * width_abs(h) <= PX_TERM && b < u32::MAX)
    &&& -PX_TERM <= h.drag_px <= PX_TERM
}

/// No two items share an id.
pub open spec fn ids_unique(items: Seq<Item>) -> bool {
    forall|j: int, k: int| 0 <= j < k < items.len() ==> items[j].id != items[k].id
}

/// Items with the same ids, one for one, are as unique as the others.
pub proof fn lemma_same_ids_unique(a: Seq<Item>, b: Seq<Item>)
    requires
        ids_unique(a),
        a.len() == b.len(),
        forall|k: int| 0 <= k < a.len() ==> #[trigger] b[k].id == a[k].id,
    ensures
        ids_unique(b),
{
    assert forall|j: int, k: int| 0 <= j < k < b.len() implies b[j].id != b[k].id by {
        assert(b[j].id == a[j].id && b[k].id == a[k].id);
    }
}

/// The model stays within the ranges its `i32` pixel arithmetic takes, and
/// every item has an id of its own.
pub open spec fn home_wf(h: HomeView) -> bool {
    &&& screen_fits(h)
    &&& ids_unique(h.items)
    &&& budget_fits(h.columns as int, h.rows as int, h.items.len() as int)
    &&& forall|k: int| 0 <= k < h.items.len() ==> cell_fits(h, #[trigger] h.items[k].cells)
    &&& pos_ok(h.last_pos)
    &&& (h.drag_snapshot matches Some(s) ==> snapshot_fits(h, s))
    &&& -0x4000_0000 <= h.lift_loc.x <= 0x4000_0000
    &&& -0x4000_0000 <= h.lift_loc.y <= 0x4000_0000
    &&& (h.frame_preview matches Some(r) ==> rect_in_limits(r) && h.gesture is Resizing)
    &&& gesture_ok(h, h.gesture)
}

/// Room for one more page: its offset within `PX_TERM`, and its number,
/// plus one, in `u32` as page counts are computed.
pub open spec fn page_room(h: HomeView) -> bool {
    &&& (page_count_spec(h) + 1) * width_abs(h) <= PX_TERM
    &&& page_count_spec(h) < u32::MAX
}

/// Headroom for the next event: a page to flip or carry to, room for a
/// released swipe's offset, and a lift anchor close enough that the dragged
/// tile stays in pixel range. The caller checks it with `within_limits`
/// before handing in an event.
pub open spec fn event_ok(h: HomeView) -> bool {
    &&& page_room(h)
    &&& (h.gesture matches Gesture::Swipe { origin_page, .. } ==> (page_count_spec(h) + origin_page)
        * land_width(h) + grid::abs(h.drag_px as int) <= PX_TERM)
    &&& (h.gesture matches Gesture::Lifted { start, .. } ==> pos_within(start, 0x20_0000_0000))
}

// ---------------------------------------------------------------------------
// Geometry of the grid.

/// `a / b` rounded toward zero, as Rust's `/` on integers (`b > 0`).
pub open spec fn tdiv(a: int, b: int) -> int {
    if a >= 0 {
        a / b
    } else {
        -((-a) / b)
    }
}

/// Pixel size of one cell: the output split into `columns × rows` with
/// `GAP` around and between cells, never below one pixel.
pub open spec fn cell_spec(h: HomeView) -> (int, int) {
    cell_dims(h.columns, h.rows, h.output_w as int, h.output_h as int)
}

/// Cell size of a `columns × rows` grid on a `w × hh` output.
pub open spec fn cell_dims(columns: u32, rows: u32, w: int, hh: int) -> (int, int) {
    let cols = if columns >= 1 {
        columns as int
    } else {
        1
    };
    let rows = if rows >= 1 {
        rows as int
    } else {
        1
    };
    let cw = tdiv(w - GAP * (cols + 1), cols);
    let ch = tdiv(hh - GAP * (rows + 1), rows);
    (if cw >= 1 {
        cw
    } else {
        1
    }, if ch >= 1 {
        ch
    } else {
        1
    })
}

pub open spec fn shift_x_spec(h: HomeView) -> int {
    (0 - h.pages.current) * h.output_w + h.drag_px
}

/// Pixel rectangle of a cell rectangle on the (scrolled) page strip.
pub open spec fn rect_of_spec(h: HomeView, c: RectCells) -> Rect {
    let (cw, ch) = cell_spec(h);
    Rect {
        x: (GAP + c.col * (cw + GAP) + c.page * h.output_w + shift_x_spec(h)) as i32,
        y: (GAP + c.row * (ch + GAP)) as i32,
        w: (c.col_span * cw + (c.col_span - 1) * GAP) as i32,
        h: (c.row_span * ch + (c.row_span - 1) * GAP) as i32,
    }
}

/// Cell size of a `columns × rows` grid on a `w × hh` output (`cell_dims`).
pub fn cell_dims_of(columns: u32, rows: u32, w: i32, hh: i32) -> (r: (i64, i64))
    requires
        1 <= columns,
        1 <= rows,
    ensures
        r.0 == cell_dims(columns, rows, w as int, hh as int).0,
        r.1 == cell_dims(columns, rows, w as int, hh as int).1,
{
    let cols = columns as i64;
    let rws = rows as i64;
    let a = w as i64 - 16 * (cols + 1);
    let b = hh as i64 - 16 * (rws + 1);
    let cw = if a >= 0 {
        a / cols
    } else {
        -((-a) / cols)
    };
    let ch = if b >= 0 {
        b / rws
    } else {
        -((-b) / rws)
    };
    proof {
        assert(GAP == 16);
    }
    (if cw >= 1 {
        cw
    } else {
        1
    }, if ch >= 1 {
        ch
    } else {
        1
    })
}

/// Whether `c` fits pitches `px`, `py` and an output `wabs` wide
/// (`cell_fits_at`).
pub fn cell_fits_exec(px: i64, py: i64, wabs: i64, c: RectCells) -> (b: bool)
    requires
        0 <= px <= 0x400_0010,
        0 <= py <= 0x400_0010,
        0 <= wabs <= 0x400_0000,
    ensures
        b == cell_fits_at(px as int, py as int, wabs as int, c),
{
    if c.col_span < 1 || c.row_span < 1 || c.page == u32::MAX {
        return false;
    }
    let cs = c.col as i64 + c.col_span as i64;
    let rs = c.row as i64 + c.row_span as i64;
    if cs > 0x7fff_ffff || rs > 0x7fff_ffff {
        return false;
    }
    proof {
        assert(0 <= cs * px <= 0x7fff_ffff * 0x400_0010) by (nonlinear_arith)
            requires
                0 <= cs <= 0x7fff_ffff,
                0 <= px <= 0x400_0010,
        ;
        assert(0 <= rs * py <= 0x7fff_ffff * 0x400_0010) by (nonlinear_arith)
            requires
                0 <= rs <= 0x7fff_ffff,
                0 <= py <= 0x400_0010,
        ;
        assert(0 <= c.page * wabs <= 0xffff_ffff * 0x400_0000) by (nonlinear_arith)
            requires
                0 <= c.page <= 0xffff_ffff,
                0 <= wabs <= 0x400_0000,
        ;
    }
    cs * px <= PX_TERM && rs * py <= PX_TERM && c.page as i64 * wabs <= PX_TERM
}

/// Cells of an output within `PX_TERM` are at most `PX_TERM` pixels.
pub proof fn lemma_dims(columns: u32, rows: u32, w: int, hh: int)
    requires
        1 <= columns,
        1 <= rows,
        -PX_TERM <= w <= PX_TERM,
        -PX_TERM <= hh <= PX_TERM,
    ensures
        1 <= cell_dims(columns, rows, w, hh).0 <= PX_TERM,
        1 <= cell_dims(columns, rows, w, hh).1 <= PX_TERM,
{
    let cols = columns as int;
    let rws = rows as int;
    let a = w - GAP * (cols + 1);
    let b = hh - GAP * (rws + 1);
    assert(tdiv(a, cols) <= PX_TERM) by (nonlinear_arith)
        requires
            cols >= 1,
            a <= PX_TERM,
    {
        if a >= 0 {
            assert(a / cols <= a);
        } else {
            assert(-((-a) / cols) <= 0);
        }
    }
    assert(tdiv(b, rws) <= PX_TERM) by (nonlinear_arith)
        requires
            rws >= 1,
            b <= PX_TERM,
    {
        if b >= 0 {
            assert(b / rws <= b);
        } else {
            assert(-((-b) / rws) <= 0);
        }
    }
}

pub proof fn lemma_cell_bounds(h: HomeView)
    requires
        screen_fits(h),
    ensures
        1 <= cell_spec(h).0 <= PX_TERM,
        1 <= cell_spec(h).1 <= PX_TERM,
        pitch_x(h) == cell_spec(h).0 + GAP,
        pitch_y(h) == cell_spec(h).1 + GAP,
        cell_spec(h).0 <= h.columns * pitch_x(h),
        cell_spec(h).1 <= h.rows * pitch_y(h),
{
    let cols = h.columns as int;
    let rows = h.rows as int;
    let a = h.output_w - GAP * (cols + 1);
    let b = h.output_h - GAP * (rows + 1);
    assert(tdiv(a, cols) <= PX_TERM) by (nonlinear_arith)
        requires
            cols >= 1,
            a <= PX_TERM,
    {
        if a >= 0 {
            assert(a / cols <= a);
        } else {
            assert(-((-a) / cols) <= 0);
        }
    }
    assert(tdiv(b, rows) <= PX_TERM) by (nonlinear_arith)
        requires
            rows >= 1,
            b <= PX_TERM,
    {
        if b >= 0 {
            assert(b / rows <= b);
        } else {
            assert(-((-b) / rows) <= 0);
        }
    }
    let (cw, ch) = cell_spec(h);
    assert(cw <= cols * (cw + GAP)) by (nonlinear_arith)
        requires
            cols >= 1,
            cw >= 1,
    ;
    assert(ch <= rows * (ch + GAP)) by (nonlinear_arith)
        requires
            rows >= 1,
            ch >= 1,
    ;
}

/// A cascade budget that fits stays so for fewer entries.
pub proof fn lemma_budget_shrinks(columns: int, rows: int, n: int, m: int)
    requires
        0 <= columns,
        0 <= rows,
        0 <= m <= n,
        budget_fits(columns, rows, n),
    ensures
        budget_fits(columns, rows, m),
{
    let g = columns * rows;
    assert(0 <= g) by (nonlinear_arith)
        requires
            0 <= columns,
            0 <= rows,
            g == columns * rows,
    ;
    let fm = if m == 0 {
        1
    } else {
        m
    };
    let fn_ = if n == 0 {
        1
    } else {
        n
    };
    assert(g * fm <= g * fn_) by (nonlinear_arith)
        requires
            0 <= g,
            1 <= fm <= fn_,
    ;
    assert(columns * rows * fm == g * fm);
    assert(columns * rows * fn_ == g * fn_);
}

/// A grid that fits has fewer than 2^22 columns and rows.
pub proof fn lemma_grid_small(h: HomeView)
    requires
        screen_fits(h),
    ensures
        h.columns <= 0x40_0000,
        h.rows <= 0x40_0000,
{
    lemma_cell_bounds(h);
    assert(h.columns * 16 <= h.columns * pitch_x(h)) by (nonlinear_arith)
        requires
            h.columns >= 1,
            pitch_x(h) >= 16,
    ;
    assert(h.rows * 16 <= h.rows * pitch_y(h)) by (nonlinear_arith)
        requires
            h.rows >= 1,
            pitch_y(h) >= 16,
    ;
}

/// Cells inside the grid, on a page that fits, fit.
pub proof fn lemma_inside_fits(h: HomeView, c: RectCells)
    requires
        screen_fits(h),
        1 <= c.col_span,
        1 <= c.row_span,
        c.col + c.col_span <= h.columns,
        c.row + c.row_span <= h.rows,
        c.page * width_abs(h) <= PX_TERM,
        c.page < u32::MAX,
    ensures
        cell_fits(h, c),
{
    lemma_cell_bounds(h);
    lemma_grid_small(h);
    lemma_term(c.col + c.col_span, h.columns as int, pitch_x(h), PX_TERM as int);
    lemma_term(c.row + c.row_span, h.rows as int, pitch_y(h), PX_TERM as int);
}

/// `n × p` within a bound stays so for smaller `n`.
pub proof fn lemma_term(n: int, m: int, p: int, b: int)
    requires
        0 <= n <= m,
        0 <= p,
        m * p <= b,
    ensures
        0 <= n * p <= b,
{
    assert(n * p <= m * p) by (nonlinear_arith)
        requires
            0 <= n <= m,
            0 <= p,
    ;
    assert(0 <= n * p) by (nonlinear_arith)
        requires
            0 <= n,
            0 <= p,
    ;
}

/// The page offsets of two pages differ by no more than the larger one.
pub proof fn lemma_page_diff(p: int, q: int, w: int)
    requires
        0 <= p,
        0 <= q,
        p * grid::abs(w) <= PX_TERM,
        q * grid::abs(w) <= PX_TERM,
    ensures
        -PX_TERM <= p * w - q * w <= PX_TERM,
{
    if w >= 0 {
        assert(0 <= p * w && 0 <= q * w) by (nonlinear_arith)
            requires
                0 <= p,
                0 <= q,
                0 <= w,
        ;
    } else {
        assert(p * w == -(p * (-w)) && q * w == -(q * (-w))) by (nonlinear_arith);
        assert(0 <= p * (-w) && 0 <= q * (-w)) by (nonlinear_arith)
            requires
                0 <= p,
                0 <= q,
                0 <= -w,
        ;
    }
}

/// Rectangles of fitting cells stay far inside `i32`.
pub proof fn lemma_rect_of_bounds(h: HomeView, c: RectCells)
    requires
        screen_fits(h),
        cell_fits(h, c),
    ensures
        rect_in_limits(rect_of_spec(h, c)),
        -0x1000_0000 <= rect_of_spec(h, c).x <= 0x1000_0000,
        -0x1000_0000 <= rect_of_spec(h, c).y <= 0x1000_0000,
        -0x1000_0000 <= rect_of_spec(h, c).x + rect_of_spec(h, c).w <= 0x1000_0000,
        -0x1000_0000 <= rect_of_spec(h, c).y + rect_of_spec(h, c).h <= 0x1000_0000,
        0 <= rect_of_spec(h, c).w <= 0x1000_0000,
        0 <= rect_of_spec(h, c).h <= 0x1000_0000,
{
    lemma_cell_bounds(h);
    let (cw, ch) = cell_spec(h);
    let col = c.col as int;
    let row = c.row as int;
    let cs = c.col_span as int;
    let rs = c.row_span as int;
    let px = cw + GAP;
    let py = ch + GAP;
    lemma_term(col, col + cs, px, PX_TERM as int);
    lemma_term(row, row + rs, py, PX_TERM as int);
    lemma_term(cs, col + cs, px, PX_TERM as int);
    lemma_term(rs, row + rs, py, PX_TERM as int);
    assert(cs * cw <= cs * px) by (nonlinear_arith)
        requires
            0 <= cs,
            cw <= px,
    ;
    assert(rs * ch <= rs * py) by (nonlinear_arith)
        requires
            0 <= rs,
            ch <= py,
    ;
    assert(col * px + cs * px == (col + cs) * px) by (nonlinear_arith);
    assert(row * py + rs * py == (row + rs) * py) by (nonlinear_arith);
    assert(0 <= cs * cw && 0 <= rs * ch) by (nonlinear_arith)
        requires
            0 <= cs,
            0 <= rs,
            1 <= cw,
            1 <= ch,
    ;
    lemma_page_diff(c.page as int, h.pages.current as int, h.output_w as int);
    let pw = c.page * h.output_w;
    let cwid = h.pages.current * h.output_w;
    assert((0 - h.pages.current) * h.output_w == -cwid) by (nonlinear_arith)
        requires cwid == h.pages.current * h.output_w;
    assert(cs * px == cs * cw + cs * GAP) by (nonlinear_arith)
        requires px == cw + GAP;
    assert(rs * py == rs * ch + rs * GAP) by (nonlinear_arith)
        requires py == ch + GAP;
    let x = GAP + col * px + pw + ((0 - h.pages.current) * h.output_w + h.drag_px);
    assert(-0x0c00_0010 <= x <= 0x0c00_0010);
    assert(rect_of_spec(h, c).x == x);
    assert(rect_of_spec(h, c).w == cs * cw + (cs - 1) * GAP);
}

// ---------------------------------------------------------------------------
// Lookups.

/// Index of the first item with `id`, from `i` on.
pub open spec fn find_item(items: Seq<Item>, id: ItemId, i: int) -> Option<int>
    decreases items.len() - i,
{
    if i < 0 || i >= items.len() {
        None
    } else if items[i].id == id {
        Some(i)
    } else {
        find_item(items, id, i + 1)
    }
}

pub proof fn lemma_find_item(items: Seq<Item>, id: ItemId, i: int)
    requires
        i >= 0,
    ensures
        find_item(items, id, i) matches Some(k) ==> i <= k < items.len() && items[k].id == id
            && (forall|j: int| i <= j < k ==> items[j].id != id),
        find_item(items, id, i) is None ==> forall|j: int|
            i <= j < items.len() ==> items[j].id != id,
    decreases items.len() - i,
{
    if 0 <= i < items.len() {
        lemma_find_item(items, id, i + 1);
    }
}

pub open spec fn default_cells() -> RectCells {
    RectCells { page: 0, col: 0, row: 0, col_span: 1, row_span: 1 }
}

/// Cells of item `id`, or one cell at the origin if there is none.
pub open spec fn cells_of_spec(h: HomeView, id: ItemId) -> RectCells {
    match find_item(h.items, id, 0) {
        Some(k) => h.items[k].cells,
        None => default_cells(),
    }
}

pub open spec fn lifted_spec(h: HomeView) -> Option<ItemId> {
    match h.gesture {
        Gesture::Lifted { item, .. } => Some(item),
        _ => None,
    }
}

pub open spec fn carrying_spec(h: HomeView) -> Option<u32> {
    match h.gesture {
        Gesture::Lifted { item, .. } => Some(cells_of_spec(h, item).page),
        _ => None,
    }
}

pub open spec fn occupied_spec(items: Seq<Item>) -> Seq<u32> {
    items.map_values(|i: Item| i.cells.page)
}

pub open spec fn page_count_spec(h: HomeView) -> int {
    count_spec(h.pages, occupied_spec(h.items), carrying_spec(h))
}

/// Cells recorded for `id` in the drag snapshot, else its current cells.
pub open spec fn snapshot_cells_spec(h: HomeView, id: ItemId) -> RectCells {
    match h.drag_snapshot {
        Some(s) => match grid::cells_for(s, id) {
            Some(c) => c,
            None => cells_of_spec(h, id),
        },
        None => cells_of_spec(h, id),
    }
}

pub open spec fn is_widget(i: Item) -> bool {
    i.kind is Widget
}

pub proof fn lemma_cells_of_in_limits(h: HomeView, id: ItemId)
    requires
        home_wf(h),
    ensures
        cells_in_limits(cells_of_spec(h, id)),
        cells_in_limits(snapshot_cells_spec(h, id)),
        cell_fits(h, cells_of_spec(h, id)),
        cell_fits(h, snapshot_cells_spec(h, id)),
{
    lemma_inside_fits(h, default_cells());
    lemma_find_item(h.items, id, 0);
    if let Some(s) = h.drag_snapshot {
        grid::lemma_cells_for_in(s, id);
    }
}

impl Home {
    pub open spec fn wf(&self) -> bool {
        home_wf(self@)
    }

    pub(crate) fn find(&self, id: ItemId) -> (r: Option<usize>)
        ensures
            r matches Some(k) ==> find_item(self.items@, id, 0) == Some(k as int) && k < self.items@.len(),
            r is None ==> find_item(self.items@, id, 0) is None,
    {
        proof {
            lemma_find_item(self.items@, id, 0);
        }
        let mut i: usize = 0;
        while i < self.items.len()
            invariant
                0 <= i <= self.items@.len(),
                find_item(self.items@, id, 0) == find_item(self.items@, id, i as int),
            decreases self.items@.len() - i,
        {
            if self.items[i].id == id {
                return Some(i);
            }
            i = i + 1;
        }
        None
    }

    /// The page on screen.
    pub fn page(&self) -> (r: u32)
        ensures
            r == self.pages.current,
    {
        self.pages.current()
    }

    pub fn set_page(&mut self, page: u32)
        ensures
            final(self)@ == (HomeView {
                pages: Pages { current: page, ..old(self).pages },
                ..old(self)@
            }),
    {
        self.pages.jump(page);
    }

    /// Whether the layout fits an output of `w × hh` (the model's ranges
    /// with the new cell size; see `home_wf`).
    pub fn size_fits(&self, w: i32, hh: i32) -> (b: bool)
        requires
            self.wf(),
        ensures
            b == home_wf(HomeView { output_w: w, output_h: hh, ..self@ }),
    {
        let ghost h2 = HomeView { output_w: w, output_h: hh, ..self@ };
        if (w as i64) < -PX_TERM || w as i64 > PX_TERM || (hh as i64) < -PX_TERM || hh as i64 > PX_TERM {
            return false;
        }
        let (cw, ch) = cell_dims_of(self.columns, self.rows, w, hh);
        proof {
            lemma_dims(self.columns, self.rows, w as int, hh as int);
        }
        let px = cw + 16;
        let py = ch + 16;
        let wabs: i64 = if w < 0 {
            -(w as i64)
        } else {
            w as i64
        };
        proof {
            assert(GAP == 16);
            assert(pitch_x(h2) == px && pitch_y(h2) == py && width_abs(h2) == wabs);
            assert(0 <= self.columns * px <= 0xffff_ffff * 0x400_0010) by (nonlinear_arith)
                requires 0 <= self.columns <= 0xffff_ffff, 0 <= px <= 0x400_0010;
            assert(0 <= self.rows * py <= 0xffff_ffff * 0x400_0010) by (nonlinear_arith)
                requires 0 <= self.rows <= 0xffff_ffff, 0 <= py <= 0x400_0010;
            assert(0 <= self.pages.current * wabs <= 0xffff_ffff * 0x400_0000) by (nonlinear_arith)
                requires 0 <= self.pages.current <= 0xffff_ffff, 0 <= wabs <= 0x400_0000;
        }
        if self.columns as i64 * px > PX_TERM || self.rows as i64 * py > PX_TERM
            || self.pages.current as i64 * wabs > PX_TERM {
            return false;
        }
        match self.pages.lift_from {
            Some(b) => {
                proof {
                    assert(0 <= b * wabs <= 0xffff_ffff * 0x400_0000) by (nonlinear_arith)
                        requires 0 <= b <= 0xffff_ffff, 0 <= wabs <= 0x400_0000;
                }
                if b as i64 * wabs > PX_TERM {
                    return false;
                }
            },
            None => {},
        }
        match self.gesture {
            Gesture::Swipe { origin_page, .. } => {
                proof {
                    assert(0 <= origin_page * wabs <= 0xffff_ffff * 0x400_0000) by (nonlinear_arith)
                        requires 0 <= origin_page <= 0xffff_ffff, 0 <= wabs <= 0x400_0000;
                }
                if origin_page as i64 * wabs > PX_TERM {
                    return false;
                }
            },
            Gesture::Resizing { origin, .. } => {
                if !cell_fits_exec(px, py, wabs, origin) {
                    return false;
                }
            },
            _ => {},
        }
        let mut i: usize = 0;
        while i < self.items.len()
            invariant
                0 <= i <= self.items@.len(),
                0 <= px <= 0x400_0010,
                0 <= py <= 0x400_0010,
                0 <= wabs <= 0x400_0000,
                forall|k: int| 0 <= k < i ==> cell_fits_at(px as int, py as int, wabs as int, #[trigger] self.items@[k].cells),
                pitch_x(h2) == px,
                pitch_y(h2) == py,
                width_abs(h2) == wabs,
                h2 == (HomeView { output_w: w, output_h: hh, ..self@ }),
            decreases self.items@.len() - i,
        {
            if !cell_fits_exec(px, py, wabs, self.items[i].cells) {
                assert(!cell_fits(h2, h2.items[i as int].cells));
                return false;
            }
            i = i + 1;
        }
        match &self.drag_snapshot {
            Some(snap) => {
                let mut j: usize = 0;
                while j < snap.len()
                    invariant
                        0 <= j <= snap@.len(),
                        0 <= px <= 0x400_0010,
                        0 <= py <= 0x400_0010,
                        0 <= wabs <= 0x400_0000,
                        forall|k: int| 0 <= k < j ==> cell_fits_at(px as int, py as int, wabs as int, #[trigger] snap@[k].1),
                        pitch_x(h2) == px,
                        pitch_y(h2) == py,
                        width_abs(h2) == wabs,
                        h2 == (HomeView { output_w: w, output_h: hh, ..self@ }),
                        h2.drag_snapshot == Some(snap@),
                    decreases snap@.len() - j,
                {
                    if !cell_fits_exec(px, py, wabs, snap[j].1) {
                        assert(!cell_fits(h2, snap@[j as int].1));
                        return false;
                    }
                    j = j + 1;
                }
            },
            None => {},
        }
        true
    }

    pub fn set_output_size(&mut self, w: i32, h: i32)
        requires
            old(self).wf(),
            home_wf(HomeView { output_w: w, output_h: h, ..old(self)@ }),
        ensures
            final(self)@ == (HomeView { output_w: w, output_h: h, ..old(self)@ }),
            final(self).wf(),
    {
        self.output_w = w;
        self.output_h = h;
    }

    /// Page-drag offset, rounded to whole pixels by the caller.
    pub fn set_page_drag(&mut self, px: i32)
        requires
            old(self).wf(),
            -PX_TERM <= px <= PX_TERM,
        ensures
            final(self)@ == (HomeView { drag_px: px, ..old(self)@ }),
            final(self).wf(),
    {
        self.drag_px = px;
    }

    pub fn cells_of(&self, id: ItemId) -> (c: RectCells)
        ensures
            c == cells_of_spec(self@, id),
    {
        match self.find(id) {
            Some(k) => self.items[k].cells,
            None => RectCells { page: 0, col: 0, row: 0, col_span: 1, row_span: 1 },
        }
    }

    pub fn lifted(&self) -> (r: Option<ItemId>)
        ensures
            r == lifted_spec(self@),
    {
        match self.gesture {
            Gesture::Lifted { item, .. } => Some(item),
            _ => None,
        }
    }

    fn occupied_pages(&self) -> (v: Vec<u32>)
        ensures
            v@ == occupied_spec(self.items@),
    {
        let mut v: Vec<u32> = Vec::new();
        let mut i: usize = 0;
        while i < self.items.len()
            invariant
                0 <= i <= self.items@.len(),
                v@ == occupied_spec(self.items@).take(i as int),
            decreases self.items@.len() - i,
        {
            v.push(self.items[i].cells.page);
            proof {
                assert(v@ =~= occupied_spec(self.items@).take(i + 1));
            }
            i = i + 1;
        }
        assert(v@ =~= occupied_spec(self.items@));
        v
    }

    fn carrying_page(&self) -> (r: Option<u32>)
        ensures
            r == carrying_spec(self@),
    {
        match self.gesture {
            Gesture::Lifted { item, .. } => Some(self.cells_of(item).page),
            _ => None,
        }
    }

    /// Pages to show (see `Pages::count`).
    pub fn page_count(&self) -> (r: u32)
        requires
            self.wf(),
        ensures
            r == page_count_spec(self@),
    {
        proof {
            lemma_cells_of_in_limits(self@, match self.gesture {
                Gesture::Lifted { item, .. } => item,
                _ => ItemId(0),
            });
        }
        let occupied = self.occupied_pages();
        let carrying = self.carrying_page();
        self.pages.count(&occupied, carrying)
    }

    pub(crate) fn cell(&self) -> (r: (i32, i32))
        requires
            self.wf(),
        ensures
            r.0 == cell_spec(self@).0,
            r.1 == cell_spec(self@).1,
    {
        proof {
            lemma_cell_bounds(self@);
            lemma_grid_small(self@);
        }
        let cols = self.columns as i32;
        let rows = self.rows as i32;
        let a = self.output_w - GAP * (cols + 1);
        let b = self.output_h - GAP * (rows + 1);
        let cw = if a >= 0 {
            a / cols
        } else {
            -((-a) / cols)
        };
        let ch = if b >= 0 {
            b / rows
        } else {
            -((-b) / rows)
        };
        (if cw >= 1 {
            cw
        } else {
            1
        }, if ch >= 1 {
            ch
        } else {
            1
        })
    }

    pub(crate) fn rect_of(&self, cells: RectCells) -> (r: Rect)
        requires
            self.wf(),
            cell_fits(self@, cells),
        ensures
            r == rect_of_spec(self@, cells),
    {
        proof {
            lemma_rect_of_bounds(self@, cells);
            lemma_cell_bounds(self@);
        }
        let (cw, ch) = self.cell();
        let ghost h = self@;
        let col = cells.col as i64;
        let row = cells.row as i64;
        let page = cells.page as i64;
        let cs = cells.col_span as i64;
        let rs = cells.row_span as i64;
        let w = self.output_w as i64;
        let cur = self.pages.current as i64;
        proof {
            assert(-0x1_0000_0000 * 0x400_0000 <= page * w <= 0x1_0000_0000 * 0x400_0000) by (nonlinear_arith)
                requires
                    0 <= page <= 0x1_0000_0000,
                    -0x400_0000 <= w <= 0x400_0000,
            ;
            assert(-0x1_0000_0000 * 0x400_0000 <= (0 - cur) * w <= 0x1_0000_0000 * 0x400_0000) by (nonlinear_arith)
                requires
                    0 <= cur <= 0x1_0000_0000,
                    -0x400_0000 <= w <= 0x400_0000,
            ;
            assert(0 <= col * (cw + GAP) <= 0x1_0000_0000 * 0x400_0010) by (nonlinear_arith)
                requires
                    0 <= col <= 0x1_0000_0000,
                    1 <= cw <= 0x400_0000,
            ;
            assert(0 <= row * (ch + GAP) <= 0x1_0000_0000 * 0x400_0010) by (nonlinear_arith)
                requires
                    0 <= row <= 0x1_0000_0000,
                    1 <= ch <= 0x400_0000,
            ;
            assert(0 <= cs * cw <= 0x1_0000_0000 * 0x400_0000) by (nonlinear_arith)
                requires
                    0 <= cs <= 0x1_0000_0000,
                    1 <= cw <= 0x400_0000,
            ;
            assert(0 <= rs * ch <= 0x1_0000_0000 * 0x400_0000) by (nonlinear_arith)
                requires
                    0 <= rs <= 0x1_0000_0000,
                    1 <= ch <= 0x400_0000,
            ;
        }
        let shift = (0 - cur) * w + self.drag_px as i64;
        let x = GAP as i64 + col * (cw as i64 + GAP as i64) + page * w + shift;
        let y = GAP as i64 + row * (ch as i64 + GAP as i64);
        let rw = cs * cw as i64 + (cs - 1) * GAP as i64;
        let rh = rs * ch as i64 + (rs - 1) * GAP as i64;
        Rect { x: x as i32, y: y as i32, w: rw as i32, h: rh as i32 }
    }

    pub(crate) fn item_rect(&self, id: ItemId) -> (r: Rect)
        requires
            self.wf(),
        ensures
            r == rect_of_spec(self@, cells_of_spec(self@, id)),
    {
        proof {
            lemma_cells_of_in_limits(self@, id);
        }
        self.rect_of(self.cells_of(id))
    }

    fn snapshot_cells(&self, id: ItemId) -> (c: RectCells)
        ensures
            c == snapshot_cells_spec(self@, id),
    {
        match &self.drag_snapshot {
            Some(s) => match grid::snapshot_cells_of(s.as_slice(), id) {
                Some(c) => c,
                None => self.cells_of(id),
            },
            None => self.cells_of(id),
        }
    }
}


// ---------------------------------------------------------------------------
// Pages and placement.

/// The wf conditions, except that item pages may be anything (a freshly
/// loaded file, before its pages are compacted).
pub open spec fn home_wf_loose(h: HomeView) -> bool {
    &&& home_wf(HomeView { items: Seq::empty(), ..h })
    &&& ids_unique(h.items)
    &&& budget_fits(h.columns as int, h.rows as int, h.items.len() as int)
    &&& forall|k: int|
        0 <= k < h.items.len() ==> cell_fits(h, RectCells { page: 0, ..(#[trigger] h.items[k]).cells })
    &&& (page_set(occupied_spec(h.items)).len() - 1) * width_abs(h) <= PX_TERM
    &&& page_set(occupied_spec(h.items)).len() <= u32::MAX
}

/// New page of `p` after compaction: its rank among the occupied pages, or
/// itself if it is not occupied.
pub open spec fn remap(pages: Set<u32>, p: u32) -> u32 {
    if pages.contains(p) {
        rank(pages, p) as u32
    } else {
        p
    }
}

pub open spec fn remap_items(items: Seq<Item>, pages: Set<u32>) -> Seq<Item> {
    items.map_values(
        |i: Item| Item { cells: RectCells { page: remap(pages, i.cells.page), ..i.cells }, ..i },
    )
}

pub open spec fn remap_snapshot(s: Seq<(ItemId, RectCells)>, pages: Set<u32>) -> Seq<(ItemId, RectCells)> {
    s.map_values(
        |e: (ItemId, RectCells)| (e.0, RectCells { page: remap(pages, e.1.page), ..e.1 }),
    )
}

/// Squeeze out empty pages unless an item is in the air; the view stays on
/// the same page, or the last one if that page is gone.
pub open spec fn compact_spec(h: HomeView) -> HomeView {
    if carrying_spec(h) is Some {
        h
    } else {
        let set = page_set(occupied_spec(h.items));
        let h2 = HomeView {
            items: remap_items(h.items, set),
            drag_snapshot: match h.drag_snapshot {
                Some(s) => Some(remap_snapshot(s, set)),
                None => None,
            },
            ..h
        };
        let next = if set.contains(h.pages.current) {
            rank(set, h.pages.current) as u32
        } else {
            grid::sat_sub(page_count_spec(h2), 1) as u32
        };
        HomeView { pages: Pages { current: next, ..h.pages }, ..h2 }
    }
}

pub open spec fn apply_cells_spec(items: Seq<Item>, id: ItemId, cells: RectCells) -> Seq<Item> {
    match find_item(items, id, 0) {
        Some(k) => items.update(k, Item { cells, ..items[k] }),
        None => items,
    }
}

/// Apply the first `n` entries of `placed`, in order.
pub open spec fn apply_all(items: Seq<Item>, placed: Seq<(ItemId, RectCells)>, n: int) -> Seq<Item>
    decreases n,
{
    if n <= 0 {
        items
    } else {
        apply_cells_spec(apply_all(items, placed, n - 1), placed[n - 1].0, placed[n - 1].1)
    }
}

pub open spec fn restore_spec(h: HomeView) -> HomeView {
    match h.drag_snapshot {
        Some(s) => HomeView { items: apply_all(h.items, s, s.len() as int), ..h },
        None => h,
    }
}

pub open spec fn items_snapshot(items: Seq<Item>) -> Seq<(ItemId, RectCells)> {
    items.map_values(|i: Item| (i.id, i.cells))
}

pub open spec fn begin_drag_spec(h: HomeView) -> HomeView {
    HomeView { drag_snapshot: Some(items_snapshot(h.items)), ..h }
}

/// The snapshot placements start from: the drag snapshot, or the items now.
pub open spec fn place_base(h: HomeView) -> Seq<(ItemId, RectCells)> {
    match h.drag_snapshot {
        Some(s) => s,
        None => items_snapshot(h.items),
    }
}

pub open spec fn place_attempt(h: HomeView, id: ItemId, next: RectCells, d: Dir) -> Option<Seq<(ItemId, RectCells)>> {
    let base = place_base(h);
    grid::cascade(
        grid::with_hole(base, id, next),
        id,
        d,
        base,
        next.page,
        h.columns,
        h.rows,
        grid::cascade_limit(h.columns, h.rows, base.len()),
    )
}

/// Try the directions from index `i` on; the first cascade that resolves wins.
pub open spec fn try_dirs(h: HomeView, id: ItemId, next: RectCells, dirs: Seq<Dir>, i: int) -> Option<
    Seq<(ItemId, RectCells)>,
>
    decreases dirs.len() - i,
{
    if i < 0 || i >= dirs.len() {
        None
    } else {
        match place_attempt(h, id, next, dirs[i]) {
            Some(p) => Some(p),
            None => try_dirs(h, id, next, dirs, i + 1),
        }
    }
}

/// Reserve `next` for `id`, pushing everyone else out of the way.
pub open spec fn try_place_spec(h: HomeView, id: ItemId, next: RectCells, dirs: Seq<Dir>) -> (bool, HomeView) {
    if next.col + next.col_span > h.columns || next.row + next.row_span > h.rows {
        (false, h)
    } else {
        match try_dirs(h, id, next, dirs, 0) {
            Some(p) => (true, HomeView { items: apply_all(h.items, p, p.len() as int), ..h }),
            None => (false, h),
        }
    }
}

proof fn lemma_apply_cells_limits(h: HomeView, items: Seq<Item>, id: ItemId, cells: RectCells)
    requires
        forall|k: int| 0 <= k < items.len() ==> cell_fits(h, #[trigger] items[k].cells),
        cell_fits(h, cells),
    ensures
        apply_cells_spec(items, id, cells).len() == items.len(),
        forall|k: int|
            0 <= k < items.len() ==> cell_fits(h, #[trigger] apply_cells_spec(items, id, cells)[k].cells),
{
    lemma_find_item(items, id, 0);
}

proof fn lemma_apply_all_limits(h: HomeView, items: Seq<Item>, placed: Seq<(ItemId, RectCells)>, n: int)
    requires
        forall|k: int| 0 <= k < items.len() ==> cell_fits(h, #[trigger] items[k].cells),
        0 <= n <= placed.len(),
        forall|k: int| 0 <= k < placed.len() ==> cell_fits(h, #[trigger] placed[k].1),
    ensures
        apply_all(items, placed, n).len() == items.len(),
        forall|k: int|
            0 <= k < items.len() ==> cell_fits(h, #[trigger] apply_all(items, placed, n)[k].cells),
    decreases n,
{
    if n > 0 {
        lemma_apply_all_limits(h, items, placed, n - 1);
        lemma_apply_cells_limits(h, apply_all(items, placed, n - 1), placed[n - 1].0, placed[n - 1].1);
    }
}

proof fn lemma_apply_cells_keeps(items: Seq<Item>, id: ItemId, cells: RectCells)
    ensures
        apply_cells_spec(items, id, cells).len() == items.len(),
        forall|k: int|
            0 <= k < items.len() ==> (#[trigger] apply_cells_spec(items, id, cells)[k]).id
                == items[k].id && apply_cells_spec(items, id, cells)[k].kind == items[k].kind,
{
    lemma_find_item(items, id, 0);
}

pub(crate) proof fn lemma_apply_all_keeps(items: Seq<Item>, placed: Seq<(ItemId, RectCells)>, n: int)
    requires
        0 <= n <= placed.len(),
    ensures
        apply_all(items, placed, n).len() == items.len(),
        forall|k: int|
            0 <= k < items.len() ==> (#[trigger] apply_all(items, placed, n)[k]).id == items[k].id
                && apply_all(items, placed, n)[k].kind == items[k].kind,
    decreases n,
{
    if n > 0 {
        lemma_apply_all_keeps(items, placed, n - 1);
        lemma_apply_cells_keeps(apply_all(items, placed, n - 1), placed[n - 1].0, placed[n - 1].1);
    }
}

proof fn lemma_cascade_limits(
    h: HomeView,
    s: Seq<(ItemId, RectCells)>,
    mover: ItemId,
    dir: Dir,
    snapshot: Seq<(ItemId, RectCells)>,
    page: u32,
    fuel: nat,
)
    requires
        screen_fits(h),
        forall|k: int| 0 <= k < s.len() ==> cell_fits(h, #[trigger] s[k].1),
    ensures
        grid::cascade(s, mover, dir, snapshot, page, h.columns, h.rows, fuel) matches Some(p) ==> (
        p.len() == s.len() && forall|k: int| 0 <= k < p.len() ==> cell_fits(h, #[trigger] p[k].1)),
    decreases fuel,
{
    if fuel > 0 {
        grid::lemma_conflict_in(s, mover, dir, snapshot, page);
        match grid::conflict_spec(s, mover, dir, snapshot, page) {
            None => {},
            Some(i) => match grid::step_spec(dir, s[i].1, h.columns, h.rows) {
                None => {},
                Some(c) => {
                    let s2 = s.update(i, (s[i].0, c));
                    lemma_cell_bounds(h);
                    let o = s[i].1;
                    assert(cell_fits(h, c)) by {
                        lemma_grid_small(h);
                        grid::lemma_step(dir, o, h.columns, h.rows);
                        assert(cell_fits(h, o));
                        match dir {
                            Dir::Right => lemma_term(c.col + c.col_span, h.columns as int, pitch_x(h), PX_TERM as int),
                            Dir::Down => lemma_term(c.row + c.row_span, h.rows as int, pitch_y(h), PX_TERM as int),
                            Dir::Left => lemma_term(c.col + c.col_span, o.col + o.col_span, pitch_x(h), PX_TERM as int),
                            Dir::Up => lemma_term(c.row + c.row_span, o.row + o.row_span, pitch_y(h), PX_TERM as int),
                        }
                    }
                    assert forall|k: int| 0 <= k < s2.len() implies cell_fits(h, #[trigger] s2[k].1) by {
                        if k == i {
                        }
                    }
                    lemma_cascade_limits(h, s2, mover, dir, snapshot, page, (fuel - 1) as nat);
                },
            },
        }
    }
}

proof fn lemma_try_dirs_limits(h: HomeView, id: ItemId, next: RectCells, dirs: Seq<Dir>, i: int)
    requires
        home_wf(h),
        cell_fits(h, next),
    ensures
        try_dirs(h, id, next, dirs, i) matches Some(p) ==> forall|k: int|
            0 <= k < p.len() ==> cell_fits(h, #[trigger] p[k].1),
    decreases dirs.len() - i,
{
    if 0 <= i < dirs.len() {
        let base = place_base(h);
        let start = grid::with_hole(base, id, next);
        assert forall|k: int| 0 <= k < start.len() implies cell_fits(h, #[trigger] start[k].1) by {
            if base[k].0 != id {
                match h.drag_snapshot {
                    Some(s) => {},
                    None => {
                        assert(cell_fits(h, h.items[k].cells));
                    },
                }
            }
        }
        lemma_cascade_limits(
            h,
            start,
            id,
            dirs[i],
            base,
            next.page,
            grid::cascade_limit(h.columns, h.rows, base.len()),
        );
        lemma_try_dirs_limits(h, id, next, dirs, i + 1);
    }
}

impl Home {
    fn apply_cells(&mut self, id: ItemId, cells: RectCells)
        ensures
            final(self)@ == (HomeView { items: apply_cells_spec(old(self).items@, id, cells), ..old(self)@ }),
    {
        match self.find(id) {
            Some(k) => {
                self.items[k].cells = cells;
                proof {
                    assert(self.items@ =~= apply_cells_spec(old(self).items@, id, cells));
                }
            },
            None => {},
        }
    }

    fn apply_placed(&mut self, placed: &Vec<(ItemId, RectCells)>)
        ensures
            final(self)@ == (HomeView {
                items: apply_all(old(self).items@, placed@, placed@.len() as int),
                ..old(self)@
            }),
    {
        let mut i: usize = 0;
        while i < placed.len()
            invariant
                0 <= i <= placed@.len(),
                self@ == (HomeView { items: apply_all(old(self).items@, placed@, i as int), ..old(self)@ }),
            decreases placed@.len() - i,
        {
            let (id, cells) = placed[i];
            self.apply_cells(id, cells);
            i = i + 1;
        }
    }

    fn begin_drag(&mut self)
        ensures
            final(self)@ == begin_drag_spec(old(self)@),
    {
        let snap = self.snapshot_now();
        self.drag_snapshot = Some(snap);
    }

    fn snapshot_now(&self) -> (v: Vec<(ItemId, RectCells)>)
        ensures
            v@ == items_snapshot(self.items@),
    {
        let mut v: Vec<(ItemId, RectCells)> = Vec::new();
        let mut i: usize = 0;
        while i < self.items.len()
            invariant
                0 <= i <= self.items@.len(),
                v@ == items_snapshot(self.items@).take(i as int),
            decreases self.items@.len() - i,
        {
            v.push((self.items[i].id, self.items[i].cells));
            proof {
                assert(v@ =~= items_snapshot(self.items@).take(i + 1));
            }
            i = i + 1;
        }
        assert(v@ =~= items_snapshot(self.items@));
        v
    }

    fn restore_snapshot(&mut self)
        ensures
            final(self)@ == restore_spec(old(self)@),
    {
        match self.drag_snapshot.take() {
            Some(snapshot) => {
                self.apply_placed(&snapshot);
                self.drag_snapshot = Some(snapshot);
            },
            None => {},
        }
    }

    fn try_place(&mut self, id: ItemId, next: RectCells, dirs: [Dir; 4]) -> (ok: bool)
        requires
            old(self).wf(),
            grid::cells_ok(next),
            next.page * width_abs(old(self)@) <= PX_TERM,
            next.page < u32::MAX,
            1 <= next.col_span,
            1 <= next.row_span,
        ensures
            (ok, final(self)@) == try_place_spec(old(self)@, id, next, dirs@),
            final(self).wf(),
    {
        if next.col + next.col_span > self.columns || next.row + next.row_span > self.rows {
            return false;
        }
        proof {
            lemma_inside_fits(self@, next);
        }
        let owned = self.snapshot_now();
        let snapshot: &Vec<(ItemId, RectCells)> = match &self.drag_snapshot {
            Some(s) => s,
            None => &owned,
        };
        let ghost base = place_base(self@);
        assert(snapshot@ == base);
        proof {
            assert forall|k: int| 0 <= k < base.len() implies grid::cells_ok(#[trigger] base[k].1) by {
                match self.drag_snapshot {
                    Some(s) => { assert(cell_fits(self@, s@[k].1)); },
                    None => { assert(cell_fits(self@, self.items@[k].cells)); },
                }
            }
            lemma_grid_small(self@);
            lemma_try_dirs_limits(self@, id, next, dirs@, 0);
        }
        let mut i: usize = 0;
        let mut found: Option<Vec<(ItemId, RectCells)>> = None;
        while i < 4
            invariant
                0 <= i <= 4,
                snapshot@ == base,
                base == place_base(self@),
                grid::resolve_ok(base, next, self.columns, self.rows),
                found is None ==> try_dirs(self@, id, next, dirs@, 0) == try_dirs(self@, id, next, dirs@, i as int),
                found matches Some(p) ==> try_dirs(self@, id, next, dirs@, 0) == Some(p@),
            decreases 4 - i,
        {
            if found.is_none() {
                let r = push_resolve(snapshot.as_slice(), id, next, dirs[i], self.columns, self.rows);
                found = r;
            }
            i = i + 1;
        }
        match found {
            Some(placed) => {
                proof {
                    lemma_try_dirs_limits(self@, id, next, dirs@, 0);
                    assert(try_dirs(self@, id, next, dirs@, 0) == Some(placed@));
                    let pp = try_dirs(self@, id, next, dirs@, 0)->0;
                    assert(pp == placed@);
                    assert(forall|k: int| 0 <= k < pp.len() ==> cell_fits(self@, #[trigger] pp[k].1));
                    lemma_apply_all_limits(self@, self.items@, placed@, placed@.len() as int);
                    lemma_apply_all_keeps(self.items@, placed@, placed@.len() as int);
                    lemma_same_ids_unique(self.items@, apply_all(self.items@, placed@, placed@.len() as int));
                }
                self.apply_placed(&placed);
                true
            },
            None => false,
        }
    }

    /// Squeeze out empty pages unless an item is in the air.
    pub fn compact_pages(&mut self)
        requires
            home_wf_loose(old(self)@),
            carrying_spec(old(self)@) is Some ==> home_wf(old(self)@),
        ensures
            final(self)@ == compact_spec(old(self)@),
            home_wf(final(self)@),
    {
        if self.carrying_page().is_some() {
            return;
        }
        let occupied = self.occupied_pages();
        let map = Pages::compact(&occupied);
        let ghost set = page_set(occupied_spec(self.items@));
        let ghost h0 = self@;
        proof {
            vstd::seq_lib::seq_to_set_is_finite(occupied@);
            occupied@.lemma_cardinality_of_set();
        }
        assert(self.items@ =~= remap_items(h0.items, set).take(0) + h0.items.skip(0));
        let mut i: usize = 0;
        while i < self.items.len()
            invariant
                0 <= i <= self.items@.len(),
                h0.items.len() == self.items@.len(),
                set == page_set(occupied_spec(h0.items)),
                map@.dom() == set,
                forall|p: u32| #[trigger] map@.contains_key(p) ==> map@[p] == rank(set, p) as u32,
                self@ == (HomeView { items: remap_items(h0.items, set).take(i as int) + h0.items.skip(i as int), ..h0 }),
            decreases self.items@.len() - i,
        {
            let page = self.items[i].cells.page;
            match map.get(&page) {
                Some(np) => {
                    self.items[i].cells.page = *np;
                },
                None => {},
            }
            proof {
                assert(self.items@ =~= remap_items(h0.items, set).take(i + 1) + h0.items.skip(i + 1));
            }
            i = i + 1;
        }
        assert(self.items@ =~= remap_items(h0.items, set));
        let ghost h1 = self@;
        let snap = self.drag_snapshot.take();
        match snap {
            Some(mut s) => {
                let ghost s0 = s@;
                assert(s@ =~= remap_snapshot(s0, set).take(0) + s0.skip(0));
                let mut j: usize = 0;
                while j < s.len()
                    invariant
                        0 <= j <= s@.len(),
                        s0.len() == s@.len(),
                        map@.dom() == set,
                        forall|p: u32| #[trigger] map@.contains_key(p) ==> map@[p] == rank(set, p) as u32,
                        s@ == remap_snapshot(s0, set).take(j as int) + s0.skip(j as int),
                    decreases s@.len() - j,
                {
                    let (id, cells) = s[j];
                    match map.get(&cells.page) {
                        Some(np) => {
                            s.set(j, (id, RectCells { page: *np, ..cells }));
                        },
                        None => {},
                    }
                    proof {
                        assert(s@ =~= remap_snapshot(s0, set).take(j + 1) + s0.skip(j + 1));
                    }
                    j = j + 1;
                }
                assert(s@ =~= remap_snapshot(s0, set));
                self.drag_snapshot = Some(s);
            },
            None => {},
        }
        let ghost h2 = self@;
        proof {
            assert(h2.items == remap_items(h0.items, set));
            self.lemma_compacted_wf(h0, set);
        }
        let cur = self.page();
        let next = match map.get(&cur) {
            Some(np) => *np,
            None => self.page_count().saturating_sub(1),
        };
        self.set_page(next);
        proof {
            if set.contains(cur) {
                crate::pages::lemma_rank_below_len(set, cur);
                lemma_term(rank(set, cur) as int, set.len() - 1, width_abs(h2), PX_TERM as int);
            } else {
                lemma_term(next as int, page_count_spec(h2) - 1, width_abs(h2), PX_TERM as int);
            }
        }
    }

    proof fn lemma_compacted_wf(&self, h0: HomeView, set: Set<u32>)
        requires
            home_wf_loose(h0),
            carrying_spec(h0) is None,
            set == page_set(occupied_spec(h0.items)),
            self@.items == remap_items(h0.items, set),
            self@.drag_snapshot == (match h0.drag_snapshot {
                Some(s) => Some(remap_snapshot(s, set)),
                None => None::<Seq<(ItemId, RectCells)>>,
            }),
            self@ == (HomeView { items: self@.items, drag_snapshot: self@.drag_snapshot, ..h0 }),
        ensures
            home_wf(self@),
            (page_count_spec(self@) - 1) * width_abs(self@) <= PX_TERM,
            (set.len() - 1) * width_abs(self@) <= PX_TERM,
            1 <= page_count_spec(self@),
    {
        let occ = occupied_spec(h0.items);
        vstd::seq_lib::seq_to_set_is_finite(occ);
        occ.lemma_cardinality_of_set();
        let w = width_abs(h0);
        let n = set.len() as int;
        assert forall|k: int| 0 <= k < self@.items.len() implies cell_fits(self@, #[trigger] self@.items[k].cells) by {
            let p = h0.items[k].cells.page;
            assert(occ[k] == p);
            assert(set.contains(p));
            crate::pages::lemma_rank_below_len(set, p);
            assert(cell_fits(h0, RectCells { page: 0, ..h0.items[k].cells }));
            lemma_term(rank(set, p) as int, n - 1, w, PX_TERM as int);
        }
        if let Some(s) = h0.drag_snapshot {
            assert(home_wf(HomeView { items: Seq::empty(), ..h0 }));
            assert forall|k: int| 0 <= k < remap_snapshot(s, set).len() implies cell_fits(self@, #[trigger] remap_snapshot(s, set)[k].1) by {
                assert(cell_fits(h0, s[k].1));
                let p = s[k].1.page;
                if set.contains(p) {
                    crate::pages::lemma_rank_below_len(set, p);
                    lemma_term(rank(set, p) as int, n - 1, w, PX_TERM as int);
                }
            }
        }
        crate::pages::lemma_compact_idempotent(occ);
        assert forall|k: int| 0 <= k < occ.len() implies occupied_spec(self@.items)[k]
            == crate::pages::renumber(occ)[k] by {
            assert(occ.contains(occ[k]));
            assert(set.contains(occ[k]));
        }
        assert(occupied_spec(self@.items) =~= crate::pages::renumber(occ));
        crate::pages::lemma_u32_prefix(n);
        assert(page_set(occupied_spec(self@.items)).len() == n);
        assert(n <= u32::MAX);
        assert(carrying_spec(self@) is None);
        assert(page_count_spec(self@) == if n >= 1 {
            n
        } else {
            1
        });
    }
}


// ---------------------------------------------------------------------------
// Lifting, page edges and resizing.

pub open spec fn steal_touch_spec(h: HomeView) -> HomeView {
    match h.touch_grab {
        Some(id) => HomeView { touch_grab: None, touch_steal: Some(id), ..h },
        None => h,
    }
}

pub open spec fn enter_edit_spec(h: HomeView, id: ItemId) -> HomeView {
    HomeView { edit: true, selected: Some(id), ..h }
}

pub open spec fn outside_grid_spec(h: HomeView, pos: Pos) -> bool {
    pos.x < 0 || pos.y < 0 || pos.x >= 256 * h.output_w || pos.y >= 256 * h.output_h
}

/// The lifted tile: at the lift location, with the size of its snapshot cells.
pub open spec fn lift_rect_spec(h: HomeView, id: ItemId) -> Rect {
    let r = rect_of_spec(h, snapshot_cells_spec(h, id));
    Rect { x: h.lift_loc.x, y: h.lift_loc.y, w: r.w, h: r.h }
}

/// Where the lifted tile rests (before the visual nudge): its snapshot
/// position moved by the pointer's travel since `start`, in whole pixels.
pub open spec fn lift_rest_spec(h: HomeView, id: ItemId, start: Pos, pos: Pos) -> (int, int) {
    let r = rect_of_spec(h, snapshot_cells_spec(h, id));
    (r.x + fx_round(pos.x - start.x), r.y + fx_round(pos.y - start.y))
}

pub open spec fn follow_spec(h: HomeView, id: ItemId, start: Pos, pos: Pos) -> HomeView {
    let rest = lift_rest_spec(h, id, start, pos);
    HomeView { lift_loc: Point { x: rest.0 as i32, y: (rest.1 + LIFT_NUDGE_Y) as i32 }, ..h }
}

/// The cells under a lifted tile resting at `loc`: nearest grid lines,
/// keeping the tile's spans inside the grid, on the current page.
pub open spec fn hole_at_spec(h: HomeView, loc: (int, int), origin: RectCells) -> RectCells {
    let (cw, ch) = cell_spec(h);
    RectCells {
        page: h.pages.current,
        col: nearest_cell_spec(loc.0, GAP as int, cw + GAP, grid::sat_sub(h.columns as int, origin.col_span as int)) as u32,
        row: nearest_cell_spec(loc.1, GAP as int, ch + GAP, grid::sat_sub(h.rows as int, origin.row_span as int)) as u32,
        col_span: origin.col_span,
        row_span: origin.row_span,
    }
}

pub open spec fn dirs_for(from: RectCells, to: RectCells, handle: Option<Handle>) -> Seq<Dir> {
    grid::push_order(from, to, handle).take(4)
}

pub open spec fn place_lift_spec(h: HomeView, id: ItemId, start: Pos, pos: Pos) -> (ActionView, HomeView) {
    let origin = snapshot_cells_spec(h, id);
    let hole = hole_at_spec(h, lift_rest_spec(h, id, start, pos), origin);
    if cells_of_spec(h, id) == hole {
        (ActionView::Relocate, h)
    } else {
        let (ok, h2) = try_place_spec(h, id, hole, dirs_for(origin, hole, None));
        if ok {
            (ActionView::Relayout, h2)
        } else {
            (ActionView::Relayout, restore_spec(h))
        }
    }
}

/// Which screen edge the pointer rests on while carrying: left if there is
/// a page before, right if there is one after (counting the spare page).
pub open spec fn edge_dir_spec(h: HomeView, pos: Pos) -> Option<i32> {
    if h.output_w <= 0 {
        None
    } else if pos.x <= PAGE_EDGE && h.pages.current > 0 {
        Some(-1i32)
    } else if pos.x >= 256 * (h.output_w - 48) && h.pages.current < page_count_spec(h) {
        Some(1i32)
    } else {
        None
    }
}

pub open spec fn elapsed(now: u64, t0: u64) -> int {
    if now >= t0 {
        now - t0
    } else {
        0
    }
}

/// Holding at an edge for `PAGE_EDGE_HOLD` flips one page; the timer then
/// restarts. Reaching an edge arms the timer and asks for a wakeup.
pub open spec fn edge_page_spec(h: HomeView, pos: Pos, now: u64) -> (Option<u32>, HomeView) {
    match edge_dir_spec(h, pos) {
        None => (None, HomeView { page_edge: None, ..h }),
        Some(dir) => match h.page_edge {
            Some((prev, t0)) => if prev == dir && elapsed(now, t0) >= PAGE_EDGE_HOLD {
                let next = h.pages.current + dir;
                if next < 0 || next > page_count_spec(h) {
                    (None, h)
                } else {
                    (
                        Some(next as u32),
                        HomeView { page_edge: Some((dir, now)), wait: Some(PAGE_EDGE_HOLD), ..h },
                    )
                }
            } else if prev == dir {
                (None, h)
            } else {
                (None, HomeView { page_edge: Some((dir, now)), wait: Some(PAGE_EDGE_HOLD), ..h })
            },
            None => (None, HomeView { page_edge: Some((dir, now)), wait: Some(PAGE_EDGE_HOLD), ..h }),
        },
    }
}

/// Carry the lifted item to `page`: neighbours go back to the snapshot, the
/// view moves, and the drag restarts so the tile stays under the pointer.
pub open spec fn lift_to_page_spec(h: HomeView, id: ItemId, pos: Pos, page: u32) -> (ActionView, HomeView) {
    let visual = h.lift_loc;
    let h1 = restore_spec(h);
    let h2 = HomeView { pages: Pages { current: page, ..h1.pages }, ..h1 };
    let h3 = begin_drag_spec(h2);
    let origin = rect_of_spec(h3, snapshot_cells_spec(h3, id));
    let start = Pos {
        x: (pos.x - 256 * (visual.x - origin.x)) as i64,
        y: (pos.y - 256 * (visual.y - LIFT_NUDGE_Y - origin.y)) as i64,
    };
    let h4 = HomeView { gesture: Gesture::Lifted { item: id, start }, ..h3 };
    place_lift_spec(h4, id, start, pos)
}

/// Lift follows the pointer. Occupancy uses a hole snapped under the
/// un-nudged rest position; neighbours reflow from the press-down snapshot.
pub open spec fn drag_lift_spec(h: HomeView, id: ItemId, start: Pos, pos: Pos, now: u64) -> (ActionView, HomeView) {
    let h1 = follow_spec(h, id, start, pos);
    let (page, h2) = edge_page_spec(h1, pos, now);
    match page {
        Some(p) => lift_to_page_spec(h2, id, pos, p),
        None => if outside_grid_spec(h2, pos) {
            (ActionView::Relayout, restore_spec(HomeView { page_edge: None, ..h2 }))
        } else {
            place_lift_spec(h2, id, start, pos)
        },
    }
}

pub open spec fn start_lift_spec(h: HomeView, id: ItemId, start: Pos, now: u64) -> (ActionView, HomeView) {
    let h1 = enter_edit_spec(steal_touch_spec(h), id);
    let c = page_count_spec(h1);
    let h2 = HomeView {
        pages: Pages { lift_from: Some(if c >= 1 { c as u32 } else { 1u32 }), ..h1.pages },
        ..h1
    };
    let h3 = begin_drag_spec(h2);
    let h4 = HomeView { page_edge: None, gesture: Gesture::Lifted { item: id, start }, ..h3 };
    drag_lift_spec(h4, id, start, start, now)
}

pub open spec fn metrics(h: HomeView) -> GridMetrics {
    GridMetrics {
        columns: h.columns,
        rows: h.rows,
        cw: cell_spec(h).0 as i32,
        ch: cell_spec(h).1 as i32,
    }
}

pub open spec fn resize_item_spec(
    h: HomeView,
    id: ItemId,
    handle: Handle,
    origin: RectCells,
    grab: Pos,
    pos: Pos,
) -> (ActionView, HomeView) {
    let origin_rect = rect_of_spec(h, origin);
    let (cw, ch) = cell_spec(h);
    let at = Pos { x: (pos.x - grab.x) as i64, y: (pos.y - grab.y) as i64 };
    let h1 = HomeView {
        frame_preview: Some(grid::resize_preview_spec(origin_rect, handle, at, cw as i32, ch as i32)),
        ..h
    };
    if outside_grid_spec(h1, pos) {
        (ActionView::Relayout, restore_spec(h1))
    } else {
        let next = grid::resize_cells_spec(origin, origin_rect, handle, at, metrics(h));
        if cells_of_spec(h1, id) == next {
            (ActionView::Redraw, h1)
        } else {
            let (ok, h2) = try_place_spec(h1, id, next, dirs_for(origin, next, Some(handle)));
            if ok {
                (ActionView::Relayout, h2)
            } else {
                (ActionView::Relayout, restore_spec(h1))
            }
        }
    }
}


proof fn lemma_restore_wf(h: HomeView)
    requires
        home_wf(h),
    ensures
        home_wf(restore_spec(h)),
        restore_spec(h).items.len() == h.items.len(),
{
    if let Some(s) = h.drag_snapshot {
        lemma_apply_all_limits(h, h.items, s, s.len() as int);
        lemma_apply_all_keeps(h.items, s, s.len() as int);
        lemma_same_ids_unique(h.items, apply_all(h.items, s, s.len() as int));
    }
}

proof fn lemma_round_exact(k: int)
    ensures
        fx_round(256 * k) == k,
{
    if k >= 0 {
        assert((256 * k + 128) / 256 == k);
    } else {
        assert((-(256 * k) + 128) / 256 == -k);
    }
}

proof fn lemma_round_bound(v: int, b: int)
    requires
        b >= 0,
        -256 * b <= v <= 256 * b,
    ensures
        -b - 1 <= fx_round(v) <= b + 1,
{
}

/// Frames of a resize stay within the model's pixel limits.
proof fn lemma_preview_limits(o: Rect, h: Handle, at: Pos, cw: i32, ch: i32)
    requires
        -0x1000_0000 <= o.x <= 0x1000_0000,
        -0x1000_0000 <= o.y <= 0x1000_0000,
        -0x1000_0000 <= o.x + o.w <= 0x1000_0000,
        -0x1000_0000 <= o.y + o.h <= 0x1000_0000,
        0 <= o.w <= 0x1000_0000,
        0 <= o.h <= 0x1000_0000,
        pos_within(at, 0x21_0000_0000),
        1 <= cw <= PX_TERM,
        1 <= ch <= PX_TERM,
    ensures
        grid::preview_ok(o, at, cw, ch),
        rect_in_limits(grid::resize_preview_spec(o, h, at, cw, ch)),
{
}

impl Home {
    fn steal_touch(&mut self)
        ensures
            final(self)@ == steal_touch_spec(old(self)@),
    {
        if let Some(id) = self.touch_grab.take() {
            self.touch_steal = Some(id);
        }
    }

    fn enter_edit(&mut self, id: ItemId)
        ensures
            final(self)@ == enter_edit_spec(old(self)@, id),
    {
        self.edit = true;
        self.selected = Some(id);
    }

    fn outside_grid(&self, pos: Pos) -> (b: bool)
        ensures
            b == outside_grid_spec(self@, pos),
    {
        pos.x < 0 || pos.y < 0 || pos.x >= self.output_w as i64 * 256 || pos.y >= self.output_h as i64
            * 256
    }

    pub(crate) fn lift_rect(&self, id: ItemId) -> (r: Rect)
        requires
            self.wf(),
        ensures
            r == lift_rect_spec(self@, id),
    {
        proof {
            lemma_cells_of_in_limits(self@, id);
        }
        let size = self.rect_of(self.snapshot_cells(id));
        Rect { x: self.lift_loc.x, y: self.lift_loc.y, w: size.w, h: size.h }
    }

    fn lift_rest(&self, id: ItemId, start: Pos, pos: Pos) -> (r: Point)
        requires
            self.wf(),
            pos_within(start, 0x80_0000_0000),
            pos_ok(pos),
            crate::geometry::is_i32(lift_rest_spec(self@, id, start, pos).0),
            crate::geometry::is_i32(lift_rest_spec(self@, id, start, pos).1),
        ensures
            r.x == lift_rest_spec(self@, id, start, pos).0,
            r.y == lift_rest_spec(self@, id, start, pos).1,
    {
        proof {
            lemma_cells_of_in_limits(self@, id);
        }
        let origin = self.rect_of(self.snapshot_cells(id));
        let dx = round_px(pos.x - start.x);
        let dy = round_px(pos.y - start.y);
        proof {
            lemma_round_bound(pos.x - start.x, 0x81_0000_0000int / 256 + 1);
            lemma_round_bound(pos.y - start.y, 0x81_0000_0000int / 256 + 1);
        }
        Point { x: (origin.x as i64 + dx) as i32, y: (origin.y as i64 + dy) as i32 }
    }

    fn follow_lift(&mut self, id: ItemId, start: Pos, pos: Pos)
        requires
            old(self).wf(),
            pos_within(start, 0x20_0000_0000),
            pos_ok(pos),
        ensures
            final(self)@ == follow_spec(old(self)@, id, start, pos),
            final(self).wf(),
            -0x3200_0000 <= final(self).lift_loc.x <= 0x3200_0000,
            -0x3200_0000 <= final(self).lift_loc.y + 36 <= 0x3200_0000,
            -0x3200_0000 <= lift_rest_spec(final(self)@, id, start, pos).0 <= 0x3200_0000,
            -0x3200_0000 <= lift_rest_spec(final(self)@, id, start, pos).1 <= 0x3200_0000,
    {
        proof {
            lemma_cells_of_in_limits(self@, id);
            lemma_rect_of_bounds(self@, snapshot_cells_spec(self@, id));
            lemma_round_bound(pos.x - start.x, 0x21_0000_0000int / 256);
            lemma_round_bound(pos.y - start.y, 0x21_0000_0000int / 256);
        }
        let rest = self.lift_rest(id, start, pos);
        self.lift_loc = Point { x: rest.x, y: rest.y + LIFT_NUDGE_Y };
    }

    fn hole_at(&self, loc: Point, origin: RectCells) -> (c: RectCells)
        requires
            self.wf(),
            cells_in_limits(origin),
        ensures
            c == hole_at_spec(self@, (loc.x as int, loc.y as int), origin),
            grid::cells_ok(c),
            c.page * width_abs(self@) <= PX_TERM,
            c.page < u32::MAX,
            1 <= c.col_span,
            1 <= c.row_span,
    {
        proof {
            lemma_cell_bounds(self@);
            lemma_grid_small(self@);
        }
        let (cw, ch) = self.cell();
        let col = nearest_cell(loc.x, GAP, cw + GAP, self.columns.saturating_sub(origin.col_span));
        let row = nearest_cell(loc.y, GAP, ch + GAP, self.rows.saturating_sub(origin.row_span));
        RectCells {
            page: self.page(),
            col,
            row,
            col_span: origin.col_span,
            row_span: origin.row_span,
        }
    }

    fn place_lift(&mut self, id: ItemId, start: Pos, pos: Pos) -> (a: HomeAction)
        requires
            old(self).wf(),
            pos_within(start, 0x80_0000_0000),
            pos_ok(pos),
            -0x3200_0000 <= lift_rest_spec(old(self)@, id, start, pos).0 <= 0x3200_0000,
            -0x3200_0000 <= lift_rest_spec(old(self)@, id, start, pos).1 <= 0x3200_0000,
        ensures
            (a@, final(self)@) == place_lift_spec(old(self)@, id, start, pos),
            final(self).wf(),
    {
        proof {
            lemma_cells_of_in_limits(self@, id);
        }
        let origin = self.snapshot_cells(id);
        let rest = self.lift_rest(id, start, pos);
        let hole = self.hole_at(rest, origin);
        if self.cells_of(id) == hole {
            return HomeAction::Relocate;
        }
        let dirs = push_dirs(origin, hole, None);
        let ghost h0 = self@;
        if self.try_place(id, hole, dirs) {
            HomeAction::Relayout
        } else {
            proof {
                lemma_restore_wf(self@);
            }
            self.restore_snapshot();
            HomeAction::Relayout
        }
    }

    fn edge_dir(&self, pos: Pos) -> (r: Option<i32>)
        requires
            self.wf(),
        ensures
            r == edge_dir_spec(self@, pos),
    {
        if self.output_w <= 0 {
            return None;
        }
        if pos.x <= PAGE_EDGE && self.page() > 0 {
            Some(-1)
        } else if pos.x >= (self.output_w as i64 - 48) * 256 && self.page() < self.page_count() {
            Some(1)
        } else {
            None
        }
    }

    fn edge_page(&mut self, pos: Pos, now: u64) -> (r: Option<u32>)
        requires
            old(self).wf(),
            old(self).page_edge is Some ==> page_room(old(self)@),
        ensures
            (r, final(self)@) == edge_page_spec(old(self)@, pos, now),
            final(self)@ == (HomeView {
                page_edge: final(self)@.page_edge,
                wait: final(self)@.wait,
                ..old(self)@
            }),
            final(self).wf(),
            r matches Some(p) ==> p * width_abs(old(self)@) <= PX_TERM && p < u32::MAX,
    {
        let dir = match self.edge_dir(pos) {
            Some(d) => d,
            None => {
                self.page_edge = None;
                return None;
            },
        };
        match self.page_edge {
            Some((prev, t0)) => {
                let waited = now >= t0 && now - t0 >= PAGE_EDGE_HOLD;
                if prev == dir && waited {
                    let next = self.page() as i64 + dir as i64;
                    let max = self.page_count() as i64;
                    if next < 0 || next > max {
                        return None;
                    }
                    proof {
                        lemma_term(next as int, max + 1, width_abs(self@), PX_TERM as int);
                    }
                    self.page_edge = Some((dir, now));
                    self.wait = Some(PAGE_EDGE_HOLD);
                    Some(next as u32)
                } else if prev == dir {
                    None
                } else {
                    self.page_edge = Some((dir, now));
                    self.wait = Some(PAGE_EDGE_HOLD);
                    None
                }
            },
            None => {
                self.page_edge = Some((dir, now));
                self.wait = Some(PAGE_EDGE_HOLD);
                None
            },
        }
    }

    fn lift_to_page(&mut self, id: ItemId, pos: Pos, page: u32) -> (a: HomeAction)
        requires
            old(self).wf(),
            page * width_abs(old(self)@) <= PX_TERM,
            page < u32::MAX,
            pos_ok(pos),
            old(self).gesture is Lifted,
            -0x3200_0000 <= old(self).lift_loc.x <= 0x3200_0000,
            -0x3200_0000 <= old(self).lift_loc.y + 36 <= 0x3200_0000,
        ensures
            (a@, final(self)@) == lift_to_page_spec(old(self)@, id, pos, page),
            final(self).wf(),
    {
        let visual = self.lift_loc;
        proof {
            lemma_restore_wf(self@);
        }
        self.restore_snapshot();
        self.set_page(page);
        self.begin_drag();
        proof {
            lemma_cells_of_in_limits(self@, id);
            lemma_rect_of_bounds(self@, snapshot_cells_spec(self@, id));
        }
        let origin = self.rect_of(self.snapshot_cells(id));
        let rx = visual.x as i64;
        let ry = visual.y as i64 - LIFT_NUDGE_Y as i64;
        let start = Pos {
            x: pos.x - (rx - origin.x as i64) * 256,
            y: pos.y - (ry - origin.y as i64) * 256,
        };
        self.gesture = Gesture::Lifted { item: id, start };
        proof {
            lemma_round_exact(rx - origin.x);
            lemma_round_exact(ry - origin.y);
            assert(pos.x - start.x == 256 * (rx - origin.x));
            assert(pos.y - start.y == 256 * (ry - origin.y));
            assert(lift_rest_spec(self@, id, start, pos).0 == rx);
            assert(lift_rest_spec(self@, id, start, pos).1 == ry);
        }
        self.place_lift(id, start, pos)
    }

    fn drag_lift(&mut self, id: ItemId, start: Pos, pos: Pos, now: u64) -> (a: HomeAction)
        requires
            old(self).wf(),
            old(self).page_edge is Some ==> page_room(old(self)@),
            old(self).gesture == (Gesture::Lifted { item: id, start }),
            pos_within(start, 0x20_0000_0000),
            pos_ok(pos),
        ensures
            (a@, final(self)@) == drag_lift_spec(old(self)@, id, start, pos, now),
            final(self).wf(),
    {
        self.follow_lift(id, start, pos);
        match self.edge_page(pos, now) {
            Some(page) => {
                return self.lift_to_page(id, pos, page);
            },
            None => {},
        }
        if self.outside_grid(pos) {
            self.page_edge = None;
            proof {
                lemma_restore_wf(self@);
            }
            self.restore_snapshot();
            return HomeAction::Relayout;
        }
        proof {
            lemma_cells_of_in_limits(self@, id);
        }
        self.place_lift(id, start, pos)
    }

    /// Pick up `id` and start carrying it; enters edit mode.
    pub fn start_lift(&mut self, id: ItemId, start: Pos, now: u64) -> (a: HomeAction)
        requires
            old(self).wf(),
            event_ok(old(self)@),
            old(self).gesture is Idle || old(self).gesture is Pending,
            pos_ok(start),
        ensures
            (a@, final(self)@) == start_lift_spec(old(self)@, id, start, now),
            final(self).wf(),
    {
        self.steal_touch();
        self.enter_edit(id);
        let c = self.page_count();
        proof {
            self.lemma_idle_count();
            lemma_term(c as int, c + 1, width_abs(self@), PX_TERM as int);
        }
        self.pages.begin_lift(c);
        self.begin_drag();
        self.page_edge = None;
        self.gesture = Gesture::Lifted { item: id, start };
        self.drag_lift(id, start, start, now)
    }

    proof fn lemma_idle_count(&self)
        requires
            self.wf(),
            carrying_spec(self@) is None,
        ensures
            page_count_spec(self@) <= self.items@.len() + 1,
    {
        occupied_spec(self.items@).lemma_cardinality_of_set();
    }

    fn resize_item(
        &mut self,
        id: ItemId,
        handle: Handle,
        origin: RectCells,
        grab: Pos,
        pos: Pos,
    ) -> (a: HomeAction)
        requires
            old(self).wf(),
            old(self).gesture is Resizing,
            cell_fits(old(self)@, origin),
            pos_within(grab, 0x20_0000_0000),
            pos_ok(pos),
        ensures
            (a@, final(self)@) == resize_item_spec(old(self)@, id, handle, origin, grab, pos),
            final(self).wf(),
    {
        proof {
            lemma_rect_of_bounds(self@, origin);
            lemma_cell_bounds(self@);
        }
        let origin_rect = self.rect_of(origin);
        let (cw, ch) = self.cell();
        let at = Pos { x: pos.x - grab.x, y: pos.y - grab.y };
        proof {
            lemma_preview_limits(origin_rect, handle, at, cw, ch);
        }
        self.frame_preview = Some(resize_preview(origin_rect, handle, at, cw, ch));
        if self.outside_grid(pos) {
            proof {
                lemma_restore_wf(self@);
            }
            self.restore_snapshot();
            return HomeAction::Relayout;
        }
        let metrics = GridMetrics { columns: self.columns, rows: self.rows, cw, ch };
        proof {
            lemma_grid_small(self@);
        }
        let next = resize_cells(origin, origin_rect, handle, at, metrics);
        proof {
            grid::lemma_resize_cells_in_grid(origin, origin_rect, handle, at, metrics);
            grid::lemma_resize_cells_ok(origin, origin_rect, handle, at, metrics);
        }
        if self.cells_of(id) == next {
            return HomeAction::Redraw;
        }
        let dirs = push_dirs(origin, next, Some(handle));
        if self.try_place(id, next, dirs) {
            HomeAction::Relayout
        } else {
            proof {
                lemma_restore_wf(self@);
            }
            self.restore_snapshot();
            HomeAction::Relayout
        }
    }
}


// ---------------------------------------------------------------------------
// Hit testing and the gesture state machine.

/// First item from `k` on whose rectangle holds the pixel `(x, y)`.
pub open spec fn hit_from(h: HomeView, x: int, y: int, k: int) -> Option<ItemId>
    decreases h.items.len() - k,
{
    if k < 0 || k >= h.items.len() {
        None
    } else if rect_contains_px(rect_of_spec(h, cells_of_spec(h, h.items[k].id)), x, y) {
        Some(h.items[k].id)
    } else {
        hit_from(h, x, y, k + 1)
    }
}

/// The item under `pos` (truncated to whole pixels), first in stacking order.
pub open spec fn hit_item_spec(h: HomeView, pos: Pos) -> Option<ItemId> {
    hit_from(h, fx_trunc(pos.x as int), fx_trunc(pos.y as int), 0)
}

pub open spec fn chrome_tile_spec(h: HomeView, id: ItemId) -> Rect {
    if lifted_spec(h) == Some(id) {
        lift_rect_spec(h, id)
    } else if h.selected == Some(id) {
        match h.frame_preview {
            Some(r) => r,
            None => rect_of_spec(h, cells_of_spec(h, id)),
        }
    } else {
        rect_of_spec(h, cells_of_spec(h, id))
    }
}

pub open spec fn item_is_widget(h: HomeView, id: ItemId) -> bool {
    match find_item(h.items, id, 0) {
        Some(k) => h.items[k].kind is Widget,
        None => false,
    }
}

pub open spec fn hit_close_spec(h: HomeView, pos: Pos) -> Option<ItemId> {
    if !h.edit || lifted_spec(h) is Some {
        None
    } else {
        match h.selected {
            None => None,
            Some(id) => if crate::geometry::rect_contains_fx(
                chrome::close_rect_spec(chrome_tile_spec(h, id)),
                pos,
            ) {
                Some(id)
            } else {
                None
            },
        }
    }
}

pub open spec fn hit_handle_spec(h: HomeView, pos: Pos) -> Option<(ItemId, Handle)> {
    if !h.edit || lifted_spec(h) is Some {
        None
    } else {
        match h.selected {
            None => None,
            Some(id) => if !item_is_widget(h, id) {
                None
            } else {
                match chrome::hit_handle_from(chrome_tile_spec(h, id), pos, 0) {
                    Some(hd) => Some((id, hd)),
                    None => None,
                }
            },
        }
    }
}

/// Remove item `id`: its process is to be killed and its surface closed;
/// pages are compacted and the layout is saved.
pub open spec fn close_item_spec(h: HomeView, id: ItemId) -> (ActionView, HomeView) {
    let h1 = HomeView {
        gesture: Gesture::Idle,
        drag_snapshot: None,
        frame_preview: None,
        selected: None,
        ..h
    };
    match find_item(h.items, id, 0) {
        None => (ActionView::NoOp, h1),
        Some(k) => {
            let item = h.items[k];
            let kills = match item.kind {
                Kind::Widget { child: Some(pid), .. } => h.kills.push(pid),
                _ => h.kills,
            };
            let action = match item.kind {
                Kind::Widget { surface: Some(sf), .. } => ActionView::CloseSurface(sf),
                Kind::Widget { surface: None, .. } => ActionView::Relayout,
                Kind::Icon { .. } => ActionView::Redraw,
            };
            let h2 = compact_spec(HomeView { items: h.items.remove(k), kills, ..h1 });
            (action, HomeView { persist: true, ..h2 })
        },
    }
}

pub open spec fn contact_down_spec(h: HomeView, pos: Pos, touch: Option<i32>, now: u64) -> (ActionView, HomeView) {
    if !(h.gesture is Idle) {
        (ActionView::NoOp, h)
    } else {
        let h1 = HomeView { last_pos: pos, ..h };
        match hit_close_spec(h1, pos) {
            Some(id) => close_item_spec(h1, id),
            None => match hit_handle_spec(h1, pos) {
                Some((id, hd)) => {
                    let h2 = begin_drag_spec(h1);
                    let tile = chrome_tile_spec(h2, id);
                    let anchor = chrome::anchor_spec(tile, hd);
                    (
                        ActionView::Redraw,
                        HomeView {
                            frame_preview: Some(tile),
                            gesture: Gesture::Resizing {
                                item: id,
                                handle: hd,
                                origin: cells_of_spec(h2, id),
                                grab: Pos { x: (pos.x - anchor.x) as i64, y: (pos.y - anchor.y) as i64 },
                            },
                            ..h2
                        },
                    )
                },
                None => {
                    let item = hit_item_spec(h1, pos);
                    if h1.edit && item is Some {
                        start_lift_spec(h1, item->0, pos, now)
                    } else {
                        let nest = match touch {
                            Some(t) => if item is Some && item_is_widget(h1, item->0) {
                                Some(t)
                            } else {
                                None
                            },
                            None => None,
                        };
                        let h2 = HomeView {
                            touch_grab: nest,
                            gesture: Gesture::Pending { start: pos, t0: now, item },
                            wait: if item is Some {
                                Some(LONG_PRESS)
                            } else {
                                h1.wait
                            },
                            ..h1
                        };
                        match nest {
                            Some(t) => (ActionView::Touch { id: t, pos, phase: TouchPhase::Down }, h2),
                            None => (ActionView::NoOp, h2),
                        }
                    }
                },
            },
        }
    }
}

pub open spec fn pointer_move_spec(h: HomeView, pos: Pos, now: u64) -> (ActionView, HomeView) {
    let h1 = HomeView { last_pos: pos, ..h };
    match h.gesture {
        Gesture::Pending { start, .. } => {
            let dx = grid::abs(pos.x - start.x);
            let dy = grid::abs(pos.y - start.y);
            if dx > SLOP && dx > dy && !h.edit {
                let h2 = steal_touch_spec(h1);
                (
                    ActionView::Relocate,
                    HomeView {
                        gesture: Gesture::Swipe { start_x: start.x, origin_page: h.pages.current },
                        ..h2
                    },
                )
            } else {
                match h1.touch_grab {
                    Some(t) => (ActionView::Touch { id: t, pos, phase: TouchPhase::Motion }, h1),
                    None => (ActionView::NoOp, h1),
                }
            }
        },
        Gesture::Swipe { .. } => (ActionView::Relocate, h1),
        Gesture::Lifted { item, start } => drag_lift_spec(h1, item, start, pos, now),
        Gesture::Resizing { item, handle, origin, grab } => resize_item_spec(
            h1,
            item,
            handle,
            origin,
            grab,
            pos,
        ),
        Gesture::Idle => (ActionView::NoOp, h1),
    }
}

/// After a lift or resize: leave edit geometry, compact and save.
pub open spec fn finish_drag_spec(h: HomeView, restore: bool) -> HomeView {
    let h1 = if restore {
        restore_spec(h)
    } else {
        h
    };
    let h2 = HomeView {
        frame_preview: None,
        drag_snapshot: None,
        page_edge: None,
        pages: Pages { lift_from: None, ..h1.pages },
        ..h1
    };
    compact_spec(h2)
}

/// Where a released swipe lands: one page toward the next page when `fling`
/// is positive, toward the previous one when negative, the origin page when
/// zero; always within the pages there are. The drag offset becomes the
/// released offset seen from the landed page (one page width, at least one
/// pixel, per page moved), which the caller then settles back to zero.
pub open spec fn swipe_land_spec(h: HomeView, origin: u32, fling: i32) -> HomeView {
    let last = grid::sat_sub(page_count_spec(h), 1);
    let step: int = if fling > 0 {
        1
    } else if fling < 0 {
        -1
    } else {
        0
    };
    let page = grid::clamp(origin + step, 0, last);
    let drag = (page - origin) * land_width(h) + h.drag_px;
    HomeView { pages: Pages { current: page as u32, ..h.pages }, drag_px: drag as i32, ..h }
}

/// The page width a swipe moves by: the output's, at least one pixel.
pub open spec fn land_width(h: HomeView) -> int {
    if h.output_w >= 1 {
        h.output_w as int
    } else {
        1
    }
}

pub open spec fn pointer_up_spec(h: HomeView, pos: Pos, now: u64, fling: i32) -> (ActionView, HomeView) {
    let h1 = HomeView { gesture: Gesture::Idle, ..h };
    match h.gesture {
        Gesture::Pending { start, t0, item } => {
            let dx = pos.x - start.x;
            let dy = pos.y - start.y;
            let near = dx * dx + dy * dy <= SLOP * SLOP;
            if elapsed(now, t0) >= LONG_PRESS && near && item is Some {
                (ActionView::Redraw, enter_edit_spec(h1, item->0))
            } else if near {
                if h1.edit {
                    if item is None {
                        (ActionView::Redraw, HomeView { edit: false, selected: None, ..h1 })
                    } else {
                        (ActionView::Redraw, HomeView { selected: item, ..h1 })
                    }
                } else {
                    match item {
                        Some(id) => match find_item(h1.items, id, 0) {
                            Some(k) => match h1.items[k].kind {
                                Kind::Widget { .. } => match h1.touch_grab {
                                    Some(t) => (
                                        ActionView::Touch { id: t, pos, phase: TouchPhase::Up },
                                        HomeView { touch_grab: None, ..h1 },
                                    ),
                                    None => (ActionView::PointerClick { pos }, h1),
                                },
                                Kind::Icon { exec_cmd, .. } => (ActionView::Launch(exec_cmd@), h1),
                            },
                            None => (ActionView::NoOp, h1),
                        },
                        None => (ActionView::NoOp, h1),
                    }
                }
            } else {
                (ActionView::NoOp, steal_touch_spec(h1))
            }
        },
        Gesture::Swipe { origin_page, .. } => (ActionView::Relocate, swipe_land_spec(h1, origin_page, fling)),
        Gesture::Lifted { .. } | Gesture::Resizing { .. } => {
            let h2 = finish_drag_spec(h1, outside_grid_spec(h1, pos));
            (ActionView::Relayout, HomeView { persist: true, ..h2 })
        },
        Gesture::Idle => (ActionView::NoOp, h1),
    }
}

pub open spec fn tick_long_press_spec(h: HomeView, now: u64) -> (ActionView, HomeView) {
    match h.gesture {
        Gesture::Pending { start, t0, item: Some(id) } => if elapsed(now, t0) >= LONG_PRESS {
            start_lift_spec(h, id, start, now)
        } else {
            (ActionView::NoOp, h)
        },
        _ => (ActionView::NoOp, h),
    }
}

/// Timers: a press held long enough lifts its item; a carried item resting
/// at a screen edge keeps flipping pages. (Swipe settling is the caller's.)
pub open spec fn tick_spec(h: HomeView, now: u64) -> (ActionView, HomeView) {
    let (a, h1) = tick_long_press_spec(h, now);
    if !(a is NoOp) {
        (a, h1)
    } else {
        match h1.gesture {
            Gesture::Lifted { item, start } => if h1.page_edge is Some {
                drag_lift_spec(h1, item, start, h1.last_pos, now)
            } else {
                (ActionView::NoOp, h1)
            },
            _ => (ActionView::NoOp, h1),
        }
    }
}

/// Host compositor cancelled the finger (not a tap).
pub open spec fn touch_cancel_spec(h: HomeView) -> (ActionView, HomeView) {
    let h1 = steal_touch_spec(h);
    let h2 = HomeView { gesture: Gesture::Idle, ..h1 };
    match h.gesture {
        Gesture::Lifted { .. } | Gesture::Resizing { .. } => (ActionView::Relayout, finish_drag_spec(h2, true)),
        Gesture::Swipe { origin_page, .. } => (
            ActionView::Relocate,
            HomeView { pages: Pages { current: origin_page, ..h2.pages }, drag_px: 0, ..h2 },
        ),
        _ => (ActionView::NoOp, h2),
    }
}


proof fn lemma_compact_wf_after_drag(h: HomeView)
    requires
        home_wf(h),
        h.gesture is Idle,
    ensures
        home_wf_loose(h),
        carrying_spec(h) is None,
{
    lemma_fitting_pages(h);
}

/// The occupied pages of a well-formed screen are few enough, and low
/// enough, that compacting them keeps every page in range.
proof fn lemma_fitting_pages(h: HomeView)
    requires
        home_wf(h),
    ensures
        home_wf_loose(h),
{
    let occ = occupied_spec(h.items);
    let set = page_set(occ);
    lemma_budget_shrinks(h.columns as int, h.rows as int, h.items.len() as int, 0);
    assert forall|k: int| 0 <= k < h.items.len() implies cell_fits(
        h,
        RectCells { page: 0, ..(#[trigger] h.items[k]).cells },
    ) by {
        assert(cell_fits(h, h.items[k].cells));
    }
    assert forall|p: u32| #[trigger] set.contains(p) implies p < u32::MAX && p * width_abs(h) <= PX_TERM by {
        let k = choose|k: int| 0 <= k < occ.len() && occ[k] == p;
        assert(cell_fits(h, h.items[k].cells));
    }
    crate::pages::lemma_pages_len(set);
    if set.len() >= 1 {
        crate::pages::lemma_last_rank(occ);
        let p = choose|p: u32| #[trigger] set.contains(p) && set.len() - 1 <= p;
        lemma_term(set.len() - 1, p as int, width_abs(h), PX_TERM as int);
    } else {
        let n = set.len() as int;
        let w = width_abs(h);
        assert((n - 1) * w == -w) by (nonlinear_arith)
            requires
                n == 0,
        ;
    }
    let e = HomeView { items: Seq::empty(), ..h };
    assert(screen_fits(e));
    assert(budget_fits(e.columns as int, e.rows as int, 0));
    assert(e.drag_snapshot matches Some(s) ==> snapshot_fits(e, s));
    assert(gesture_ok(e, e.gesture));
    assert(home_wf(e));
    assert((page_set(occupied_spec(h.items)).len() - 1) * width_abs(h) <= PX_TERM);
    assert(page_set(occupied_spec(h.items)).len() <= u32::MAX);
    assert(budget_fits(h.columns as int, h.rows as int, h.items.len() as int));
}

impl Home {
    fn hit_item(&self, pos: Pos) -> (r: Option<ItemId>)
        requires
            self.wf(),
            pos_ok(pos),
        ensures
            r == hit_item_spec(self@, pos),
    {
        let x = trunc_px(pos.x);
        let y = trunc_px(pos.y);
        let mut k: usize = 0;
        while k < self.items.len()
            invariant
                0 <= k <= self.items@.len(),
                self.wf(),
                x == fx_trunc(pos.x as int),
                y == fx_trunc(pos.y as int),
                hit_item_spec(self@, pos) == hit_from(self@, x as int, y as int, k as int),
            decreases self.items@.len() - k,
        {
            let id = self.items[k].id;
            if contains_px(self.item_rect(id), x, y) {
                return Some(id);
            }
            k = k + 1;
        }
        None
    }

    pub(crate) fn chrome_tile(&self, id: ItemId) -> (r: Rect)
        requires
            self.wf(),
        ensures
            r == chrome_tile_spec(self@, id),
            rect_in_limits(r),
    {
        proof {
            lemma_cells_of_in_limits(self@, id);
            lemma_rect_of_bounds(self@, cells_of_spec(self@, id));
            lemma_rect_of_bounds(self@, snapshot_cells_spec(self@, id));
        }
        if self.lifted() == Some(id) {
            self.lift_rect(id)
        } else if self.selected == Some(id) {
            match self.frame_preview {
                Some(r) => r,
                None => self.item_rect(id),
            }
        } else {
            self.item_rect(id)
        }
    }

    pub(crate) fn is_widget_item(&self, id: ItemId) -> (b: bool)
        ensures
            b == item_is_widget(self@, id),
    {
        match self.find(id) {
            Some(k) => match &self.items[k].kind {
                Kind::Widget { .. } => true,
                Kind::Icon { .. } => false,
            },
            None => false,
        }
    }

    fn hit_close(&self, pos: Pos) -> (r: Option<ItemId>)
        requires
            self.wf(),
        ensures
            r == hit_close_spec(self@, pos),
    {
        if !self.edit || self.lifted().is_some() {
            return None;
        }
        let id = match self.selected {
            Some(id) => id,
            None => return None,
        };
        if chrome::hit_close(self.chrome_tile(id), pos) {
            Some(id)
        } else {
            None
        }
    }

    fn hit_handle(&self, pos: Pos) -> (r: Option<(ItemId, Handle)>)
        requires
            self.wf(),
        ensures
            r == hit_handle_spec(self@, pos),
    {
        if !self.edit || self.lifted().is_some() {
            return None;
        }
        let id = match self.selected {
            Some(id) => id,
            None => return None,
        };
        if !self.is_widget_item(id) {
            return None;
        }
        match chrome::hit_handle(self.chrome_tile(id), pos) {
            Some(h) => Some((id, h)),
            None => None,
        }
    }

    /// The last pointer position seen.
    pub fn last_pos(&self) -> (p: Pos)
        ensures
            p == self.last_pos,
    {
        self.last_pos
    }

    /// Whether the next event keeps every coordinate in range (see `event_ok`).
    pub fn within_limits(&self) -> (b: bool)
        requires
            self.wf(),
        ensures
            b == event_ok(self@),
    {
        let count = self.page_count() as i64;
        let wabs: i64 = if self.output_w < 0 {
            -(self.output_w as i64)
        } else {
            self.output_w as i64
        };
        proof {
            assert(0 <= (count + 1) * wabs <= 0x1_0000_0000 * 0x400_0000) by (nonlinear_arith)
                requires 0 <= count <= 0xffff_ffff, 0 <= wabs <= 0x400_0000;
        }
        if (count + 1) * wabs > PX_TERM || count == 0xffff_ffff {
            return false;
        }
        match self.gesture {
            Gesture::Lifted { start, .. } => -0x20_0000_0000 <= start.x && start.x <= 0x20_0000_0000
                && -0x20_0000_0000 <= start.y && start.y <= 0x20_0000_0000,
            Gesture::Swipe { origin_page, .. } => {
                let lw: i64 = if self.output_w >= 1 {
                    self.output_w as i64
                } else {
                    1
                };
                let drag: i64 = if self.drag_px < 0 {
                    -(self.drag_px as i64)
                } else {
                    self.drag_px as i64
                };
                proof {
                    assert(0 <= (count + origin_page) * lw <= 0x2_0000_0000 * 0x400_0000) by (nonlinear_arith)
                        requires 0 <= count <= 0xffff_ffff, 0 <= origin_page <= 0xffff_ffff, 1 <= lw <= 0x400_0000;
                }
                (count + origin_page as i64) * lw + drag <= PX_TERM
            },
            _ => true,
        }
    }

    fn close_item(&mut self, id: ItemId) -> (a: HomeAction)
        requires
            old(self).wf(),
        ensures
            (a@, final(self)@) == close_item_spec(old(self)@, id),
            final(self).wf(),
    {
        self.gesture = Gesture::Idle;
        self.drag_snapshot = None;
        self.frame_preview = None;
        self.selected = None;
        let idx = match self.find(id) {
            Some(k) => k,
            None => return HomeAction::NoOp,
        };
        let ghost before = self@;
        let item = self.items.remove(idx);
        let action = match item.kind {
            Kind::Widget { child, surface, .. } => {
                if let Some(pid) = child {
                    self.kills.push(pid);
                }
                match surface {
                    Some(s) => HomeAction::CloseSurface(s),
                    None => HomeAction::Relayout,
                }
            },
            Kind::Icon { .. } => HomeAction::Redraw,
        };
        proof {
            assert forall|k: int| 0 <= k < self.items@.len() implies cell_fits(
                self@,
                #[trigger] self.items@[k].cells,
            ) by {
                if k < idx {
                    assert(self.items@[k] == before.items[k]);
                } else {
                    assert(self.items@[k] == before.items[k + 1]);
                }
            }
            lemma_budget_shrinks(
                self.columns as int,
                self.rows as int,
                before.items.len() as int,
                self@.items.len() as int,
            );
            lemma_fitting_pages(self@);
        }
        self.compact_pages();
        self.persist = true;
        action
    }

    #[verifier::rlimit(50)]
    fn contact_down(&mut self, pos: Pos, touch_id: Option<i32>, now: u64) -> (a: HomeAction)
        requires
            old(self).wf(),
            event_ok(old(self)@),
            pos_ok(pos),
        ensures
            (a@, final(self)@) == contact_down_spec(old(self)@, pos, touch_id, now),
            final(self).wf(),
    {
        if !matches!(self.gesture, Gesture::Idle) {
            return HomeAction::NoOp;
        }
        self.last_pos = pos;
        if let Some(id) = self.hit_close(pos) {
            return self.close_item(id);
        }
        if let Some((id, handle)) = self.hit_handle(pos) {
            self.begin_drag();
            proof {
                lemma_cells_of_in_limits(self@, id);
                lemma_rect_of_bounds(self@, cells_of_spec(self@, id));
            }
            let tile = self.chrome_tile(id);
            self.frame_preview = Some(tile);
            let anchor = chrome::handle_anchor(tile, handle);
            let origin = self.cells_of(id);
            self.gesture = Gesture::Resizing {
                item: id,
                handle,
                origin,
                grab: Pos { x: pos.x - anchor.x, y: pos.y - anchor.y },
            };
            return HomeAction::Redraw;
        }
        let item = self.hit_item(pos);
        if self.edit && item.is_some() {
            return self.start_lift(item.unwrap(), pos, now);
        }
        let nest_touch = match touch_id {
            Some(t) => if item.is_some() && self.is_widget_item(item.unwrap()) {
                Some(t)
            } else {
                None
            },
            None => None,
        };
        self.touch_grab = nest_touch;
        self.gesture = Gesture::Pending { start: pos, t0: now, item };
        if item.is_some() {
            self.wait = Some(LONG_PRESS);
        }
        match nest_touch {
            Some(t) => HomeAction::Touch { id: t, pos, phase: TouchPhase::Down },
            None => HomeAction::NoOp,
        }
    }

    /// Pointer press at `pos` (see `contact_down_spec`).
    pub fn pointer_down(&mut self, pos: Pos, now: u64) -> (a: HomeAction)
        requires
            old(self).wf(),
            event_ok(old(self)@),
            pos_ok(pos),
        ensures
            (a@, final(self)@) == contact_down_spec(old(self)@, pos, None, now),
            final(self).wf(),
    {
        self.contact_down(pos, None, now)
    }

    /// Finger `id` down at `pos`; a press on a widget streams to the nest.
    pub fn touch_down(&mut self, pos: Pos, id: i32, now: u64) -> (a: HomeAction)
        requires
            old(self).wf(),
            event_ok(old(self)@),
            pos_ok(pos),
        ensures
            (a@, final(self)@) == contact_down_spec(old(self)@, pos, Some(id), now),
            final(self).wf(),
    {
        self.contact_down(pos, Some(id), now)
    }

    pub fn pointer_move(&mut self, pos: Pos, now: u64) -> (a: HomeAction)
        requires
            old(self).wf(),
            event_ok(old(self)@),
            pos_ok(pos),
        ensures
            (a@, final(self)@) == pointer_move_spec(old(self)@, pos, now),
            final(self).wf(),
    {
        self.last_pos = pos;
        match self.gesture {
            Gesture::Pending { start, .. } => {
                let dx = pos.x - start.x;
                let dy = pos.y - start.y;
                let adx = if dx < 0 {
                    -dx
                } else {
                    dx
                };
                let ady = if dy < 0 {
                    -dy
                } else {
                    dy
                };
                if adx > SLOP && adx > ady && !self.edit {
                    let origin_page = self.page();
                    self.steal_touch();
                    self.gesture = Gesture::Swipe { start_x: start.x, origin_page };
                    return HomeAction::Relocate;
                }
                match self.touch_grab {
                    Some(t) => HomeAction::Touch { id: t, pos, phase: TouchPhase::Motion },
                    None => HomeAction::NoOp,
                }
            },
            Gesture::Swipe { .. } => HomeAction::Relocate,
            Gesture::Lifted { item, start } => self.drag_lift(item, start, pos, now),
            Gesture::Resizing { item, handle, origin, grab } => self.resize_item(
                item,
                handle,
                origin,
                grab,
                pos,
            ),
            Gesture::Idle => HomeAction::NoOp,
        }
    }

    fn finish_drag(&mut self, restore: bool)
        requires
            home_wf(HomeView { frame_preview: None, ..old(self)@ }),
            old(self).gesture is Idle,
        ensures
            final(self)@ == finish_drag_spec(old(self)@, restore),
            final(self).wf(),
    {
        self.frame_preview = None;
        if restore {
            proof {
                lemma_restore_wf(self@);
            }
            self.restore_snapshot();
        }
        self.drag_snapshot = None;
        self.page_edge = None;
        self.pages.end_lift();
        proof {
            lemma_compact_wf_after_drag(self@);
        }
        self.compact_pages();
    }

    /// Release at `pos`. For a swipe, `fling` is the way the caller's commit
    /// rule (pixel offset and velocity) turned the page: positive for the
    /// next page, negative for the previous one, zero to stay.
    pub fn pointer_up(&mut self, pos: Pos, now: u64, fling: i32) -> (a: HomeAction)
        requires
            old(self).wf(),
            event_ok(old(self)@),
            pos_ok(pos),
        ensures
            (a@, final(self)@) == pointer_up_spec(old(self)@, pos, now, fling),
            final(self).wf(),
    {
        let g = self.gesture;
        self.gesture = Gesture::Idle;
        match g {
            Gesture::Pending { start, t0, item } => {
                let dx = pos.x - start.x;
                let dy = pos.y - start.y;
                proof {
                    assert(0 <= dx * dx <= 0x10_0000_0000_0000_0000) by (nonlinear_arith)
                        requires -0x1_0000_0000 <= dx <= 0x1_0000_0000;
                    assert(0 <= dy * dy <= 0x10_0000_0000_0000_0000) by (nonlinear_arith)
                        requires -0x1_0000_0000 <= dy <= 0x1_0000_0000;
                }
                let near = (dx as i128) * (dx as i128) + (dy as i128) * (dy as i128) <= (SLOP as i128)
                    * (SLOP as i128);
                let waited = now >= t0 && now - t0 >= LONG_PRESS;
                if waited && near && item.is_some() {
                    self.enter_edit(item.unwrap());
                    return HomeAction::Redraw;
                }
                if near {
                    if self.edit {
                        if item.is_none() {
                            self.edit = false;
                            self.selected = None;
                            return HomeAction::Redraw;
                        }
                        self.selected = item;
                        return HomeAction::Redraw;
                    }
                    let id = match item {
                        Some(id) => id,
                        None => return HomeAction::NoOp,
                    };
                    let k = match self.find(id) {
                        Some(k) => k,
                        None => return HomeAction::NoOp,
                    };
                    return match &self.items[k].kind {
                        Kind::Widget { .. } => match self.touch_grab.take() {
                            Some(t) => HomeAction::Touch { id: t, pos, phase: TouchPhase::Up },
                            None => HomeAction::PointerClick { pos },
                        },
                        Kind::Icon { exec_cmd, .. } => HomeAction::Launch(exec_cmd.clone()),
                    };
                }
                self.steal_touch();
                HomeAction::NoOp
            },
            Gesture::Swipe { origin_page, .. } => {
                proof {
                    self.lemma_idle_count();
                }
                let count = self.page_count();
                let last: i64 = if count >= 1 {
                    count as i64 - 1
                } else {
                    0
                };
                let origin = origin_page as i64;
                let target: i64 = if fling > 0 {
                    origin + 1
                } else if fling < 0 {
                    origin - 1
                } else {
                    origin
                };
                let page: i64 = if target < 0 {
                    0
                } else if target > last {
                    last
                } else {
                    target
                };
                let width: i64 = if self.output_w >= 1 {
                    self.output_w as i64
                } else {
                    1
                };
                let moved = page - origin;
                proof {
                    let c = count as int;
                    let o = origin as int;
                    assert(-(c + o) <= moved <= c + o);
                    assert(-((c + o) * width) <= moved * width <= (c + o) * width) by (nonlinear_arith)
                        requires
                            -(c + o) <= moved <= c + o,
                            1 <= width;
                    assert((c + o) * width + grid::abs(old(self).drag_px as int) <= PX_TERM);
                    lemma_term(page as int, c + 1, width_abs(old(self)@), PX_TERM as int);
                }
                let drag = moved * width + self.drag_px as i64;
                self.set_page(page as u32);
                self.drag_px = drag as i32;
                HomeAction::Relocate
            },
            Gesture::Lifted { .. } | Gesture::Resizing { .. } => {
                let outside = self.outside_grid(pos);
                self.finish_drag(outside);
                self.persist = true;
                HomeAction::Relayout
            },
            Gesture::Idle => HomeAction::NoOp,
        }
    }

    fn tick_long_press(&mut self, now: u64) -> (a: HomeAction)
        requires
            old(self).wf(),
            event_ok(old(self)@),
        ensures
            (a@, final(self)@) == tick_long_press_spec(old(self)@, now),
            final(self).wf(),
    {
        match self.gesture {
            Gesture::Pending { start, t0, item: Some(id) } => {
                if now >= t0 && now - t0 >= LONG_PRESS {
                    self.start_lift(id, start, now)
                } else {
                    HomeAction::NoOp
                }
            },
            _ => HomeAction::NoOp,
        }
    }

    /// Timers (see `tick_spec`). The caller settles a finished swipe when
    /// this returns `NoOp`.
    pub fn tick(&mut self, now: u64) -> (a: HomeAction)
        requires
            old(self).wf(),
            event_ok(old(self)@),
        ensures
            (a@, final(self)@) == tick_spec(old(self)@, now),
            final(self).wf(),
    {
        let lift = self.tick_long_press(now);
        if !matches!(lift, HomeAction::NoOp) {
            return lift;
        }
        match self.gesture {
            Gesture::Lifted { item, start } => {
                if self.page_edge.is_some() {
                    let last = self.last_pos;
                    self.drag_lift(item, start, last, now)
                } else {
                    HomeAction::NoOp
                }
            },
            _ => HomeAction::NoOp,
        }
    }

    /// The wakeup the model asked for, once.
    pub fn take_wait(&mut self) -> (r: Option<u64>)
        ensures
            r == old(self).wait,
            final(self)@ == (HomeView { wait: None, ..old(self)@ }),
    {
        self.wait.take()
    }

    /// The nest touch to cancel, once.
    pub fn take_touch_steal(&mut self) -> (r: Option<i32>)
        ensures
            r == old(self).touch_steal,
            final(self)@ == (HomeView { touch_steal: None, ..old(self)@ }),
    {
        self.touch_steal.take()
    }

    pub fn touch_cancel(&mut self) -> (a: HomeAction)
        requires
            old(self).wf(),
        ensures
            (a@, final(self)@) == touch_cancel_spec(old(self)@),
            final(self).wf(),
    {
        self.steal_touch();
        let g = self.gesture;
        self.gesture = Gesture::Idle;
        match g {
            Gesture::Lifted { .. } | Gesture::Resizing { .. } => {
                self.finish_drag(true);
                HomeAction::Relayout
            },
            Gesture::Swipe { origin_page, .. } => {
                self.set_page(origin_page);
                self.drag_px = 0;
                HomeAction::Relocate
            },
            _ => HomeAction::NoOp,
        }
    }
}

// ---------------------------------------------------------------------------
// Laws of the gestures.

/// A swipe is the homescreen's alone: the move that starts it cancels the
/// finger streamed into the nest, and no later move or release of the swipe
/// reaches a widget.
pub proof fn lemma_swipe_hidden_from_widgets(h: HomeView, pos: Pos, now: u64, fling: i32)
    ensures
        h.gesture is Swipe ==> pointer_move_spec(h, pos, now).0 == ActionView::Relocate
            && pointer_up_spec(h, pos, now, fling).0 == ActionView::Relocate,
        match h.gesture {
            Gesture::Pending { start, .. } => (!h.edit && grid::abs(pos.x - start.x) > SLOP
                && grid::abs(pos.x - start.x) > grid::abs(pos.y - start.y)) ==> ({
                let (a, h2) = pointer_move_spec(h, pos, now);
                &&& a == ActionView::Relocate
                &&& h2.gesture is Swipe
                &&& h2.touch_grab is None
                &&& (h.touch_grab is Some ==> h2.touch_steal == h.touch_grab)
            }),
            _ => true,
        },
{
}

/// A released swipe lands on the next page when the caller's rule says
/// forward, on the previous page when it says back, and stays otherwise;
/// never more than one page from where it began, never past the first or
/// the last page, and always as a page move that widgets do not see. The
/// page strip does not jump on release: the landed page plus the new drag
/// offset show what the origin page and the released offset showed.
pub proof fn lemma_swipe_lands_one_page(h: HomeView, pos: Pos, now: u64, fling: i32)
    requires
        h.gesture is Swipe,
        h.gesture->origin_page < page_count_spec(h),
    ensures
        ({
            let o = h.gesture->origin_page as int;
            let count = page_count_spec(h);
            let (a, h2) = pointer_up_spec(h, pos, now, fling);
            &&& a == ActionView::Relocate
            &&& h2.gesture is Idle
            &&& page_count_spec(h2) == count
            &&& 0 <= h2.pages.current < count
            &&& grid::abs(h2.pages.current - o) <= 1
            &&& (fling > 0 && o + 1 < count ==> h2.pages.current == o + 1)
            &&& (fling < 0 && o > 0 ==> h2.pages.current == o - 1)
            &&& (fling == 0 ==> h2.pages.current == o)
            &&& h2.items == h.items
            &&& (h.pages.current == o && h.output_w >= 1 && h.output_w + grid::abs(h.drag_px as int)
                <= i32::MAX ==> shift_x_spec(h2) == shift_x_spec(h))
        }),
{
    let o = h.gesture->origin_page as int;
    let (a, h2) = pointer_up_spec(h, pos, now, fling);
    let p = h2.pages.current as int;
    let w = h.output_w as int;
    assert((0 - p) * w + ((p - o) * w + h.drag_px) == (0 - o) * w + h.drag_px) by (nonlinear_arith);
    if w >= 1 {
        assert(-w <= (p - o) * w <= w) by (nonlinear_arith)
            requires
                -1 <= p - o <= 1,
                w >= 1;
    }
}

/// A tap (a release near the press, before the long-press time, outside
/// edit mode) on an icon launches the icon's command; on a widget it clicks
/// the widget, or ends the finger streamed into it. Either way the gesture
/// ends and nothing is lifted or saved.
pub proof fn lemma_tap(h: HomeView, pos: Pos, now: u64)
    requires
        h.gesture matches Gesture::Pending { start, t0, item: Some(id) } && !h.edit && elapsed(now, t0)
            < LONG_PRESS && (pos.x - start.x) * (pos.x - start.x) + (pos.y - start.y) * (pos.y
            - start.y) <= SLOP * SLOP && find_item(h.items, id, 0) is Some,
    ensures
        ({
            let id = match h.gesture {
                Gesture::Pending { item: Some(i), .. } => i,
                _ => ItemId(0),
            };
            let k = find_item(h.items, id, 0)->0;
            let (a, h2) = pointer_up_spec(h, pos, now, 0);
            &&& h2.gesture is Idle
            &&& h2.items == h.items
            &&& h2.persist == h.persist
            &&& match h.items[k].kind {
                Kind::Icon { exec_cmd, .. } => a == ActionView::Launch(exec_cmd@),
                Kind::Widget { .. } => match h.touch_grab {
                    Some(t) => a == (ActionView::Touch { id: t, pos, phase: TouchPhase::Up }),
                    None => a == (ActionView::PointerClick { pos }),
                },
            }
        }),
{
}

/// Releasing a lifted or resized item ends the drag where it is (back on
/// its cells of the press when released off the screen), compacts the
/// pages and marks the layout for saving.
pub proof fn lemma_release_ends_drag(h: HomeView, pos: Pos, now: u64, fling: i32)
    requires
        h.gesture is Lifted || h.gesture is Resizing,
    ensures
        ({
            let (a, h2) = pointer_up_spec(h, pos, now, fling);
            &&& a == ActionView::Relayout
            &&& h2.gesture is Idle
            &&& h2.drag_snapshot is None
            &&& h2.pages.lift_from is None
            &&& h2.frame_preview is None
            &&& h2.persist
        }),
{
}

/// In edit mode a tap (a release near the press) on empty space leaves
/// edit mode and clears the selection; a tap on an item selects it and
/// stays in edit mode. Neither launches, clicks or moves anything.
pub proof fn lemma_edit_tap(h: HomeView, pos: Pos, now: u64, fling: i32)
    requires
        h.edit,
        match h.gesture {
            Gesture::Pending { start, .. } => (pos.x - start.x) * (pos.x - start.x) + (pos.y
                - start.y) * (pos.y - start.y) <= SLOP * SLOP,
            _ => false,
        },
    ensures
        ({
            let item = match h.gesture {
                Gesture::Pending { item, .. } => item,
                _ => None,
            };
            let (a, h2) = pointer_up_spec(h, pos, now, fling);
            &&& a == ActionView::Redraw
            &&& h2.gesture is Idle
            &&& h2.items == h.items
            &&& (item is None ==> !h2.edit && h2.selected is None)
            &&& (item is Some ==> h2.edit && h2.selected == item)
        }),
{
}

/// Compaction keeps the view where it was: when the page on screen was
/// occupied, the view moves with it to its new number, so the items that
/// were on screen still are; and the view always ends on a page that
/// exists.
pub proof fn lemma_compact_follows_view(h: HomeView)
    requires
        home_wf_loose(h),
        carrying_spec(h) is None,
    ensures
        ({
            let c = compact_spec(h);
            let set = page_set(occupied_spec(h.items));
            &&& set.contains(h.pages.current) ==> c.pages.current == rank(set, h.pages.current)
            &&& set.contains(h.pages.current) ==> forall|k: int|
                0 <= k < h.items.len() && h.items[k].cells.page == h.pages.current
                    ==> #[trigger] c.items[k].cells.page == c.pages.current
            &&& c.pages.current < page_count_spec(c)
        }),
{
    let occ = occupied_spec(h.items);
    let set = page_set(occ);
    let c = compact_spec(h);
    let n = set.len() as int;
    vstd::seq_lib::seq_to_set_is_finite(occ);
    crate::pages::lemma_compact_idempotent(occ);
    assert forall|k: int| 0 <= k < occ.len() implies occupied_spec(c.items)[k]
        == crate::pages::renumber(occ)[k] by {
        assert(occ.contains(occ[k]));
    }
    assert(occupied_spec(c.items) =~= crate::pages::renumber(occ));
    crate::pages::lemma_u32_prefix(n);
    assert(page_set(occupied_spec(c.items)).len() == n);
    assert(carrying_spec(c) is None);
    assert(page_count_spec(c) == if n >= 1 {
        n
    } else {
        1
    });
    if set.contains(h.pages.current) {
        crate::pages::lemma_rank_below_len(set, h.pages.current);
        assert forall|k: int|
            0 <= k < h.items.len() && h.items[k].cells.page == h.pages.current implies #[trigger] c.items[k].cells.page
                == c.pages.current by {
            assert(occ[k] == h.items[k].cells.page);
        }
    }
}

/// A press held on an item for `LONG_PRESS` enters edit mode with that item
/// selected and lifted.
pub proof fn lemma_long_press_lifts(h: HomeView, now: u64)
    ensures
        match h.gesture {
            Gesture::Pending { t0, item: Some(id), .. } => elapsed(now, t0) >= LONG_PRESS ==> ({
                let (a, h2) = tick_spec(h, now);
                &&& h2.edit
                &&& h2.selected == Some(id)
                &&& lifted_spec(h2) == Some(id)
            }),
            _ => true,
        },
{
}

/// Some item is on page `p`.
pub open spec fn page_used(items: Seq<Item>, p: int) -> bool {
    exists|k: int| 0 <= k < items.len() && #[trigger] items[k].cells.page == p
}

/// After compaction (with nothing carried) the items' pages are exactly
/// 0, 1, …, n − 1 for the n pages that were occupied, in their old order.
pub proof fn lemma_compacted_pages_dense(h: HomeView)
    requires
        home_wf_loose(h),
        carrying_spec(h) is None,
    ensures
        ({
            let c = compact_spec(h);
            let n = page_set(occupied_spec(h.items)).len();
            &&& c.items.len() == h.items.len()
            &&& forall|k: int| 0 <= k < c.items.len() ==> #[trigger] c.items[k].cells.page < n
            &&& forall|p: int| 0 <= p < n ==> #[trigger] page_used(c.items, p)
            &&& forall|j: int, k: int|
                0 <= j < h.items.len() && 0 <= k < h.items.len() && h.items[j].cells.page
                    < h.items[k].cells.page ==> #[trigger] c.items[j].cells.page
                    < #[trigger] c.items[k].cells.page
        }),
{
    let c = compact_spec(h);
    let occ = occupied_spec(h.items);
    let set = page_set(occ);
    let n = set.len();
    vstd::seq_lib::seq_to_set_is_finite(occ);
    occ.lemma_cardinality_of_set();
    assert forall|k: int| 0 <= k < c.items.len() implies #[trigger] c.items[k].cells.page < n by {
        let p = h.items[k].cells.page;
        assert(occ[k] == p);
        assert(set.contains(p));
        crate::pages::lemma_rank_below_len(set, p);
    }
    assert forall|p: int| 0 <= p < n implies #[trigger] page_used(c.items, p) by {
        crate::pages::lemma_compact_onto(occ, p);
        let q = choose|q: u32| #[trigger] set.contains(q) && crate::pages::rank(set, q) == p;
        let k = choose|k: int| 0 <= k < occ.len() && occ[k] == q;
        crate::pages::lemma_rank_below_len(set, q);
        assert(c.items[k].cells.page == p);
    }
    assert forall|j: int, k: int|
        0 <= j < h.items.len() && 0 <= k < h.items.len() && h.items[j].cells.page
            < h.items[k].cells.page implies #[trigger] c.items[j].cells.page
            < #[trigger] c.items[k].cells.page by {
        let pj = h.items[j].cells.page;
        let pk = h.items[k].cells.page;
        assert(occ[j] == pj && occ[k] == pk);
        assert(set.contains(pj) && set.contains(pk));
        crate::pages::lemma_rank_strictly_monotone(set, pj, pk);
        crate::pages::lemma_rank_below_len(set, pk);
    }
}

} // verus!
