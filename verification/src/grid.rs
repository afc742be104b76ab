//! Cell geometry and reflow. No Wayland.

use vstd::prelude::*;

use crate::chrome::{Handle, is_east, is_north, is_south, is_west};
use crate::geometry::{Pos, Rect, fx_trunc, is_i32, trunc_px};
use crate::home::ItemId;

verus! {

/// Spacing between cells and around the grid, in logical pixels.
pub const GAP: i32 = 16;

/// A rectangle of grid cells on one page.
#[derive(Clone, Copy, Debug, PartialEq, Eq, Structural)]
pub struct RectCells {
    pub page: u32,
    pub col: u32,
    pub row: u32,
    pub col_span: u32,
    pub row_span: u32,
}

/// Far edges stay within `i32`, so they can be compared as signed offsets.
pub open spec fn cells_ok(c: RectCells) -> bool {
    &&& c.col + c.col_span <= i32::MAX
    &&& c.row + c.row_span <= i32::MAX
}

pub open spec fn overlaps_spec(a: RectCells, b: RectCells) -> bool {
    &&& a.page == b.page
    &&& a.col < b.col + b.col_span
    &&& b.col < a.col + a.col_span
    &&& a.row < b.row + b.row_span
    &&& b.row < a.row + a.row_span
}

/// Whether two cell rectangles share a cell.
pub fn overlaps(a: RectCells, b: RectCells) -> (r: bool)
    requires
        a.col + a.col_span <= u32::MAX,
        a.row + a.row_span <= u32::MAX,
        b.col + b.col_span <= u32::MAX,
        b.row + b.row_span <= u32::MAX,
    ensures
        r == overlaps_spec(a, b),
{
    a.page == b.page && a.col < b.col + b.col_span && b.col < a.col + a.col_span && a.row < b.row
        + b.row_span && b.row < a.row + a.row_span
}

/// Overlap is symmetric.
pub proof fn lemma_overlaps_symmetric(a: RectCells, b: RectCells)
    ensures
        overlaps_spec(a, b) == overlaps_spec(b, a),
{
}

#[derive(Clone, Copy, Debug, PartialEq, Eq, Structural)]
pub enum Dir {
    Left,
    Right,
    Up,
    Down,
}

/// One cell step in `d`, or `None` at the edge of a `columns × rows` grid.
pub open spec fn step_spec(d: Dir, c: RectCells, columns: u32, rows: u32) -> Option<RectCells> {
    match d {
        Dir::Left => if c.col == 0 {
            None
        } else {
            Some(RectCells { col: (c.col - 1) as u32, ..c })
        },
        Dir::Right => if c.col + c.col_span >= columns {
            None
        } else {
            Some(RectCells { col: (c.col + 1) as u32, ..c })
        },
        Dir::Up => if c.row == 0 {
            None
        } else {
            Some(RectCells { row: (c.row - 1) as u32, ..c })
        },
        Dir::Down => if c.row + c.row_span >= rows {
            None
        } else {
            Some(RectCells { row: (c.row + 1) as u32, ..c })
        },
    }
}

/// The leading edge of `c` when moving in `d`; larger means further along `d`.
pub open spec fn coord_spec(d: Dir, c: RectCells) -> int {
    match d {
        Dir::Left => -(c.col as int),
        Dir::Right => c.col + c.col_span,
        Dir::Up => -(c.row as int),
        Dir::Down => c.row + c.row_span,
    }
}

/// The edge of a `columns × rows` grid that a rectangle touches on the side `d`.
pub open spec fn at_edge(d: Dir, c: RectCells, columns: u32, rows: u32) -> bool {
    match d {
        Dir::Left => c.col == 0,
        Dir::Right => c.col + c.col_span >= columns,
        Dir::Up => c.row == 0,
        Dir::Down => c.row + c.row_span >= rows,
    }
}

/// One cell step is refused exactly at the grid's edge on that side.
/// Otherwise it moves the rectangle one cell along `d` (only the column
/// for left and right, only the row for up and down), keeps its page and
/// spans, and brings its leading edge one cell further along `d`.
pub proof fn lemma_step(d: Dir, c: RectCells, columns: u32, rows: u32)
    ensures
        step_spec(d, c, columns, rows) is None <==> at_edge(d, c, columns, rows),
        step_spec(d, c, columns, rows) matches Some(n) ==> {
            &&& n.page == c.page
            &&& n.col_span == c.col_span
            &&& n.row_span == c.row_span
            &&& match d {
                Dir::Left => n.col == c.col - 1 && n.row == c.row,
                Dir::Right => n.col == c.col + 1 && n.row == c.row,
                Dir::Up => n.row == c.row - 1 && n.col == c.col,
                Dir::Down => n.row == c.row + 1 && n.col == c.col,
            }
            &&& coord_spec(d, n) == coord_spec(d, c) + 1
        },
{
}

impl Dir {
    /// Move `cells` one cell along `self` within a `columns × rows` grid;
    /// `false`, with `cells` unchanged, at the edge.
    pub fn step(self, cells: &mut RectCells, columns: u32, rows: u32) -> (moved: bool)
        requires
            old(cells).col + old(cells).col_span <= u32::MAX,
            old(cells).row + old(cells).row_span <= u32::MAX,
        ensures
            moved == !at_edge(self, *old(cells), columns, rows),
            moved == step_spec(self, *old(cells), columns, rows) is Some,
            moved ==> *final(cells) == step_spec(self, *old(cells), columns, rows)->0,
            !moved ==> *final(cells) == *old(cells),
    {
        match self {
            Dir::Left => {
                if cells.col == 0 {
                    return false;
                }
                cells.col = cells.col - 1;
                true
            },
            Dir::Right => {
                if cells.col + cells.col_span >= columns {
                    return false;
                }
                cells.col = cells.col + 1;
                true
            },
            Dir::Up => {
                if cells.row == 0 {
                    return false;
                }
                cells.row = cells.row - 1;
                true
            },
            Dir::Down => {
                if cells.row + cells.row_span >= rows {
                    return false;
                }
                cells.row = cells.row + 1;
                true
            },
        }
    }

    fn coord(self, cells: RectCells) -> (r: i32)
        requires
            cells_ok(cells),
        ensures
            r == coord_spec(self, cells),
    {
        match self {
            Dir::Left => -(cells.col as i32),
            Dir::Right => (cells.col + cells.col_span) as i32,
            Dir::Up => -(cells.row as i32),
            Dir::Down => (cells.row + cells.row_span) as i32,
        }
    }
}

/// Directions the handle points to: south, east, north, west.
pub open spec fn handle_dirs(h: Option<Handle>) -> Seq<Dir> {
    match h {
        None => Seq::empty(),
        Some(h) => (if is_south(h) {
            seq![Dir::Down]
        } else {
            Seq::empty()
        }) + (if is_east(h) {
            seq![Dir::Right]
        } else {
            Seq::empty()
        }) + (if is_north(h) {
            seq![Dir::Up]
        } else {
            Seq::empty()
        }) + (if is_west(h) {
            seq![Dir::Left]
        } else {
            Seq::empty()
        }),
    }
}

pub open spec fn abs(v: int) -> int {
    if v < 0 {
        -v
    } else {
        v
    }
}

/// The dominant axis of the motion first, then the other axis.
pub open spec fn motion_dirs(from: RectCells, to: RectCells) -> Seq<Dir> {
    let dc = to.col - from.col;
    let dr = to.row - from.row;
    let v = if dr >= 0 {
        Dir::Down
    } else {
        Dir::Up
    };
    let h = if dc >= 0 {
        Dir::Right
    } else {
        Dir::Left
    };
    if abs(dr) >= abs(dc) {
        seq![v, h]
    } else {
        seq![h, v]
    }
}

/// The fallback order for the directions not mentioned yet.
pub open spec fn fallback_dirs() -> Seq<Dir> {
    seq![Dir::Down, Dir::Right, Dir::Left, Dir::Up]
}

/// `base`, then each fallback direction that `base` (as grown so far) lacks.
pub open spec fn fill_dirs(base: Seq<Dir>, n: int) -> Seq<Dir>
    decreases n,
{
    if n <= 0 {
        base
    } else {
        let prev = fill_dirs(base, n - 1);
        let d = fallback_dirs()[n - 1];
        if prev.contains(d) {
            prev
        } else {
            prev.push(d)
        }
    }
}

pub open spec fn push_order(from: RectCells, to: RectCells, h: Option<Handle>) -> Seq<Dir> {
    fill_dirs(handle_dirs(h) + motion_dirs(from, to), 4)
}

fn vec_has_dir(v: &Vec<Dir>, d: Dir) -> (b: bool)
    ensures
        b == v@.contains(d),
{
    let mut i: usize = 0;
    while i < v.len()
        invariant
            0 <= i <= v.len(),
            forall|k: int| 0 <= k < i ==> v@[k] != d,
        decreases v.len() - i,
    {
        if v[i] == d {
            return true;
        }
        i = i + 1;
    }
    false
}

proof fn lemma_fill_dirs_len(base: Seq<Dir>, n: int)
    requires
        0 <= n <= 4,
    ensures
        fill_dirs(base, n).len() >= base.len(),
        forall|k: int| 0 <= k < n ==> fill_dirs(base, n).contains(fallback_dirs()[k]),
        forall|k: int| 0 <= k < base.len() ==> fill_dirs(base, n)[k] == base[k],
    decreases n,
{
    if n > 0 {
        lemma_fill_dirs_len(base, n - 1);
        let prev = fill_dirs(base, n - 1);
        let d = fallback_dirs()[n - 1];
        if !prev.contains(d) {
            assert forall|k: int| 0 <= k < n implies fill_dirs(base, n).contains(
                fallback_dirs()[k],
            ) by {
                if k < n - 1 {
                    let j = choose|j: int| 0 <= j < prev.len() && prev[j] == fallback_dirs()[k];
                    assert(fill_dirs(base, n)[j] == fallback_dirs()[k]);
                } else {
                    assert(fill_dirs(base, n)[prev.len() as int] == d);
                }
            }
        }
    }
}

/// Every direction occurs in a filled list, so it has at least four entries.
proof fn lemma_fill_dirs_has_all(base: Seq<Dir>)
    ensures
        fill_dirs(base, 4).len() >= 4,
        forall|d: Dir| fill_dirs(base, 4).contains(d),
{
    lemma_fill_dirs_len(base, 4);
    let s = fill_dirs(base, 4);
    assert(s.contains(fallback_dirs()[0]));
    assert(s.contains(fallback_dirs()[1]));
    assert(s.contains(fallback_dirs()[2]));
    assert(s.contains(fallback_dirs()[3]));
    assert forall|d: Dir| s.contains(d) by {
        match d {
            Dir::Down => assert(fallback_dirs()[0] == d),
            Dir::Right => assert(fallback_dirs()[1] == d),
            Dir::Left => assert(fallback_dirs()[2] == d),
            Dir::Up => assert(fallback_dirs()[3] == d),
        }
    }
    if s.len() < 4 {
        // Four distinct values cannot fit in fewer than four slots.
        let i0 = choose|j: int| 0 <= j < s.len() && s[j] == Dir::Down;
        let i1 = choose|j: int| 0 <= j < s.len() && s[j] == Dir::Right;
        let i2 = choose|j: int| 0 <= j < s.len() && s[j] == Dir::Left;
        let i3 = choose|j: int| 0 <= j < s.len() && s[j] == Dir::Up;
        assert(i0 != i1 && i0 != i2 && i0 != i3 && i1 != i2 && i1 != i3 && i2 != i3);
        assert(false);
    }
}

/// Directions to try when pushing neighbours out of the way of a move or
/// resize from `from` to `to`: the handle's sides, then the motion's dominant
/// and secondary axes, then the remaining fallback order.
pub fn push_dirs(from: RectCells, to: RectCells, handle: Option<Handle>) -> (r: [Dir; 4])
    requires
        from.col <= i32::MAX,
        from.row <= i32::MAX,
        to.col <= i32::MAX,
        to.row <= i32::MAX,
    ensures
        r@ == push_order(from, to, handle).take(4),
{
    let mut ordered: Vec<Dir> = Vec::new();
    if let Some(handle) = handle {
        if handle.south() {
            ordered.push(Dir::Down);
        }
        if handle.east() {
            ordered.push(Dir::Right);
        }
        if handle.north() {
            ordered.push(Dir::Up);
        }
        if handle.west() {
            ordered.push(Dir::Left);
        }
    }
    assert(ordered@ =~= handle_dirs(handle));
    let dc = to.col as i32 - from.col as i32;
    let dr = to.row as i32 - from.row as i32;
    let adc = if dc < 0 {
        -dc
    } else {
        dc
    };
    let adr = if dr < 0 {
        -dr
    } else {
        dr
    };
    if adr >= adc {
        ordered.push(if dr >= 0 {
            Dir::Down
        } else {
            Dir::Up
        });
        ordered.push(if dc >= 0 {
            Dir::Right
        } else {
            Dir::Left
        });
    } else {
        ordered.push(if dc >= 0 {
            Dir::Right
        } else {
            Dir::Left
        });
        ordered.push(if dr >= 0 {
            Dir::Down
        } else {
            Dir::Up
        });
    }
    let ghost base = handle_dirs(handle) + motion_dirs(from, to);
    assert(ordered@ =~= base);
    assert(ordered@.len() <= 6);
    let fallback = [Dir::Down, Dir::Right, Dir::Left, Dir::Up];
    assert(fallback@ =~= fallback_dirs());
    let mut k: usize = 0;
    while k < 4
        invariant
            0 <= k <= 4,
            fallback@ == fallback_dirs(),
            ordered@ == fill_dirs(base, k as int),
            ordered@.len() <= 6 + k,
        decreases 4 - k,
    {
        let dir = fallback[k];
        if !vec_has_dir(&ordered, dir) {
            ordered.push(dir);
        }
        k = k + 1;
    }
    proof {
        lemma_fill_dirs_has_all(base);
    }
    let r = [ordered[0], ordered[1], ordered[2], ordered[3]];
    assert(r@ =~= push_order(from, to, handle).take(4));
    r
}

pub type Placed = Seq<(ItemId, RectCells)>;

/// Index of the first entry for `id` at or after `i`.
pub open spec fn find_id_from(s: Placed, id: ItemId, i: int) -> Option<int>
    decreases s.len() - i,
{
    if i < 0 || i >= s.len() {
        None
    } else if s[i].0 == id {
        Some(i)
    } else {
        find_id_from(s, id, i + 1)
    }
}

/// Cells recorded for `id` (its first entry), if any.
pub open spec fn cells_for(s: Placed, id: ItemId) -> Option<RectCells> {
    match find_id_from(s, id, 0) {
        Some(i) => Some(s[i].1),
        None => None,
    }
}

/// Takes part in reflow on `page`: on that page and not the item being placed.
pub open spec fn movable(s: Placed, mover: ItemId, page: u32, k: int) -> bool {
    s[k].0 != mover && s[k].1.page == page
}

/// First movable entry at or after `i` that overlaps `mc`.
pub open spec fn first_hit_from(s: Placed, mover: ItemId, mc: RectCells, page: u32, i: int) -> Option<
    int,
>
    decreases s.len() - i,
{
    if i < 0 || i >= s.len() {
        None
    } else if movable(s, mover, page, i) && overlaps_spec(s[i].1, mc) {
        Some(i)
    } else {
        first_hit_from(s, mover, mc, page, i + 1)
    }
}

/// First movable `j >= from` overlapping entry `i`.
pub open spec fn partner_from(s: Placed, mover: ItemId, page: u32, i: int, from: int) -> Option<
    int,
>
    decreases s.len() - from,
{
    if from < 0 || from >= s.len() {
        None
    } else if movable(s, mover, page, from) && overlaps_spec(s[i].1, s[from].1) {
        Some(from)
    } else {
        partner_from(s, mover, page, i, from + 1)
    }
}

/// First overlapping pair `(i, j)`, `i < j`, of movable entries, scanning `i` from `from`.
pub open spec fn first_pair_from(s: Placed, mover: ItemId, page: u32, from: int) -> Option<
    (int, int),
>
    decreases s.len() - from,
{
    if from < 0 || from >= s.len() {
        None
    } else if movable(s, mover, page, from) && partner_from(s, mover, page, from, from + 1) is Some {
        Some((from, partner_from(s, mover, page, from, from + 1)->0))
    } else {
        first_pair_from(s, mover, page, from + 1)
    }
}

/// Cells to rank an entry by: its snapshot cells if it has any.
pub open spec fn ranked(snapshot: Placed, e: (ItemId, RectCells)) -> RectCells {
    match cells_for(snapshot, e.0) {
        Some(c) => c,
        None => e.1,
    }
}

/// Which entry must move next: a movable entry that overlaps the mover, else
/// of the first overlapping pair of movable entries the one that was further
/// along `dir` in the snapshot (ties: the earlier one).
pub open spec fn conflict_spec(s: Placed, mover: ItemId, dir: Dir, snapshot: Placed, page: u32) -> Option<
    int,
> {
    match find_id_from(s, mover, 0) {
        None => None,
        Some(m) => match first_hit_from(s, mover, s[m].1, page, 0) {
            Some(i) => Some(i),
            None => match first_pair_from(s, mover, page, 0) {
                None => None,
                Some(p) => Some(
                    if coord_spec(dir, ranked(snapshot, s[p.0])) >= coord_spec(
                        dir,
                        ranked(snapshot, s[p.1]),
                    ) {
                        p.0
                    } else {
                        p.1
                    },
                ),
            },
        },
    }
}

pub open spec fn all_ok(s: Placed) -> bool {
    forall|k: int| 0 <= k < s.len() ==> cells_ok(#[trigger] s[k].1)
}

pub fn snapshot_cells_of(snapshot: &[(ItemId, RectCells)], id: ItemId) -> (r: Option<RectCells>)
    ensures
        r == cells_for(snapshot@, id),
{
    let mut i: usize = 0;
    while i < snapshot.len()
        invariant
            0 <= i <= snapshot@.len(),
            find_id_from(snapshot@, id, 0) == find_id_from(snapshot@, id, i as int),
        decreases snapshot@.len() - i,
    {
        if snapshot[i].0 == id {
            return Some(snapshot[i].1);
        }
        i = i + 1;
    }
    None
}

/// The cells found for `id` are one of the snapshot's entries.
pub proof fn lemma_cells_for_in(s: Placed, id: ItemId)
    ensures
        cells_for(s, id) matches Some(c) ==> exists|k: int| 0 <= k < s.len() && s[k].1 == c,
{
    lemma_find_in(s, id, 0);
}

proof fn lemma_first_hit_in(s: Placed, mover: ItemId, mc: RectCells, page: u32, i: int)
    ensures
        first_hit_from(s, mover, mc, page, i) matches Some(k) ==> i <= k < s.len(),
    decreases s.len() - i,
{
    if 0 <= i < s.len() {
        lemma_first_hit_in(s, mover, mc, page, i + 1);
    }
}

proof fn lemma_partner_in(s: Placed, mover: ItemId, page: u32, i: int, from: int)
    ensures
        partner_from(s, mover, page, i, from) matches Some(k) ==> from <= k < s.len(),
    decreases s.len() - from,
{
    if 0 <= from < s.len() {
        lemma_partner_in(s, mover, page, i, from + 1);
    }
}

proof fn lemma_pair_in(s: Placed, mover: ItemId, page: u32, from: int)
    ensures
        first_pair_from(s, mover, page, from) matches Some(p) ==> from <= p.0 < p.1 < s.len(),
    decreases s.len() - from,
{
    if 0 <= from < s.len() {
        lemma_partner_in(s, mover, page, from, from + 1);
        lemma_pair_in(s, mover, page, from + 1);
    }
}

proof fn lemma_find_in(s: Placed, id: ItemId, i: int)
    ensures
        find_id_from(s, id, i) matches Some(k) ==> i <= k < s.len() && s[k].0 == id,
    decreases s.len() - i,
{
    if 0 <= i < s.len() {
        lemma_find_in(s, id, i + 1);
    }
}

/// A conflict, when there is one, is an index of a movable entry.
pub proof fn lemma_conflict_in(s: Placed, mover: ItemId, dir: Dir, snapshot: Placed, page: u32)
    ensures
        conflict_spec(s, mover, dir, snapshot, page) matches Some(k) ==> 0 <= k < s.len()
            && movable(s, mover, page, k),
{
    lemma_find_in(s, mover, 0);
    if let Some(m) = find_id_from(s, mover, 0) {
        lemma_first_hit_in(s, mover, s[m].1, page, 0);
        lemma_first_hit_movable(s, mover, s[m].1, page, 0);
        lemma_pair_in(s, mover, page, 0);
        lemma_pair_movable(s, mover, page, 0);
    }
}

proof fn lemma_first_hit_movable(s: Placed, mover: ItemId, mc: RectCells, page: u32, i: int)
    ensures
        first_hit_from(s, mover, mc, page, i) matches Some(k) ==> movable(s, mover, page, k),
    decreases s.len() - i,
{
    if 0 <= i < s.len() {
        lemma_first_hit_movable(s, mover, mc, page, i + 1);
    }
}

proof fn lemma_partner_movable(s: Placed, mover: ItemId, page: u32, i: int, from: int)
    ensures
        partner_from(s, mover, page, i, from) matches Some(k) ==> movable(s, mover, page, k),
    decreases s.len() - from,
{
    if 0 <= from < s.len() {
        lemma_partner_movable(s, mover, page, i, from + 1);
    }
}

proof fn lemma_pair_movable(s: Placed, mover: ItemId, page: u32, from: int)
    ensures
        first_pair_from(s, mover, page, from) matches Some(p) ==> movable(s, mover, page, p.0)
            && movable(s, mover, page, p.1),
    decreases s.len() - from,
{
    if 0 <= from < s.len() {
        lemma_partner_movable(s, mover, page, from, from + 1);
        lemma_pair_movable(s, mover, page, from + 1);
    }
}

fn first_conflict(
    pos: &Vec<(ItemId, RectCells)>,
    mover: ItemId,
    dir: Dir,
    snapshot: &[(ItemId, RectCells)],
    page: u32,
) -> (r: Option<usize>)
    requires
        all_ok(pos@),
        all_ok(snapshot@),
    ensures
        r matches Some(k) ==> conflict_spec(pos@, mover, dir, snapshot@, page) == Some(k as int),
        r is None ==> conflict_spec(pos@, mover, dir, snapshot@, page) is None,
{
    let s = Ghost(pos@);
    // Where the mover sits.
    let mut m: usize = 0;
    while m < pos.len()
        invariant
            0 <= m <= pos@.len(),
            find_id_from(pos@, mover, 0) == find_id_from(pos@, mover, m as int),
        ensures
            m <= pos@.len(),
            m < pos@.len() ==> pos@[m as int].0 == mover,
            find_id_from(pos@, mover, 0) == find_id_from(pos@, mover, m as int),
        decreases pos@.len() - m,
    {
        if pos[m].0 == mover {
            break;
        }
        m = m + 1;
    }
    if m == pos.len() {
        return None;
    }
    assert(find_id_from(pos@, mover, 0) == Some(m as int));
    let mover_cells = pos[m].1;
    assert(cells_ok(pos@[m as int].1));
    let mut i: usize = 0;
    while i < pos.len()
        invariant
            0 <= i <= pos@.len(),
            all_ok(pos@),
            cells_ok(mover_cells),
            find_id_from(pos@, mover, 0) == Some(m as int),
            mover_cells == pos@[m as int].1,
            first_hit_from(pos@, mover, mover_cells, page, 0) == first_hit_from(
                pos@,
                mover,
                mover_cells,
                page,
                i as int,
            ),
        decreases pos@.len() - i,
    {
        let (id, cells) = pos[i];
        if !(id == mover || cells.page != page) {
            assert(cells_ok(pos@[i as int].1));
            if overlaps(cells, mover_cells) {
                return Some(i);
            }
        }
        i = i + 1;
    }
    let mut i: usize = 0;
    while i < pos.len()
        invariant
            0 <= i <= pos@.len(),
            all_ok(pos@),
            all_ok(snapshot@),
            first_hit_from(pos@, mover, mover_cells, page, 0) is None,
            find_id_from(pos@, mover, 0) == Some(m as int),
            mover_cells == pos@[m as int].1,
            first_pair_from(pos@, mover, page, 0) == first_pair_from(pos@, mover, page, i as int),
        decreases pos@.len() - i,
    {
        if pos[i].0 == mover || pos[i].1.page != page {
            i = i + 1;
            continue;
        }
        let mut j: usize = i + 1;
        while j < pos.len()
            invariant
                0 <= i < j <= pos@.len(),
                all_ok(pos@),
                movable(pos@, mover, page, i as int),
                partner_from(pos@, mover, page, i as int, i + 1) == partner_from(
                    pos@,
                    mover,
                    page,
                    i as int,
                    j as int,
                ),
            ensures
                j < pos@.len() ==> movable(pos@, mover, page, j as int) && overlaps_spec(
                    pos@[i as int].1,
                    pos@[j as int].1,
                ),
                j <= pos@.len(),
                partner_from(pos@, mover, page, i as int, i + 1) == partner_from(
                    pos@,
                    mover,
                    page,
                    i as int,
                    j as int,
                ),
            decreases pos@.len() - j,
        {
            if pos[j].0 == mover || pos[j].1.page != page {
                j = j + 1;
                continue;
            }
            assert(cells_ok(pos@[i as int].1) && cells_ok(pos@[j as int].1));
            if overlaps(pos[i].1, pos[j].1) {
                break;
            }
            j = j + 1;
        }
        if j < pos.len() {
            assert(first_pair_from(pos@, mover, page, i as int) == Some((i as int, j as int)));
            let a = match snapshot_cells_of(snapshot, pos[i].0) {
                Some(c) => c,
                None => pos[i].1,
            };
            let b = match snapshot_cells_of(snapshot, pos[j].0) {
                Some(c) => c,
                None => pos[j].1,
            };
            proof {
                lemma_find_in(snapshot@, pos@[i as int].0, 0);
                lemma_find_in(snapshot@, pos@[j as int].0, 0);
            }
            return Some(
                if dir.coord(a) >= dir.coord(b) {
                    i
                } else {
                    j
                },
            );
        }
        i = i + 1;
    }
    None
}

/// `snapshot` with the mover placed on `hole`.
pub open spec fn with_hole(snapshot: Placed, mover: ItemId, hole: RectCells) -> Placed {
    snapshot.map_values(
        |e: (ItemId, RectCells)|
            if e.0 == mover {
                (e.0, hole)
            } else {
                e
            },
    )
}

/// The push cascade: while some entry conflicts, step it one cell along
/// `dir`; give up at the grid edge or when `fuel` runs out.
pub open spec fn cascade(
    s: Placed,
    mover: ItemId,
    dir: Dir,
    snapshot: Placed,
    page: u32,
    columns: u32,
    rows: u32,
    fuel: nat,
) -> Option<Placed>
    decreases fuel,
{
    if fuel == 0 {
        None
    } else {
        match conflict_spec(s, mover, dir, snapshot, page) {
            None => Some(s),
            Some(i) => match step_spec(dir, s[i].1, columns, rows) {
                None => None,
                Some(c) => cascade(
                    s.update(i, (s[i].0, c)),
                    mover,
                    dir,
                    snapshot,
                    page,
                    columns,
                    rows,
                    (fuel - 1) as nat,
                ),
            },
        }
    }
}

/// Iteration budget of a cascade: every entry may cross the whole grid.
pub open spec fn cascade_limit(columns: u32, rows: u32, n: nat) -> nat {
    (columns * rows * (if n == 0 {
        1
    } else {
        n
    })) as nat
}

/// Bounds under which a cascade's arithmetic stays in range.
pub open spec fn resolve_ok(snapshot: Placed, hole: RectCells, columns: u32, rows: u32) -> bool {
    &&& columns <= i32::MAX
    &&& rows <= i32::MAX
    &&& columns * rows <= u32::MAX
    &&& columns * rows * (if snapshot.len() == 0 {
        1
    } else {
        snapshot.len()
    }) <= usize::MAX
    &&& all_ok(snapshot)
    &&& cells_ok(hole)
}

proof fn lemma_step_ok(d: Dir, c: RectCells, columns: u32, rows: u32)
    requires
        cells_ok(c),
        columns <= i32::MAX,
        rows <= i32::MAX,
    ensures
        step_spec(d, c, columns, rows) matches Some(n) ==> cells_ok(n) && n.page == c.page
            && n.col_span == c.col_span && n.row_span == c.row_span,
{
}

/// Place `mover` on `hole` and push everything it lands on (and everything
/// those land on, in cascade) one cell at a time in `dir`, starting from the
/// snapshot. `None` when something would be pushed off the grid.
pub fn push_resolve(
    snapshot: &[(ItemId, RectCells)],
    mover: ItemId,
    hole: RectCells,
    dir: Dir,
    columns: u32,
    rows: u32,
) -> (r: Option<Vec<(ItemId, RectCells)>>)
    requires
        resolve_ok(snapshot@, hole, columns, rows),
    ensures
        r matches Some(v) ==> cascade(
            with_hole(snapshot@, mover, hole),
            mover,
            dir,
            snapshot@,
            hole.page,
            columns,
            rows,
            cascade_limit(columns, rows, snapshot@.len()),
        ) == Some(v@),
        r is None ==> cascade(
            with_hole(snapshot@, mover, hole),
            mover,
            dir,
            snapshot@,
            hole.page,
            columns,
            rows,
            cascade_limit(columns, rows, snapshot@.len()),
        ) is None,
{
    let mut pos: Vec<(ItemId, RectCells)> = Vec::new();
    let mut k: usize = 0;
    while k < snapshot.len()
        invariant
            0 <= k <= snapshot@.len(),
            pos@ == with_hole(snapshot@, mover, hole).take(k as int),
        decreases snapshot@.len() - k,
    {
        let (id, cells) = snapshot[k];
        if id == mover {
            pos.push((id, hole));
        } else {
            pos.push((id, cells));
        }
        proof {
            assert(pos@ =~= with_hole(snapshot@, mover, hole).take(k + 1));
        }
        k = k + 1;
    }
    assert(pos@ =~= with_hole(snapshot@, mover, hole));
    let n = if pos.len() > 1 {
        pos.len()
    } else {
        1
    };
    let limit = ((columns as u64 * rows as u64) as usize) * n;
    let ghost start = pos@;
    let ghost total = cascade_limit(columns, rows, snapshot@.len());
    assert(start == with_hole(snapshot@, mover, hole));
    assert(limit == total);
    let mut it: usize = 0;
    while it < limit
        invariant
            0 <= it <= limit,
            limit == total,
            start == with_hole(snapshot@, mover, hole),
            total == cascade_limit(columns, rows, snapshot@.len()),
            all_ok(pos@),
            all_ok(snapshot@),
            columns <= i32::MAX,
            rows <= i32::MAX,
            cascade(start, mover, dir, snapshot@, hole.page, columns, rows, total) == cascade(
                pos@,
                mover,
                dir,
                snapshot@,
                hole.page,
                columns,
                rows,
                (total - it) as nat,
            ),
        decreases limit - it,
    {
        let c = first_conflict(&pos, mover, dir, snapshot, hole.page);
        match c {
            None => {
                assert(total - it > 0);
                assert(cascade(pos@, mover, dir, snapshot@, hole.page, columns, rows, (total - it) as nat) == Some(pos@));
                return Some(pos);
            },
            Some(i) => {
                proof {
                    lemma_conflict_in(pos@, mover, dir, snapshot@, hole.page);
                    lemma_step_ok(dir, pos@[i as int].1, columns, rows);
                }
                let mut cells = pos[i].1;
                let moved = dir.step(&mut cells, columns, rows);
                if !moved {
                    assert(cascade(pos@, mover, dir, snapshot@, hole.page, columns, rows, (total - it) as nat) is None);
                    return None;
                }
                let ghost prev = pos@;
                let id = pos[i].0;
                pos.set(i, (id, cells));
                proof {
                    assert forall|q: int| 0 <= q < pos@.len() implies cells_ok(
                        #[trigger] pos@[q].1,
                    ) by {
                        if q != i {
                        }
                    }
                    assert(pos@ == prev.update(i as int, (prev[i as int].0, cells)));
                }
            },
        }
        it = it + 1;
    }
    None
}

/// A resolved cascade has no conflicts left: nothing on the page overlaps the
/// mover or another entry, and the entries are those of the snapshot in
/// order, the mover on the hole.
pub proof fn lemma_cascade_resolved(
    s: Placed,
    mover: ItemId,
    dir: Dir,
    snapshot: Placed,
    page: u32,
    columns: u32,
    rows: u32,
    fuel: nat,
)
    ensures
        cascade(s, mover, dir, snapshot, page, columns, rows, fuel) matches Some(p) ==> {
            &&& conflict_spec(p, mover, dir, snapshot, page) is None
            &&& p.len() == s.len()
            &&& forall|k: int| 0 <= k < s.len() ==> (#[trigger] p[k]).0 == s[k].0
            &&& forall|k: int| 0 <= k < s.len() && s[k].0 == mover ==> (#[trigger] p[k]).1 == s[k].1
        },
    decreases fuel,
{
    if fuel > 0 {
        lemma_conflict_in(s, mover, dir, snapshot, page);
        match conflict_spec(s, mover, dir, snapshot, page) {
            None => {},
            Some(i) => match step_spec(dir, s[i].1, columns, rows) {
                None => {},
                Some(c) => {
                    lemma_cascade_resolved(
                        s.update(i, (s[i].0, c)),
                        mover,
                        dir,
                        snapshot,
                        page,
                        columns,
                        rows,
                        (fuel - 1) as nat,
                    );
                },
            },
        }
    }
}

/// `b` is `a` moved zero or more whole cells along `d`: same page and spans,
/// the other coordinate unchanged.
pub open spec fn moved_along(d: Dir, a: RectCells, b: RectCells) -> bool {
    &&& b.page == a.page
    &&& b.col_span == a.col_span
    &&& b.row_span == a.row_span
    &&& match d {
        Dir::Left => b.col <= a.col && b.row == a.row,
        Dir::Right => b.col >= a.col && b.row == a.row,
        Dir::Up => b.row <= a.row && b.col == a.col,
        Dir::Down => b.row >= a.row && b.col == a.col,
    }
}

/// `c` lies within a `columns × rows` grid.
pub open spec fn inside(c: RectCells, columns: u32, rows: u32) -> bool {
    &&& c.col + c.col_span <= columns
    &&& c.row + c.row_span <= rows
}

/// `c` does not stick out of the grid on the side `d` points to.
pub open spec fn inside_toward(d: Dir, c: RectCells, columns: u32, rows: u32) -> bool {
    match d {
        Dir::Right => c.col + c.col_span <= columns,
        Dir::Down => c.row + c.row_span <= rows,
        _ => true,
    }
}

/// What a resolved cascade does to the other entries: those on other pages
/// (and the mover) keep their cells; the rest only move along the push
/// direction, keeping page and spans; whatever moved ends within the grid on
/// the side it was pushed toward, and whatever lay within the grid still
/// does.
pub proof fn lemma_cascade_pushes_along(
    s: Placed,
    mover: ItemId,
    dir: Dir,
    snapshot: Placed,
    page: u32,
    columns: u32,
    rows: u32,
    fuel: nat,
)
    ensures
        cascade(s, mover, dir, snapshot, page, columns, rows, fuel) matches Some(p) ==> {
            &&& p.len() == s.len()
            &&& forall|k: int|
                0 <= k < s.len() && !movable(s, mover, page, k) ==> (#[trigger] p[k]).1 == s[k].1
            &&& forall|k: int| 0 <= k < s.len() ==> moved_along(dir, s[k].1, (#[trigger] p[k]).1)
            &&& forall|k: int|
                0 <= k < s.len() && (#[trigger] p[k]).1 != s[k].1 ==> inside_toward(
                    dir,
                    p[k].1,
                    columns,
                    rows,
                )
            &&& forall|k: int|
                0 <= k < s.len() && inside(s[k].1, columns, rows) ==> inside(
                    (#[trigger] p[k]).1,
                    columns,
                    rows,
                )
        },
    decreases fuel,
{
    if fuel > 0 {
        lemma_conflict_in(s, mover, dir, snapshot, page);
        match conflict_spec(s, mover, dir, snapshot, page) {
            None => {},
            Some(i) => match step_spec(dir, s[i].1, columns, rows) {
                None => {},
                Some(c) => {
                    let s2 = s.update(i, (s[i].0, c));
                    lemma_cascade_pushes_along(
                        s2,
                        mover,
                        dir,
                        snapshot,
                        page,
                        columns,
                        rows,
                        (fuel - 1) as nat,
                    );
                    lemma_step(dir, s[i].1, columns, rows);
                    assert forall|k: int| 0 <= k < s.len() implies movable(s, mover, page, k)
                        == movable(s2, mover, page, k) by {}
                },
            },
        }
    }
}

/// No conflict means: the mover (if present) overlaps no entry on the page,
/// and no two entries on the page overlap.
pub proof fn lemma_no_conflict_no_overlap(
    s: Placed,
    mover: ItemId,
    dir: Dir,
    snapshot: Placed,
    page: u32,
)
    requires
        conflict_spec(s, mover, dir, snapshot, page) is None,
    ensures
        find_id_from(s, mover, 0) is Some ==> forall|k: int|
            0 <= k < s.len() && movable(s, mover, page, k) ==> !overlaps_spec(
                #[trigger] s[k].1,
                s[find_id_from(s, mover, 0)->0].1,
            ),
        find_id_from(s, mover, 0) is Some ==> forall|i: int, j: int|
            0 <= i < j < s.len() && movable(s, mover, page, i) && movable(s, mover, page, j)
                ==> !overlaps_spec(#[trigger] s[i].1, #[trigger] s[j].1),
{
    if let Some(m) = find_id_from(s, mover, 0) {
        assert forall|k: int| 0 <= k < s.len() && movable(s, mover, page, k) implies !overlaps_spec(
            #[trigger] s[k].1,
            s[m].1,
        ) by {
            lemma_no_hit(s, mover, s[m].1, page, 0, k);
        }
        assert forall|i: int, j: int|
            0 <= i < j < s.len() && movable(s, mover, page, i) && movable(
                s,
                mover,
                page,
                j,
            ) implies !overlaps_spec(#[trigger] s[i].1, #[trigger] s[j].1) by {
            lemma_no_pair(s, mover, page, 0, i, j);
        }
    }
}

proof fn lemma_no_hit(s: Placed, mover: ItemId, mc: RectCells, page: u32, from: int, k: int)
    requires
        0 <= from <= k < s.len(),
        first_hit_from(s, mover, mc, page, from) is None,
        movable(s, mover, page, k),
    ensures
        !overlaps_spec(s[k].1, mc),
    decreases k - from,
{
    if from < k {
        lemma_no_hit(s, mover, mc, page, from + 1, k);
    }
}

proof fn lemma_no_partner(s: Placed, mover: ItemId, page: u32, i: int, from: int, j: int)
    requires
        0 <= from <= j < s.len(),
        partner_from(s, mover, page, i, from) is None,
        movable(s, mover, page, j),
    ensures
        !overlaps_spec(s[i].1, s[j].1),
    decreases j - from,
{
    if from < j {
        lemma_no_partner(s, mover, page, i, from + 1, j);
    }
}

proof fn lemma_no_pair(s: Placed, mover: ItemId, page: u32, from: int, i: int, j: int)
    requires
        0 <= from <= i < j < s.len(),
        first_pair_from(s, mover, page, from) is None,
        movable(s, mover, page, i),
        movable(s, mover, page, j),
    ensures
        !overlaps_spec(s[i].1, s[j].1),
    decreases i - from,
{
    if from < i {
        lemma_no_pair(s, mover, page, from + 1, i, j);
    } else {
        lemma_no_partner(s, mover, page, i, i + 1, j);
    }
}


/// `n / d` rounded to the nearest integer, halves away from zero (`d > 0`).
pub open spec fn div_round(n: int, d: int) -> int {
    if n >= 0 {
        (2 * n + d) / (2 * d)
    } else {
        -((-2 * n + d) / (2 * d))
    }
}

pub open spec fn clamp(v: int, lo: int, hi: int) -> int {
    if v < lo {
        lo
    } else if v > hi {
        hi
    } else {
        v
    }
}

pub open spec fn nearest_cell_spec(pos: int, origin: int, pitch: int, max: int) -> int {
    if pitch <= 0 {
        0
    } else {
        clamp(div_round(pos - origin, pitch), 0, max)
    }
}

/// Index of the grid line nearest to `pos`, for lines at `origin + k * pitch`,
/// clamped to `0..=max`.
pub fn nearest_cell(pos: i32, origin: i32, pitch: i32, max: u32) -> (r: u32)
    requires
        max <= i32::MAX,
    ensures
        r == nearest_cell_spec(pos as int, origin as int, pitch as int, max as int),
{
    if pitch <= 0 {
        return 0;
    }
    let n = pos as i64 - origin as i64;
    let d = pitch as i64;
    let idx: i64 = if n >= 0 {
        (2 * n + d) / (2 * d)
    } else {
        -((-2 * n + d) / (2 * d))
    };
    if idx < 0 {
        0
    } else if idx > max as i64 {
        max
    } else {
        idx as u32
    }
}

/// `floor(n / d)` for `d > 0`.
pub open spec fn div_floor(n: int, d: int) -> int {
    n / d
}

/// Span in cells for a length, where a cell counts once the length reaches
/// its middle. `length` is fixed-point (1/256 px); `cell` and `pitch` are pixels.
pub open spec fn snap_span_spec(length: int, cell: int, pitch: int, max: int) -> int {
    if pitch <= 0 || max == 0 {
        1
    } else {
        clamp(div_floor(length - 128 * cell, 256 * pitch) + 1, 1, max)
    }
}

pub open spec fn snap_span_ok(length: int, cell: int, pitch: int, max: int) -> bool {
    &&& max <= i32::MAX
    &&& (pitch > 0 && max != 0 ==> div_floor(length - 128 * cell, 256 * pitch) < i32::MAX)
}

/// A resized widget snaps at mid-cell: it spans more than `k` cells exactly
/// when the dragged length reaches the middle of the next cell.
pub proof fn lemma_snap_mid_cell(length: int, cell: int, pitch: int, max: int, k: int)
    requires
        pitch > 0,
        1 <= k < max,
    ensures
        snap_span_spec(length, cell, pitch, max) > k <==> length - 128 * cell >= 256 * pitch * k,
{
    let n = length - 128 * cell;
    let d = 256 * pitch;
    assert(n / d >= k <==> n >= d * k) by (nonlinear_arith)
        requires
            d > 0,
    {
        if n / d >= k {
            assert(d * (n / d) <= n);
            assert(d * k <= d * (n / d));
        }
        if n >= d * k {
            assert(n / d >= (d * k) / d);
            assert((d * k) / d == k);
        }
    }
    assert(256 * pitch * k == d * k);
}

pub fn snap_span(length: i64, cell: i32, pitch: i32, max: u32) -> (r: u32)
    requires
        snap_span_ok(length as int, cell as int, pitch as int, max as int),
        i64::MIN / 2 <= length <= i64::MAX / 2,
    ensures
        r == snap_span_spec(length as int, cell as int, pitch as int, max as int),
        1 <= r,
{
    if pitch <= 0 || max == 0 {
        return 1;
    }
    let n = length as i128 - 128 * cell as i128;
    let d = 256 * pitch as i128;
    let q: i128 = if n >= 0 {
        n / d
    } else {
        -((-n + d - 1) / d)
    };
    proof {
        if n < 0 {
            let ni = n as int;
            let di = d as int;
            assert(-((-ni + di - 1) / di) == ni / di) by (nonlinear_arith)
                requires
                    ni < 0,
                    di > 0,
            ;
        }
    }
    let span = q + 1;
    if span < 1 {
        1
    } else if span > max as i128 {
        max
    } else {
        span as u32
    }
}

pub open spec fn resize_preview_spec(o: Rect, h: Handle, pos: Pos, min_w: i32, min_h: i32) -> Rect {
    let px = fx_trunc(pos.x as int);
    let py = fx_trunc(pos.y as int);
    let e = if is_east(h) {
        Rect { w: max_int(px - o.x, min_w as int) as i32, ..o }
    } else {
        o
    };
    let s = if is_south(h) {
        Rect { h: max_int(py - o.y, min_h as int) as i32, ..e }
    } else {
        e
    };
    let w = if is_west(h) {
        let right = o.x + o.w;
        let ww = max_int(right - px, min_w as int);
        Rect { w: ww as i32, x: (right - ww) as i32, ..s }
    } else {
        s
    };
    if is_north(h) {
        let bottom = o.y + o.h;
        let hh = max_int(bottom - py, min_h as int);
        Rect { h: hh as i32, y: (bottom - hh) as i32, ..w }
    } else {
        w
    }
}

pub open spec fn max_int(a: int, b: int) -> int {
    if a >= b {
        a
    } else {
        b
    }
}

/// Every intermediate value of a preview stays in `i32`.
pub open spec fn preview_ok(o: Rect, pos: Pos, min_w: i32, min_h: i32) -> bool {
    let px = fx_trunc(pos.x as int);
    let py = fx_trunc(pos.y as int);
    &&& is_i32(px)
    &&& is_i32(py)
    &&& is_i32(px - o.x)
    &&& is_i32(py - o.y)
    &&& is_i32(o.x + o.w)
    &&& is_i32(o.y + o.h)
    &&& is_i32(o.x + o.w - px)
    &&& is_i32(o.y + o.h - py)
    &&& is_i32(o.x + o.w - min_w)
    &&& is_i32(o.y + o.h - min_h)
}

/// Pixel frame while resizing with `handle` dragged to `pos`: the opposite
/// edges stay put and the frame never gets smaller than `min_w × min_h`.
pub fn resize_preview(origin: Rect, handle: Handle, pos: Pos, min_w: i32, min_h: i32) -> (r: Rect)
    requires
        preview_ok(origin, pos, min_w, min_h),
    ensures
        r == resize_preview_spec(origin, handle, pos, min_w, min_h),
{
    let px = trunc_px(pos.x) as i32;
    let py = trunc_px(pos.y) as i32;
    let mut preview = origin;
    if handle.east() {
        let w = px - preview.x;
        preview.w = if w >= min_w {
            w
        } else {
            min_w
        };
    }
    if handle.south() {
        let h = py - preview.y;
        preview.h = if h >= min_h {
            h
        } else {
            min_h
        };
    }
    if handle.west() {
        let right = origin.x + origin.w;
        let w = right - px;
        preview.w = if w >= min_w {
            w
        } else {
            min_w
        };
        preview.x = right - preview.w;
    }
    if handle.north() {
        let bottom = origin.y + origin.h;
        let h = bottom - py;
        preview.h = if h >= min_h {
            h
        } else {
            min_h
        };
        preview.y = bottom - preview.h;
    }
    preview
}

/// Cell pixel size and grid dimensions for resize snapping.
#[derive(Clone, Copy, Debug, PartialEq, Eq, Structural)]
pub struct GridMetrics {
    pub columns: u32,
    pub rows: u32,
    pub cw: i32,
    pub ch: i32,
}

pub open spec fn sat_sub(a: int, b: int) -> int {
    if a >= b {
        a - b
    } else {
        0
    }
}

pub open spec fn min_int(a: int, b: int) -> int {
    if a <= b {
        a
    } else {
        b
    }
}

pub open spec fn resize_cells_spec(
    o: RectCells,
    r: Rect,
    h: Handle,
    pos: Pos,
    g: GridMetrics,
) -> RectCells {
    let pitch_x = g.cw + GAP;
    let pitch_y = g.ch + GAP;
    let e = if is_east(h) {
        RectCells {
            col_span: snap_span_spec(
                pos.x - 256 * r.x,
                g.cw as int,
                pitch_x,
                sat_sub(g.columns as int, o.col as int),
            ) as u32,
            ..o
        }
    } else {
        o
    };
    let s = if is_south(h) {
        RectCells {
            row_span: snap_span_spec(
                pos.y - 256 * r.y,
                g.ch as int,
                pitch_y,
                sat_sub(g.rows as int, o.row as int),
            ) as u32,
            ..e
        }
    } else {
        e
    };
    let w = if is_west(h) {
        let right = o.col + o.col_span;
        let span = snap_span_spec(
            256 * (r.x + r.w) - pos.x,
            g.cw as int,
            pitch_x,
            min_int(right, g.columns as int),
        );
        RectCells { col: sat_sub(right, span) as u32, col_span: span as u32, ..s }
    } else {
        s
    };
    let n = if is_north(h) {
        let bottom = o.row + o.row_span;
        let span = snap_span_spec(
            256 * (r.y + r.h) - pos.y,
            g.ch as int,
            pitch_y,
            min_int(bottom, g.rows as int),
        );
        RectCells { row: sat_sub(bottom, span) as u32, row_span: span as u32, ..w }
    } else {
        w
    };
    RectCells {
        col_span: max_int(min_int(n.col_span as int, sat_sub(g.columns as int, n.col as int)), 1) as u32,
        row_span: max_int(min_int(n.row_span as int, sat_sub(g.rows as int, n.row as int)), 1) as u32,
        ..n
    }
}

/// Inputs of a cell resize are small enough for its arithmetic.
pub open spec fn resize_ok(o: RectCells, r: Rect, pos: Pos, g: GridMetrics) -> bool {
    &&& g.columns <= i32::MAX
    &&& g.rows <= i32::MAX
    &&& 0 <= g.cw <= i32::MAX - GAP
    &&& 0 <= g.ch <= i32::MAX - GAP
    &&& o.col + o.col_span <= u32::MAX
    &&& o.row + o.row_span <= u32::MAX
    &&& is_i32(r.x + r.w)
    &&& is_i32(r.y + r.h)
    &&& -0x100_0000_0000 <= pos.x <= 0x100_0000_0000
    &&& -0x100_0000_0000 <= pos.y <= 0x100_0000_0000
}

proof fn lemma_snap_small(length: int, cell: int, pitch: int, max: int)
    requires
        -0x400_0000_0000 <= length <= 0x400_0000_0000,
        0 <= cell,
        pitch >= 16,
        0 <= max <= i32::MAX,
    ensures
        snap_span_ok(length, cell, pitch, max),
{
    let n = length - 128 * cell;
    let d = 256 * pitch;
    if n >= 0 {
        assert(n / d <= n / 4096) by (nonlinear_arith)
            requires
                d >= 4096,
                n >= 0,
        ;
        assert(n / 4096 <= 0x400_0000_0000int / 4096) by (nonlinear_arith)
            requires
                n <= 0x400_0000_0000int,
        ;
    } else {
        assert(n / d <= 0) by (nonlinear_arith)
            requires
                d > 0,
                n < 0,
        ;
    }
}

/// The cell rectangle a resize snaps to: each dragged edge snaps at mid-cell,
/// the spans stay at least one cell and never run past the grid.
pub fn resize_cells(origin: RectCells, origin_rect: Rect, handle: Handle, pos: Pos, grid: GridMetrics) -> (r:
    RectCells)
    requires
        resize_ok(origin, origin_rect, pos, grid),
    ensures
        r == resize_cells_spec(origin, origin_rect, handle, pos, grid),
{
    let mut next = origin;
    let pitch_x = grid.cw + GAP;
    let pitch_y = grid.ch + GAP;
    if handle.east() {
        let l = pos.x - origin_rect.x as i64 * 256;
        let m = grid.columns.saturating_sub(origin.col);
        proof { lemma_snap_small(l as int, grid.cw as int, pitch_x as int, m as int); }
        next.col_span = snap_span(l, grid.cw, pitch_x, m);
    }
    if handle.south() {
        let l = pos.y - origin_rect.y as i64 * 256;
        let m = grid.rows.saturating_sub(origin.row);
        proof { lemma_snap_small(l as int, grid.ch as int, pitch_y as int, m as int); }
        next.row_span = snap_span(l, grid.ch, pitch_y, m);
    }
    if handle.west() {
        let right = origin.col + origin.col_span;
        let l = (origin_rect.x + origin_rect.w) as i64 * 256 - pos.x;
        let m = if right <= grid.columns {
            right
        } else {
            grid.columns
        };
        proof { lemma_snap_small(l as int, grid.cw as int, pitch_x as int, m as int); }
        let span = snap_span(l, grid.cw, pitch_x, m);
        next.col = right.saturating_sub(span);
        next.col_span = span;
    }
    if handle.north() {
        let bottom = origin.row + origin.row_span;
        let l = (origin_rect.y + origin_rect.h) as i64 * 256 - pos.y;
        let m = if bottom <= grid.rows {
            bottom
        } else {
            grid.rows
        };
        proof { lemma_snap_small(l as int, grid.ch as int, pitch_y as int, m as int); }
        let span = snap_span(l, grid.ch, pitch_y, m);
        next.row = bottom.saturating_sub(span);
        next.row_span = span;
    }
    let room_c = grid.columns.saturating_sub(next.col);
    let cs = if next.col_span <= room_c {
        next.col_span
    } else {
        room_c
    };
    next.col_span = if cs >= 1 {
        cs
    } else {
        1
    };
    let room_r = grid.rows.saturating_sub(next.row);
    let rs = if next.row_span <= room_r {
        next.row_span
    } else {
        room_r
    };
    next.row_span = if rs >= 1 {
        rs
    } else {
        1
    };
    next
}

/// A snapped resize keeps at least one cell, and stays inside the grid
/// whenever its corner is inside the grid.
pub proof fn lemma_resize_cells_in_grid(
    origin: RectCells,
    r: Rect,
    h: Handle,
    pos: Pos,
    g: GridMetrics,
)
    ensures
        resize_cells_spec(origin, r, h, pos, g).col_span >= 1,
        resize_cells_spec(origin, r, h, pos, g).row_span >= 1,
        resize_cells_spec(origin, r, h, pos, g).col < g.columns ==> resize_cells_spec(
            origin,
            r,
            h,
            pos,
            g,
        ).col + resize_cells_spec(origin, r, h, pos, g).col_span <= g.columns,
        resize_cells_spec(origin, r, h, pos, g).row < g.rows ==> resize_cells_spec(
            origin,
            r,
            h,
            pos,
            g,
        ).row + resize_cells_spec(origin, r, h, pos, g).row_span <= g.rows,
{
}

/// A snapped resize stays on the page and keeps its far edges in range.
pub proof fn lemma_resize_cells_ok(origin: RectCells, r: Rect, h: Handle, pos: Pos, g: GridMetrics)
    requires
        cells_ok(origin),
        1 <= origin.col_span,
        1 <= origin.row_span,
        g.columns <= i32::MAX,
        g.rows <= i32::MAX,
    ensures
        cells_ok(resize_cells_spec(origin, r, h, pos, g)),
        resize_cells_spec(origin, r, h, pos, g).page == origin.page,
{
}

/// A resize moves only the dragged edges. Dragging a west handle keeps the
/// right edge where it was (the widget grows or shrinks to the left);
/// dragging an east handle keeps the left edge. Likewise a north handle
/// keeps the bottom edge and a south handle the top edge. (For a rectangle
/// inside the grid, so that no clamping to the grid applies.)
pub proof fn lemma_resize_keeps_far_edges(o: RectCells, r: Rect, h: Handle, pos: Pos, g: GridMetrics)
    requires
        1 <= o.col_span,
        1 <= o.row_span,
        o.col + o.col_span <= g.columns,
        o.row + o.row_span <= g.rows,
    ensures
        ({
            let n = resize_cells_spec(o, r, h, pos, g);
            &&& n.page == o.page
            &&& (is_west(h) ==> n.col + n.col_span == o.col + o.col_span)
            &&& (!is_west(h) ==> n.col == o.col)
            &&& (is_north(h) ==> n.row + n.row_span == o.row + o.row_span)
            &&& (!is_north(h) ==> n.row == o.row)
            &&& (!is_west(h) && !is_east(h) ==> n.col_span == o.col_span)
            &&& (!is_north(h) && !is_south(h) ==> n.row_span == o.row_span)
        }),
{
}

/// Without a handle, neighbours are pushed first along the dominant axis of
/// the motion, in its direction, then along the other axis in its
/// direction; every direction is tried once.
pub proof fn lemma_push_follows_motion(from: RectCells, to: RectCells)
    ensures
        ({
            let d = push_order(from, to, None);
            let dc = to.col - from.col;
            let dr = to.row - from.row;
            let v = if dr >= 0 {
                Dir::Down
            } else {
                Dir::Up
            };
            let hz = if dc >= 0 {
                Dir::Right
            } else {
                Dir::Left
            };
            &&& d.len() >= 4
            &&& (abs(dr) >= abs(dc) ==> d[0] == v && d[1] == hz)
            &&& (abs(dr) < abs(dc) ==> d[0] == hz && d[1] == v)
            &&& forall|x: Dir| #[trigger] d.take(4).contains(x)
        }),
{
    let base = handle_dirs(None) + motion_dirs(from, to);
    assert(base =~= motion_dirs(from, to));
    lemma_fill_dirs_len(base, 4);
    lemma_fill_dirs_has_all(base);
    lemma_fill_dirs_nodup(base, 4);
    let d = fill_dirs(base, 4);
    assert forall|x: Dir| #[trigger] d.take(4).contains(x) by {
        lemma_four_distinct(d, x);
    }
}

/// With a handle, neighbours are pushed first toward the handle's sides
/// (south, east, north, west as it has them), then along the motion.
pub proof fn lemma_push_follows_handle(from: RectCells, to: RectCells, h: Handle)
    ensures
        ({
            let d = push_order(from, to, Some(h));
            let sides = handle_dirs(Some(h));
            &&& d.len() >= sides.len()
            &&& forall|k: int| 0 <= k < sides.len() ==> #[trigger] d[k] == sides[k]
        }),
{
    let sides = handle_dirs(Some(h));
    let base = sides + motion_dirs(from, to);
    lemma_fill_dirs_len(base, 4);
    assert forall|k: int| 0 <= k < sides.len() implies #[trigger] push_order(from, to, Some(h))[k]
        == sides[k] by {
        assert(base[k] == sides[k]);
    }
}

spec fn dir_num(d: Dir) -> int {
    match d {
        Dir::Down => 0,
        Dir::Right => 1,
        Dir::Left => 2,
        Dir::Up => 3,
    }
}

proof fn lemma_dir_num(x: Dir, y: Dir)
    ensures
        0 <= dir_num(x) < 4,
        dir_num(x) == dir_num(y) ==> x == y,
{
}

/// A list without repeats that holds every direction has them all in its
/// first four places.
proof fn lemma_four_distinct(d: Seq<Dir>, x: Dir)
    requires
        d.no_duplicates(),
        d.len() >= 4,
        forall|y: Dir| d.contains(y),
    ensures
        d.take(4).contains(x),
{
    assert(d.contains(x));
    if d.len() > 4 {
        assert forall|i: int, j: int| 0 <= i < j < 5 implies #[trigger] dir_num(d[i]) != #[trigger] dir_num(d[j]) by {
            lemma_dir_num(d[i], d[j]);
        }
        lemma_dir_num(d[0], d[0]);
        lemma_dir_num(d[1], d[1]);
        lemma_dir_num(d[2], d[2]);
        lemma_dir_num(d[3], d[3]);
        lemma_dir_num(d[4], d[4]);
        let a0 = dir_num(d[0]);
        let a1 = dir_num(d[1]);
        let a2 = dir_num(d[2]);
        let a3 = dir_num(d[3]);
        let a4 = dir_num(d[4]);
        assert(a0 != a1 && a0 != a2 && a0 != a3 && a0 != a4);
        assert(a1 != a2 && a1 != a3 && a1 != a4);
        assert(a2 != a3 && a2 != a4 && a3 != a4);
    }
    let k = choose|j: int| 0 <= j < d.len() && d[j] == x;
    assert(d.take(4) =~= d);
    assert(d.take(4)[k] == x);
}

proof fn lemma_fill_dirs_nodup(base: Seq<Dir>, n: int)
    requires
        base.no_duplicates(),
    ensures
        fill_dirs(base, n).no_duplicates(),
    decreases n,
{
    if n > 0 {
        lemma_fill_dirs_nodup(base, n - 1);
        let prev = fill_dirs(base, n - 1);
        let d = fallback_dirs()[n - 1];
        if !prev.contains(d) {
            let q = prev.push(d);
            assert forall|i: int, j: int| 0 <= i < j < q.len() implies q[i] != q[j] by {
                if j == prev.len() {
                    assert(q[i] == prev[i]);
                }
            }
        }
    }
}

} // verus!
