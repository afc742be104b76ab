use mechanix_home::chrome::Handle;
use mechanix_home::geometry::{pos_px, rect};
use mechanix_home::grid::{
    nearest_cell, overlaps, push_dirs, push_resolve, resize_cells, resize_preview,
    snapshot_cells_of, Dir, GridMetrics, RectCells,
};
use mechanix_home::home::ItemId;

fn cells(page: u32, col: u32, row: u32, cs: u32, rs: u32) -> RectCells {
    RectCells { page, col, row, col_span: cs, row_span: rs }
}

#[test]
fn overlap_needs_the_same_page_and_shared_cells() {
    assert!(overlaps(cells(0, 0, 0, 2, 2), cells(0, 1, 1, 1, 1)));
    assert!(!overlaps(cells(0, 0, 0, 2, 2), cells(0, 2, 0, 1, 1)));
    assert!(!overlaps(cells(0, 0, 0, 2, 2), cells(1, 0, 0, 1, 1)));
    assert!(overlaps(cells(0, 1, 1, 1, 1), cells(0, 0, 0, 2, 2)));
}

#[test]
fn snapshot_lookup() {
    let snap = vec![(ItemId(1), cells(0, 0, 0, 1, 1)), (ItemId(2), cells(0, 1, 0, 1, 1))];
    assert_eq!(snapshot_cells_of(&snap, ItemId(2)), Some(cells(0, 1, 0, 1, 1)));
    assert_eq!(snapshot_cells_of(&snap, ItemId(3)), None);
}

#[test]
fn push_resolve_moves_the_neighbour_out_of_the_hole() {
    let snap = vec![(ItemId(1), cells(0, 0, 0, 1, 1)), (ItemId(2), cells(0, 1, 0, 1, 1))];
    let placed = push_resolve(&snap, ItemId(1), cells(0, 1, 0, 1, 1), Dir::Right, 4, 6).unwrap();
    let c1 = placed.iter().find(|(id, _)| *id == ItemId(1)).unwrap().1;
    let c2 = placed.iter().find(|(id, _)| *id == ItemId(2)).unwrap().1;
    assert_eq!(c1, cells(0, 1, 0, 1, 1));
    assert_eq!(c2, cells(0, 2, 0, 1, 1));
    assert!(!overlaps(c1, c2));
}

#[test]
fn push_resolve_fails_at_the_grid_edge() {
    let snap = vec![(ItemId(1), cells(0, 2, 0, 1, 1)), (ItemId(2), cells(0, 3, 0, 1, 1))];
    assert!(push_resolve(&snap, ItemId(1), cells(0, 3, 0, 1, 1), Dir::Right, 4, 6).is_none());
}

#[test]
fn push_dirs_starts_with_the_direction_of_travel() {
    let from = cells(0, 0, 0, 1, 1);
    let to = cells(0, 2, 0, 1, 1);
    let dirs = push_dirs(from, to, None);
    assert_eq!(dirs[0], Dir::Right);
    assert_eq!(dirs[1], Dir::Down);
    assert!([Dir::Left, Dir::Right, Dir::Up, Dir::Down].iter().all(|d| dirs.contains(d)));
    let by_handle = push_dirs(from, to, Some(Handle::TopLeft));
    assert_eq!(by_handle[0], Dir::Up);
    assert_eq!(by_handle[1], Dir::Left);
}

#[test]
fn nearest_cell_rounds_and_clamps() {
    assert_eq!(nearest_cell(16, 16, 316, 3), 0);
    assert_eq!(nearest_cell(16 + 316 + 150, 16, 316, 3), 1);
    assert_eq!(nearest_cell(16 + 316 + 170, 16, 316, 3), 2);
    assert_eq!(nearest_cell(-500, 16, 316, 3), 0);
    assert_eq!(nearest_cell(5000, 16, 316, 3), 3);
}

#[test]
fn resize_preview_follows_the_right_handle() {
    let origin = rect(16, 16, 300, 114);
    let r = resize_preview(origin, Handle::Right, pos_px(500, 50), 60, 60);
    assert_eq!(r, rect(16, 16, 484, 114));
    let small = resize_preview(origin, Handle::Right, pos_px(20, 50), 60, 60);
    assert_eq!(small.w, 60);
}

#[test]
fn resize_cells_snaps_at_mid_cell() {
    let grid = GridMetrics { columns: 4, rows: 6, cw: 300, ch: 114 };
    let origin = cells(0, 0, 0, 1, 1);
    let origin_rect = rect(16, 16, 300, 114);
    let wider = resize_cells(origin, origin_rect, Handle::Right, pos_px(16 + 300 + 16 + 160, 50), grid);
    assert_eq!(wider.col_span, 2);
    let same = resize_cells(origin, origin_rect, Handle::Right, pos_px(16 + 300 + 16 + 140, 50), grid);
    assert_eq!(same.col_span, 1);
}

#[test]
fn push_cascade_leaves_other_pages_and_moves_only_along_the_push() {
    let snap = vec![
        (ItemId(1), cells(0, 0, 2, 1, 1)),
        (ItemId(2), cells(0, 0, 1, 1, 2)),
        (ItemId(3), cells(0, 0, 3, 2, 1)),
        (ItemId(4), cells(1, 0, 1, 1, 1)),
    ];
    let placed = push_resolve(&snap, ItemId(1), cells(0, 0, 1, 1, 1), Dir::Down, 4, 6).unwrap();
    assert_eq!(placed[0].1, cells(0, 0, 1, 1, 1));
    // Pushed down past the hole, then pushes the next one down too.
    assert_eq!(placed[1].1, cells(0, 0, 2, 1, 2));
    assert_eq!(placed[2].1, cells(0, 0, 4, 2, 1));
    // Another page is not touched.
    assert_eq!(placed[3].1, cells(1, 0, 1, 1, 1));
    for (_, c) in &placed {
        assert!(c.row + c.row_span <= 6 && c.col + c.col_span <= 4);
    }
}

#[test]
fn a_cell_step_is_refused_only_at_the_edge() {
    let mut c = cells(0, 2, 0, 2, 1);
    assert!(!Dir::Right.step(&mut c, 4, 6));
    assert_eq!(c, cells(0, 2, 0, 2, 1));
    assert!(!Dir::Up.step(&mut c, 4, 6));
    assert!(Dir::Left.step(&mut c, 4, 6));
    assert_eq!(c, cells(0, 1, 0, 2, 1));
    assert!(Dir::Down.step(&mut c, 4, 6));
    assert_eq!(c, cells(0, 1, 1, 2, 1));
    let mut low = cells(3, 0, 5, 1, 1);
    assert!(!Dir::Down.step(&mut low, 4, 6));
    assert_eq!(low, cells(3, 0, 5, 1, 1));
}
