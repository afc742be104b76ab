use mechanix_home::geometry::{Point, Pos, Rect};
use mechanix_home::grid::RectCells;
use mechanix_home::home::{Gesture, Home, Item, ItemId, Kind, SurfaceId};
use mechanix_home::pages::Pages;
use mechanix_home::widgets::spawn_owns_pid;

fn slot_item(id: u32, page: u32, command: &str) -> Item {
    Item {
        id: ItemId(id),
        cells: RectCells { page, col: 0, row: 0, col_span: 1, row_span: 1 },
        kind: Kind::Widget {
            command: command.to_string(),
            surface: None,
            child: None,
            launch_failed: false,
            ever_mapped: false,
        },
    }
}

fn home_of(items: Vec<Item>) -> Home {
    Home {
        columns: 4,
        rows: 6,
        pages: Pages::default(),
        items,
        output_w: 1280,
        output_h: 800,
        edit: false,
        selected: None,
        gesture: Gesture::Idle,
        drag_px: 0,
        last_pos: Pos { x: 0, y: 0 },
        drag_snapshot: None,
        lift_loc: Point { x: 0, y: 0 },
        frame_preview: None,
        page_edge: None,
        wait: None,
        touch_grab: None,
        touch_steal: None,
        persist: false,
        kills: Vec::new(),
    }
}

#[test]
fn spawns_wait_for_an_output_size() {
    let mut home = home_of(vec![slot_item(1, 0, "clock")]);
    home.output_w = 0;
    assert!(home.next_spawn().is_none());
    home.output_w = 1280;
    assert_eq!(home.next_spawn(), Some((ItemId(1), "clock".to_string())));
}

#[test]
fn blank_commands_are_never_started() {
    let home = home_of(vec![slot_item(1, 0, "  \t "), slot_item(2, 0, "weather")]);
    assert_eq!(home.next_spawn(), Some((ItemId(2), "weather".to_string())));
}

#[test]
fn one_unclaimed_start_at_a_time() {
    let mut home = home_of(vec![slot_item(1, 0, "a"), slot_item(2, 0, "b")]);
    home.spawn_done(ItemId(1), Some(100));
    assert!(home.next_spawn().is_none());
    assert!(home.attach_spawned(SurfaceId(9), 100, -1));
    assert_eq!(home.next_spawn(), Some((ItemId(2), "b".to_string())));
}

#[test]
fn failed_start_is_not_retried() {
    let mut home = home_of(vec![slot_item(1, 0, "missing-binary")]);
    home.spawn_done(ItemId(1), None);
    assert!(home.next_spawn().is_none());
    assert!(matches!(home.items[0].kind, Kind::Widget { launch_failed: true, .. }));
}

#[test]
fn exit_before_mapping_counts_as_failure() {
    let mut home = home_of(vec![slot_item(1, 0, "a"), slot_item(2, 0, "b")]);
    home.spawn_done(ItemId(1), Some(100));
    home.reap(100);
    assert!(matches!(home.items[0].kind, Kind::Widget { child: None, launch_failed: true, .. }));
    home.spawn_done(ItemId(2), Some(200));
    home.attach_spawned(SurfaceId(5), 200, -1);
    home.reap(200);
    assert!(matches!(home.items[1].kind, Kind::Widget { child: None, launch_failed: false, ever_mapped: true, .. }));
}

#[test]
fn toplevel_of_another_process_is_not_claimed() {
    let mut home = home_of(vec![slot_item(1, 0, "a")]);
    home.spawn_done(ItemId(1), Some(100));
    assert!(!home.attach_spawned(SurfaceId(9), 555, 556));
    assert!(home.attach_spawned(SurfaceId(9), 555, 100));
    assert!(home.attach_spawned(SurfaceId(9), 1, -1));
}

#[test]
fn spawn_ownership_by_pid_or_group() {
    assert!(spawn_owns_pid(10, 10, -1));
    assert!(spawn_owns_pid(10, 11, 10));
    assert!(!spawn_owns_pid(10, 11, 12));
    assert!(!spawn_owns_pid(10, 11, -1));
}

#[test]
fn dead_surfaces_are_released() {
    let mut home = home_of(vec![slot_item(1, 0, "a"), slot_item(2, 0, "b")]);
    home.spawn_done(ItemId(1), Some(100));
    home.attach_spawned(SurfaceId(7), 100, -1);
    home.release_dead(&[SurfaceId(3), SurfaceId(7)]);
    assert!(matches!(home.items[0].kind, Kind::Widget { surface: None, .. }));
}

#[test]
fn slot_rect_and_screen_list_follow_pages() {
    let mut home = home_of(vec![slot_item(1, 0, "a"), slot_item(2, 3, "b")]);
    home.spawn_done(ItemId(1), Some(100));
    home.attach_spawned(SurfaceId(7), 100, -1);
    home.spawn_done(ItemId(2), Some(200));
    home.attach_spawned(SurfaceId(8), 200, -1);
    // cell: (1280 - 16 * 5) / 4 = 300 wide, (800 - 16 * 7) / 6 = 114 tall.
    assert_eq!(home.slot_rect(SurfaceId(7)), Some(Rect { x: 16, y: 16, w: 300, h: 114 }));
    assert_eq!(home.slot_rect(SurfaceId(99)), None);
    assert_eq!(home.widgets_on_screen(), vec![SurfaceId(7)]);
    home.set_page(2);
    assert_eq!(home.widgets_on_screen(), vec![SurfaceId(8)]);
    assert!(home.page_nearby(3) && !home.page_nearby(0));
}

#[test]
fn lifted_surface_is_the_carried_widget() {
    let mut home = home_of(vec![slot_item(1, 0, "a")]);
    home.spawn_done(ItemId(1), Some(100));
    home.attach_spawned(SurfaceId(7), 100, -1);
    assert_eq!(home.lifted_surface(), None);
    home.start_lift(ItemId(1), mechanix_home::geometry::pos_px(40, 40), 1_000_000_000);
    assert_eq!(home.lifted_surface(), Some(SurfaceId(7)));
}
