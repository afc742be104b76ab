use mechanix_home::geometry::{pos_px, Point, Pos};
use mechanix_home::grid::RectCells;
use mechanix_home::home::{
    Gesture, Home, HomeAction, Item, ItemId, Kind, TouchPhase, LONG_PRESS, PAGE_EDGE_HOLD,
};
use mechanix_home::pages::Pages;

const T0: u64 = 10_000_000_000;

fn widget(id: u32, page: u32, col: u32, row: u32) -> Item {
    Item {
        id: ItemId(id),
        cells: RectCells { page, col, row, col_span: 1, row_span: 1 },
        kind: Kind::Widget {
            command: "true".to_string(),
            surface: None,
            child: None,
            launch_failed: false,
            ever_mapped: false,
        },
    }
}

fn icon(id: u32, page: u32, col: u32, row: u32) -> Item {
    Item {
        id: ItemId(id),
        cells: RectCells { page, col, row, col_span: 1, row_span: 1 },
        kind: Kind::Icon {
            desktop: "/usr/share/applications/x.desktop".to_string(),
            exec_cmd: "x-app".to_string(),
            hue: 0,
        },
    }
}

fn test_home(items: Vec<Item>) -> Home {
    Home {
        columns: 4,
        rows: 6,
        pages: Pages::default(),
        items,
        output_w: 1280,
        output_h: 800,
        edit: false,
        selected: None,
        gesture: Gesture::Idle,
        drag_px: 0,
        last_pos: Pos { x: 0, y: 0 },
        drag_snapshot: None,
        lift_loc: Point { x: 0, y: 0 },
        frame_preview: None,
        page_edge: None,
        wait: None,
        touch_grab: None,
        touch_steal: None,
        persist: false,
        kills: Vec::new(),
    }
}

#[test]
fn edge_hold_moves_lifted_item_to_the_next_page() {
    let mut home = test_home(vec![widget(1, 0, 0, 0), widget(2, 1, 0, 0)]);
    let id = ItemId(1);
    home.start_lift(id, pos_px(40, 40), T0);
    assert_eq!(home.page(), 0);
    home.pointer_move(pos_px(1270, 40), T0);
    assert_eq!(home.page(), 0);
    assert!(home.page_edge.is_some());
    if let Some((_, t0)) = home.page_edge.as_mut() {
        *t0 = T0 - PAGE_EDGE_HOLD - 1_000_000;
    }
    home.tick(T0);
    assert_eq!(home.page(), 1);
    assert_eq!(home.cells_of(id).page, 1);
}

#[test]
fn edge_hold_moves_lifted_item_to_the_previous_page() {
    let mut home = test_home(vec![widget(1, 1, 0, 0), widget(2, 0, 0, 0)]);
    home.set_page(1);
    let id = ItemId(1);
    home.start_lift(id, pos_px(640, 40), T0);
    home.pointer_move(pos_px(10, 40), T0);
    if let Some((_, t0)) = home.page_edge.as_mut() {
        *t0 = T0 - PAGE_EDGE_HOLD - 1_000_000;
    }
    home.tick(T0);
    assert_eq!(home.page(), 0);
    assert_eq!(home.cells_of(id).page, 0);
}

#[test]
fn compact_pages_removes_a_middle_hole() {
    let mut home = test_home(vec![widget(1, 0, 0, 0), widget(2, 2, 0, 0)]);
    home.compact_pages();
    assert_eq!(home.cells_of(ItemId(1)).page, 0);
    assert_eq!(home.cells_of(ItemId(2)).page, 1);
    assert_eq!(home.page_count(), 2);
}

#[test]
fn cells_of_a_missing_item_is_the_first_cell() {
    let home = test_home(vec![widget(1, 0, 2, 3)]);
    assert_eq!(home.cells_of(ItemId(9)), RectCells { page: 0, col: 0, row: 0, col_span: 1, row_span: 1 });
    assert_eq!(home.cells_of(ItemId(1)).col, 2);
}

#[test]
fn edge_hold_is_armed_only_at_the_edge() {
    let mut home = test_home(vec![widget(1, 0, 0, 0), widget(2, 1, 0, 0)]);
    home.start_lift(ItemId(1), pos_px(40, 40), T0);
    home.pointer_move(pos_px(600, 40), T0);
    assert!(home.page_edge.is_none());
    home.pointer_move(pos_px(1270, 40), T0);
    assert_eq!(home.page_edge.map(|e| e.0), Some(1));
    assert_eq!(home.take_wait(), Some(PAGE_EDGE_HOLD));
    assert_eq!(home.take_wait(), None);
    // Not held long enough yet: no flip.
    home.tick(T0 + PAGE_EDGE_HOLD - 1);
    assert_eq!(home.page(), 0);
}

#[test]
fn tap_on_a_widget_clicks_it() {
    let mut home = test_home(vec![widget(1, 0, 0, 0)]);
    let p = pos_px(40, 40);
    assert!(matches!(home.pointer_down(p, T0), HomeAction::NoOp));
    let a = home.pointer_up(p, T0 + 1_000_000, 0);
    assert!(matches!(a, HomeAction::PointerClick { pos } if pos == p));
    assert!(matches!(home.gesture, Gesture::Idle));
}

#[test]
fn tap_on_an_icon_launches_it() {
    let mut home = test_home(vec![icon(1, 0, 0, 0)]);
    let p = pos_px(40, 40);
    home.pointer_down(p, T0);
    let a = home.pointer_up(p, T0 + 1_000_000, 0);
    assert!(matches!(a, HomeAction::Launch(ref s) if s == "x-app"));
}

#[test]
fn long_press_enters_edit_mode_and_lifts() {
    let mut home = test_home(vec![widget(1, 0, 0, 0)]);
    home.pointer_down(pos_px(40, 40), T0);
    assert_eq!(home.take_wait(), Some(LONG_PRESS));
    assert!(matches!(home.tick(T0 + LONG_PRESS - 1), HomeAction::NoOp));
    assert!(!home.edit);
    home.tick(T0 + LONG_PRESS);
    assert!(home.edit);
    assert_eq!(home.selected, Some(ItemId(1)));
    assert_eq!(home.lifted(), Some(ItemId(1)));
}

#[test]
fn swipe_left_moves_to_the_next_page() {
    let mut home = test_home(vec![widget(1, 0, 0, 0), widget(2, 1, 0, 0)]);
    home.pointer_down(pos_px(900, 700), T0);
    home.pointer_move(pos_px(600, 700), T0 + 1_000_000);
    assert!(matches!(home.gesture, Gesture::Swipe { .. }));
    home.pointer_up(pos_px(600, 700), T0 + 2_000_000, 1);
    assert_eq!(home.page(), 1);
}

#[test]
fn swipe_release_moves_at_most_one_page() {
    let items = vec![widget(1, 0, 0, 0), widget(2, 1, 0, 0), widget(3, 2, 0, 0), widget(4, 3, 0, 0)];
    let mut home = test_home(items);
    home.pointer_down(pos_px(900, 700), T0);
    home.pointer_move(pos_px(600, 700), T0 + 1_000_000);
    home.set_page_drag(-300);
    // However hard the caller flings, the page turns by one.
    home.pointer_up(pos_px(600, 700), T0 + 2_000_000, 5);
    assert_eq!(home.page(), 1);
    // The offset is now seen from the landed page: one width further.
    assert_eq!(home.drag_px, home.output_w - 300);
}

#[test]
fn swipe_release_back_from_the_first_page_stays() {
    let mut home = test_home(vec![widget(1, 0, 0, 0), widget(2, 1, 0, 0)]);
    home.pointer_down(pos_px(300, 700), T0);
    home.pointer_move(pos_px(600, 700), T0 + 1_000_000);
    home.set_page_drag(96);
    home.pointer_up(pos_px(600, 700), T0 + 2_000_000, -1);
    assert_eq!(home.page(), 0);
    assert_eq!(home.drag_px, 96);
}

#[test]
fn swipe_release_without_a_turn_keeps_the_page() {
    let mut home = test_home(vec![widget(1, 0, 0, 0), widget(2, 1, 0, 0)]);
    home.set_page(1);
    home.pointer_down(pos_px(600, 700), T0);
    home.pointer_move(pos_px(900, 700), T0 + 1_000_000);
    home.set_page_drag(40);
    home.pointer_up(pos_px(900, 700), T0 + 2_000_000, 0);
    assert_eq!(home.page(), 1);
    assert_eq!(home.drag_px, 40);
}

#[test]
fn touch_cancel_of_a_swipe_returns_to_the_origin_page() {
    let mut home = test_home(vec![widget(1, 0, 0, 0), widget(2, 1, 0, 0)]);
    home.pointer_down(pos_px(900, 700), T0);
    home.pointer_move(pos_px(600, 700), T0 + 1_000_000);
    home.set_page_drag(-300);
    assert!(matches!(home.touch_cancel(), HomeAction::Relocate));
    assert_eq!(home.page(), 0);
    assert_eq!(home.drag_px, 0);
    assert!(matches!(home.gesture, Gesture::Idle));
}

#[test]
fn touch_swipe_cancels_the_finger_in_the_nest() {
    let mut home = test_home(vec![widget(1, 0, 0, 0), widget(2, 1, 0, 0)]);
    let a = home.touch_down(pos_px(40, 40), 7, T0);
    assert!(matches!(a, HomeAction::Touch { id: 7, phase: TouchPhase::Down, .. }));
    home.pointer_move(pos_px(400, 40), T0 + 1_000_000);
    assert_eq!(home.take_touch_steal(), Some(7));
    assert_eq!(home.take_touch_steal(), None);
}

#[test]
fn touch_cancel_returns_to_idle() {
    let mut home = test_home(vec![widget(1, 0, 0, 0)]);
    home.touch_down(pos_px(40, 40), 3, T0);
    home.touch_cancel();
    assert!(matches!(home.gesture, Gesture::Idle));
}

#[test]
fn last_pos_follows_the_pointer() {
    let mut home = test_home(vec![]);
    home.pointer_move(pos_px(12, 34), T0);
    assert_eq!(home.last_pos(), pos_px(12, 34));
}

#[test]
fn output_size_and_drag_are_recorded() {
    let mut home = test_home(vec![]);
    home.set_output_size(720, 1440);
    home.set_page_drag(-15);
    assert_eq!((home.output_w, home.output_h, home.drag_px), (720, 1440, -15));
    assert!(home.within_limits());
}

#[test]
fn cancelling_a_lift_after_moves_restores_every_item() {
    let mut home = test_home(vec![widget(1, 0, 0, 0), widget(2, 0, 1, 0), widget(3, 0, 0, 1)]);
    home.pointer_down(pos_px(40, 40), T0);
    home.tick(T0 + LONG_PRESS);
    assert_eq!(home.lifted(), Some(ItemId(1)));
    home.pointer_move(pos_px(360, 40), T0 + LONG_PRESS + 1_000_000);
    home.pointer_move(pos_px(360, 200), T0 + LONG_PRESS + 2_000_000);
    home.tick(T0 + LONG_PRESS + 3_000_000);
    assert!(matches!(home.touch_cancel(), HomeAction::Relayout));
    assert!(matches!(home.gesture, Gesture::Idle));
    assert_eq!(home.lifted(), None);
    assert!(!home.persist);
    assert_eq!(home.cells_of(ItemId(1)), RectCells { page: 0, col: 0, row: 0, col_span: 1, row_span: 1 });
    assert_eq!(home.cells_of(ItemId(2)), RectCells { page: 0, col: 1, row: 0, col_span: 1, row_span: 1 });
    assert_eq!(home.cells_of(ItemId(3)), RectCells { page: 0, col: 0, row: 1, col_span: 1, row_span: 1 });
}

#[test]
fn the_layout_fits_any_output_whose_strip_stays_in_pixel_range() {
    let mut home = test_home(vec![widget(1, 0, 0, 0), widget(2, 60_000, 0, 0)]);
    home.output_w = 1000;
    // 60 000 pages of 1 000 px are 60 million pixels: in range.
    assert!(home.size_fits(1000, 800));
    // Of 1 280 px they are 76.8 million: out of range.
    assert!(!home.size_fits(1280, 800));
    // An output wider than the pixel range never fits.
    assert!(!home.size_fits(0x800_0000, 800));
}

#[test]
fn events_need_room_for_one_more_page() {
    let mut home = test_home(vec![widget(1, 0, 0, 0)]);
    assert!(home.within_limits());
    home.set_output_size(0x400_0000, 800);
    // One page plus the spare page of a full-range width leave no room.
    assert!(!home.within_limits());
}
