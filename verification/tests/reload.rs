use mechanix_home::config::{HomeConfig, IconConfig, SlotConfig};
use mechanix_home::geometry::{Point, Pos};
use mechanix_home::grid::RectCells;
use mechanix_home::home::{Gesture, Home, HomeAction, Item, ItemId, Kind, SurfaceId};
use mechanix_home::pages::Pages;

fn widget(id: u32, page: u32, col: u32, row: u32) -> Item {
    Item {
        id: ItemId(id),
        cells: RectCells { page, col, row, col_span: 1, row_span: 1 },
        kind: Kind::Widget {
            command: "true".to_string(),
            surface: None,
            child: None,
            launch_failed: false,
            ever_mapped: false,
        },
    }
}

fn test_home(items: Vec<Item>) -> Home {
    Home {
        columns: 4,
        rows: 6,
        pages: Pages::default(),
        items,
        output_w: 1280,
        output_h: 800,
        edit: false,
        selected: None,
        gesture: Gesture::Idle,
        drag_px: 0,
        last_pos: Pos { x: 0, y: 0 },
        drag_snapshot: None,
        lift_loc: Point { x: 0, y: 0 },
        frame_preview: None,
        page_edge: None,
        wait: None,
        touch_grab: None,
        touch_steal: None,
        persist: false,
        kills: Vec::new(),
    }
}

fn slot(page: u32, col: u32, row: u32, span: u32, command: &str) -> SlotConfig {
    SlotConfig { page, col, row, col_span: span, row_span: span, command: command.to_string() }
}

fn config(slots: Vec<SlotConfig>, icons: Vec<IconConfig>) -> HomeConfig {
    HomeConfig { columns: 4, rows: 6, slots, icons }
}

#[test]
fn reload_moves_a_widget_slot_without_respawning() {
    let mut home = test_home(vec![widget(1, 0, 0, 0)]);
    let cfg = config(vec![slot(0, 2, 1, 1, "true")], vec![]);
    assert!(home.accepts(&cfg));
    let action = home.reload(&cfg, &vec![]);
    assert!(matches!(action, HomeAction::Reload { close } if close.is_empty()));
    assert_eq!(home.cells_of(ItemId(1)).col, 2);
    assert_eq!(home.cells_of(ItemId(1)).row, 1);
}

#[test]
fn reloading_the_layout_on_screen_does_nothing() {
    let mut home = test_home(vec![widget(1, 0, 1, 1), widget(2, 1, 0, 0)]);
    let cfg = home.current_config();
    assert!(matches!(home.reload(&cfg, &vec![]), HomeAction::NoOp));
    assert_eq!(home.items.len(), 2);
    assert!(!home.persist);
}

#[test]
fn current_config_lists_slots_then_icons() {
    let mut items = vec![widget(1, 0, 1, 2)];
    items.push(Item {
        id: ItemId(2),
        cells: RectCells { page: 1, col: 3, row: 4, col_span: 1, row_span: 1 },
        kind: Kind::Icon { desktop: "a.desktop".to_string(), exec_cmd: "a".to_string(), hue: 0 },
    });
    let home = test_home(items);
    let cfg = home.current_config();
    assert_eq!((cfg.columns, cfg.rows), (4, 6));
    assert_eq!(cfg.slots.len(), 1);
    assert_eq!((cfg.slots[0].col, cfg.slots[0].row, cfg.slots[0].command.as_str()), (1, 2, "true"));
    assert_eq!(cfg.icons.len(), 1);
    assert_eq!((cfg.icons[0].page, cfg.icons[0].desktop.as_str()), (1, "a.desktop"));
}

#[test]
fn dropped_widget_is_closed_and_its_process_killed() {
    let mut items = vec![widget(1, 0, 0, 0)];
    items[0].kind = Kind::Widget {
        command: "old-app".to_string(),
        surface: Some(SurfaceId(44)),
        child: Some(4242),
        launch_failed: false,
        ever_mapped: true,
    };
    let mut home = test_home(items);
    let cfg = config(vec![slot(0, 0, 0, 1, "new-app")], vec![]);
    let action = home.reload(&cfg, &vec![]);
    assert!(matches!(action, HomeAction::Reload { close } if close == vec![SurfaceId(44)]));
    assert_eq!(home.kills, vec![4242]);
    assert_eq!(home.items.len(), 1);
    assert_eq!(home.items[0].id, ItemId(2));
    assert!(matches!(&home.items[0].kind, Kind::Widget { command, child: None, .. } if command == "new-app"));
}

#[test]
fn reload_keeps_exact_match_over_first_match() {
    let mut home = test_home(vec![widget(1, 0, 0, 0), widget(2, 0, 1, 0)]);
    let cfg = config(vec![slot(0, 1, 0, 1, "true")], vec![]);
    home.reload(&cfg, &vec![]);
    assert_eq!(home.items.len(), 1);
    assert_eq!(home.items[0].id, ItemId(2));
}

#[test]
fn reload_adds_icons_with_their_commands() {
    let mut home = test_home(vec![widget(1, 0, 0, 0)]);
    let icons = vec![IconConfig { page: 0, col: 3, row: 5, desktop: "b.desktop".to_string() }];
    let cfg = config(vec![slot(0, 0, 0, 1, "true")], icons);
    home.reload(&cfg, &vec!["b-app".to_string()]);
    assert_eq!(home.items.len(), 2);
    assert_eq!(home.items[1].id, ItemId(2));
    assert!(matches!(&home.items[1].kind, Kind::Icon { exec_cmd, hue: 0, .. } if exec_cmd == "b-app"));
}

#[test]
fn reload_with_a_compacted_result_asks_for_write_back() {
    let mut home = test_home(vec![widget(1, 0, 0, 0)]);
    let cfg = config(vec![slot(3, 0, 0, 1, "true")], vec![]);
    home.reload(&cfg, &vec![]);
    assert_eq!(home.cells_of(ItemId(1)).page, 0);
    assert!(home.persist);
}

#[test]
fn reload_drops_the_selection_of_a_removed_item() {
    let mut home = test_home(vec![widget(1, 0, 0, 0), widget(2, 0, 1, 0)]);
    home.edit = true;
    home.selected = Some(ItemId(2));
    let cfg = config(vec![slot(0, 0, 0, 1, "true")], vec![]);
    home.reload(&cfg, &vec![]);
    assert_eq!(home.selected, None);
}

#[test]
fn load_numbers_slots_then_icons() {
    let icons = vec![IconConfig { page: 0, col: 0, row: 4, desktop: "c.desktop".to_string() }];
    let cfg = config(vec![slot(0, 0, 0, 2, "a"), slot(2, 0, 0, 0, "b")], icons);
    let home = Home::load(&cfg, &vec!["c".to_string()]);
    assert_eq!(home.items.len(), 3);
    assert_eq!(home.items[0].id, ItemId(1));
    assert_eq!(home.items[1].id, ItemId(2));
    assert_eq!(home.items[2].id, ItemId(3));
    // Spans are at least one cell; page 2 is compacted to page 1.
    assert_eq!(home.items[1].cells, RectCells { page: 1, col: 0, row: 0, col_span: 1, row_span: 1 });
    assert!(!home.persist);
}

#[test]
fn default_config_is_the_checked_in_layout() {
    let cfg = HomeConfig::default();
    assert_eq!((cfg.columns, cfg.rows), (4, 6));
    assert_eq!(cfg.slots.len(), 3);
    assert_eq!(cfg.slots[0].command, "weston-simple-egl");
    assert_eq!(cfg.slots[2].page, 1);
    assert_eq!(cfg.icons[0].desktop, "/usr/share/applications/org.gtk.Demo4.desktop");
}

#[test]
fn accepts_rejects_oversized_grids() {
    let home = test_home(vec![]);
    let mut cfg = config(vec![], vec![]);
    // Columns of one pixel each, plus gaps, overrun the pixel range.
    cfg.columns = 4_000_000;
    assert!(!home.accepts(&cfg));
}

#[test]
fn accepts_large_grids_that_fit_the_screen() {
    let home = test_home(vec![]);
    let mut cfg = config(vec![], vec![]);
    cfg.columns = 5000;
    cfg.rows = 5000;
    assert!(home.accepts(&cfg));
}
