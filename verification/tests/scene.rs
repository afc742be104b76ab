use mechanix_home::chrome::Paint;
use mechanix_home::geometry::{pos_px, Point, Pos, Rect};
use mechanix_home::grid::RectCells;
use mechanix_home::home::{Gesture, Home, Item, ItemId, Kind};
use mechanix_home::pages::Pages;

fn icon_item(id: u32, page: u32, col: u32, hue: u32) -> Item {
    Item {
        id: ItemId(id),
        cells: RectCells { page, col, row: 0, col_span: 1, row_span: 1 },
        kind: Kind::Icon { desktop: "i.desktop".to_string(), exec_cmd: "i".to_string(), hue },
    }
}

fn screen(items: Vec<Item>) -> Home {
    Home {
        columns: 4,
        rows: 6,
        pages: Pages::default(),
        items,
        output_w: 1280,
        output_h: 800,
        edit: false,
        selected: None,
        gesture: Gesture::Idle,
        drag_px: 0,
        last_pos: Pos { x: 0, y: 0 },
        drag_snapshot: None,
        lift_loc: Point { x: 0, y: 0 },
        frame_preview: None,
        page_edge: None,
        wait: None,
        touch_grab: None,
        touch_steal: None,
        persist: false,
        kills: Vec::new(),
    }
}

#[test]
fn idle_screen_paints_only_nearby_icons() {
    let home = screen(vec![icon_item(1, 0, 0, 3), icon_item(2, 5, 0, 4)]);
    let fills = home.fills();
    assert_eq!(fills.len(), 1);
    assert_eq!(fills[0].paint, Paint::Icon(3));
    assert_eq!(fills[0].rect, Rect { x: 16, y: 16, w: 300, h: 114 });
}

#[test]
fn edit_mode_paints_dots_borders_and_frame() {
    let mut home = screen(vec![icon_item(1, 0, 0, 0), icon_item(2, 0, 1, 0)]);
    home.edit = true;
    home.selected = Some(ItemId(1));
    let fills = home.fills();
    let dots = 5 * 7;
    assert!(fills[..dots].iter().all(|f| f.paint == Paint::DotFill));
    // First dot: gap / 2 from the corner, 5 px square.
    assert_eq!(fills[0].rect, Rect { x: 8 - 2, y: 8 - 2, w: 5, h: 5 });
    // Second dot in the row: one cell pitch (300 + 16) to the right.
    assert_eq!(fills[1].rect.x, 8 + 316 - 2);
    // Two icons, one idle border (the unselected icon), the edit frame
    // without handles (an icon) but with the close knob.
    assert_eq!(fills.len(), dots + 2 + 4 + (4 + 2));
    assert_eq!(fills[fills.len() - 1].paint, Paint::CloseFill);
}

#[test]
fn lifted_item_paints_hole_and_shadow() {
    let mut home = screen(vec![icon_item(1, 0, 0, 0)]);
    home.start_lift(ItemId(1), pos_px(40, 40), 1_000_000_000);
    let fills = home.fills();
    assert!(fills.iter().any(|f| f.paint == Paint::HoleBorder));
    assert!(fills.iter().any(|f| f.paint == Paint::ShadowFill));
}
