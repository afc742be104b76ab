use mechanix_home::chrome::{
    close_rect, edit_overlay, grid_dot, handle_anchor, handle_rect, handle_size, hit_close,
    hit_handle, hole_overlay, idle_border, lift_overlay, Fill, Handle, Paint, CLOSE, DOT,
};
use mechanix_home::geometry::{pos_px, rect, Point, Pos, Rect};

fn tile() -> Rect {
    rect(16, 536, 300, 114)
}

#[test]
fn close_is_a_small_square_on_the_top_right() {
    let c = close_rect(tile());
    assert_eq!(c.w, CLOSE);
    assert_eq!(c.h, CLOSE);
    assert!(c.x > tile().x + tile().w / 2);
    assert!(c.y < tile().y + tile().h / 2);
    assert!(c.x + c.w <= tile().x + tile().w);
}

#[test]
fn handle_rect_is_centered_on_the_anchor() {
    let t = tile();
    for handle in Handle::all() {
        let a = handle_anchor(t, handle);
        let r = handle_rect(t, handle);
        let (w, h) = handle_size(handle);
        assert_eq!(r.w, w);
        assert_eq!(r.h, h);
        let cx = r.x as f64 + r.w as f64 / 2.0;
        let cy = r.y as f64 + r.h as f64 / 2.0;
        let ax = a.x as f64 / 256.0;
        let ay = a.y as f64 / 256.0;
        assert!((cx - ax).abs() < 1.0);
        assert!((cy - ay).abs() < 1.0);
        assert!(hit_handle(t, a).is_some());
    }
}

#[test]
fn handle_sides_match_their_names() {
    assert!(Handle::Left.west() && !Handle::Left.east());
    assert!(Handle::TopRight.north() && Handle::TopRight.east());
    assert!(Handle::BottomLeft.south() && Handle::BottomLeft.west());
    assert!(!Handle::Top.west() && !Handle::Top.east() && Handle::Top.north());
    assert!(Handle::Bottom.south() && !Handle::Bottom.north());
}

#[test]
fn handle_sizes_are_wide_on_horizontal_edges() {
    assert_eq!(handle_size(Handle::Top), (24, 16));
    assert_eq!(handle_size(Handle::Left), (16, 24));
    assert_eq!(handle_size(Handle::TopLeft), (24, 24));
}

#[test]
fn anchor_of_top_left_is_the_tile_corner() {
    let a = handle_anchor(tile(), Handle::TopLeft);
    assert_eq!(a, Pos { x: 16 * 256, y: 536 * 256 });
    let b = handle_anchor(tile(), Handle::BottomRight);
    assert_eq!(b, Pos { x: 316 * 256, y: 650 * 256 });
}

#[test]
fn close_hit_inside_and_outside() {
    let c = close_rect(tile());
    assert!(hit_close(tile(), pos_px(c.x + 1, c.y + 1)));
    assert!(!hit_close(tile(), pos_px(tile().x + 2, tile().y + 60)));
}

#[test]
fn grid_dot_is_centered_on_the_point() {
    let f = grid_dot(Point { x: 100, y: 50 });
    assert_eq!(f, Fill { rect: rect(100 - DOT / 2, 50 - DOT / 2, DOT, DOT), paint: Paint::DotFill });
}

#[test]
fn overlays_draw_four_strips_around_the_tile() {
    let t = rect(10, 20, 100, 50);
    let hole = hole_overlay(t);
    assert_eq!(hole.len(), 4);
    assert_eq!(hole[0].rect, rect(8, 18, 104, 2));
    assert_eq!(hole[1].rect, rect(8, 70, 104, 2));
    assert_eq!(hole[2].rect, rect(8, 20, 2, 50));
    assert_eq!(hole[3].rect, rect(110, 20, 2, 50));
    assert!(hole.iter().all(|f| f.paint == Paint::HoleBorder));
    let idle = idle_border(t);
    assert!(idle.iter().all(|f| f.paint == Paint::IdleBorderFill));
    let lift = lift_overlay(t);
    assert_eq!(lift[0], Fill { rect: rect(16, 30, 100, 50), paint: Paint::ShadowFill });
    assert_eq!(lift.len(), 5);
}

#[test]
fn edit_overlay_has_knobs_for_handles_and_close() {
    let t = tile();
    let with = edit_overlay(t, true);
    let without = edit_overlay(t, false);
    assert_eq!(with.len(), 4 + 8 * 2 + 2);
    assert_eq!(without.len(), 4 + 2);
    let last = without[without.len() - 1];
    assert_eq!(last.paint, Paint::CloseFill);
    assert_eq!(without[without.len() - 2].paint, Paint::KnobEdge);
    assert_eq!(without[without.len() - 2].rect, close_rect(t));
}
