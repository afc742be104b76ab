use mechanix_home::focus::{
    active_fullscreen_window, click_focus, compute_keyboard_focus, focus_update, surface_under,
    topmost_exclusive, ClickFocus, ClickScene, Interactivity, PointerScene, WindowHit,
};
use mechanix_home::home::SurfaceId;
use mechanix_home::layout::WindowMode;

fn s(n: u64) -> SurfaceId {
    SurfaceId(n)
}

fn empty_scene() -> PointerScene {
    PointerScene {
        locked: false,
        lock_hit: None,
        fullscreen: false,
        overlay: None,
        top: None,
        bottom: None,
        background: None,
        window: None,
        modal: None,
    }
}

#[test]
fn layers_windows_then_background() {
    let mut scene = empty_scene();
    scene.background = Some(Some(s(1)));
    assert_eq!(surface_under(&scene), Some(s(1)));
    scene.window = Some(WindowHit { toplevel: s(2), in_group: true, surface: Some(s(3)) });
    assert_eq!(surface_under(&scene), Some(s(3)));
    scene.top = Some(Some(s(4)));
    assert_eq!(surface_under(&scene), Some(s(4)));
    scene.overlay = Some(Some(s(5)));
    assert_eq!(surface_under(&scene), Some(s(5)));
}

#[test]
fn hidden_and_modal_blocked_windows_get_nothing() {
    let mut scene = empty_scene();
    scene.window = Some(WindowHit { toplevel: s(2), in_group: false, surface: Some(s(3)) });
    assert_eq!(surface_under(&scene), None);
    scene.window = Some(WindowHit { toplevel: s(2), in_group: true, surface: Some(s(3)) });
    scene.modal = Some(s(9));
    scene.bottom = Some(Some(s(7)));
    assert_eq!(surface_under(&scene), Some(s(7)));
    scene.modal = Some(s(2));
    assert_eq!(surface_under(&scene), Some(s(3)));
}

#[test]
fn fullscreen_leaves_only_overlay_layers() {
    let mut scene = empty_scene();
    scene.fullscreen = true;
    scene.top = Some(Some(s(4)));
    scene.background = Some(Some(s(1)));
    assert_eq!(surface_under(&scene), None);
    scene.overlay = Some(Some(s(5)));
    assert_eq!(surface_under(&scene), Some(s(5)));
}

#[test]
fn locked_session_routes_to_the_lock_screen() {
    let mut scene = empty_scene();
    scene.locked = true;
    scene.overlay = Some(Some(s(5)));
    assert_eq!(surface_under(&scene), None);
    scene.lock_hit = Some(s(8));
    assert_eq!(surface_under(&scene), Some(s(8)));
}

#[test]
fn clicks_focus_windows_and_on_demand_layers() {
    let base = ClickScene {
        locked: false,
        lock_hit: None,
        fullscreen: false,
        overlay: None,
        top: None,
        bottom: None,
        background: None,
        window: Some(s(2)),
        modal: None,
    };
    assert_eq!(click_focus(&base), ClickFocus::Window(s(2)));
    let modal = ClickScene { modal: Some(s(3)), ..base };
    assert_eq!(click_focus(&modal), ClickFocus::Keep);
    let osk = ClickScene { top: Some((s(6), true)), ..base };
    assert_eq!(click_focus(&osk), ClickFocus::OnDemandLayer(s(6)));
    let panel = ClickScene { top: Some((s(6), false)), ..base };
    assert_eq!(click_focus(&panel), ClickFocus::Keep);
    let wallpaper = ClickScene { window: None, background: Some((s(1), true)), ..base };
    assert_eq!(click_focus(&wallpaper), ClickFocus::OnDemandLayer(s(1)));
    let locked = ClickScene { locked: true, lock_hit: Some(s(8)), ..base };
    assert_eq!(click_focus(&locked), ClickFocus::Keyboard(s(8)));
}

#[test]
fn keyboard_focus_priorities() {
    assert_eq!(compute_keyboard_focus(Some(s(1)), Some(s(2)), Some(s(3)), Some(s(4))), Some(s(1)));
    assert_eq!(compute_keyboard_focus(None, Some(s(2)), Some(s(3)), Some(s(4))), Some(s(2)));
    assert_eq!(compute_keyboard_focus(None, None, Some(s(3)), Some(s(4))), Some(s(3)));
    assert_eq!(compute_keyboard_focus(None, None, None, Some(s(4))), Some(s(4)));
    assert_eq!(focus_update(false, false, Some(s(1)), Some(s(2))), Some(Some(s(2))));
    assert_eq!(focus_update(true, false, Some(s(1)), Some(s(2))), None);
    assert_eq!(focus_update(false, true, None, Some(s(2))), None);
    assert_eq!(focus_update(false, false, Some(s(2)), Some(s(2))), None);
}

#[test]
fn topmost_exclusive_and_fullscreen_scan_from_the_front() {
    let layers = [(s(1), Interactivity::Exclusive), (s(2), Interactivity::OnDemand), (s(3), Interactivity::Exclusive), (s(4), Interactivity::NoKeyboard)];
    assert_eq!(topmost_exclusive(&layers), Some(s(3)));
    assert_eq!(topmost_exclusive(&[]), None);
    let windows = [(s(1), WindowMode::Fullscreen), (s(2), WindowMode::Maximized)];
    assert_eq!(active_fullscreen_window(&windows), Some(s(1)));
    assert_eq!(active_fullscreen_window(&[(s(2), WindowMode::Floating)]), None);
}
