use mechanix_home::geometry::{rect, Point};
use mechanix_home::home::SurfaceId;
use mechanix_home::layout::{
    ancestor_chain, centered_loc, may_focus, mode_request, placement, Layout, ModeRequest,
    ModeResponse, Size, WindowInfo, WindowMode,
};

fn s(n: u64) -> SurfaceId {
    SurfaceId(n)
}

#[test]
fn insert_stacks_once_and_remove_unstacks() {
    let mut l = Layout::default();
    l.insert(s(1));
    l.insert(s(2));
    l.insert(s(1));
    assert_eq!(l.stack(), &[s(1), s(2)]);
    assert_eq!(l.top(), Some(s(2)));
    l.remove(s(1));
    assert!(!l.contains(s(1)));
    assert_eq!(l.stack(), &[s(2)]);
}

#[test]
fn activate_group_moves_the_chain_to_the_front() {
    let mut l = Layout::default();
    for n in 1..=5 {
        l.insert(s(n));
    }
    l.activate_group(vec![s(2), s(4)]);
    assert_eq!(l.stack(), &[s(1), s(3), s(5), s(2), s(4)]);
    assert_eq!(l.top(), Some(s(4)));
}

#[test]
fn retain_keeps_listed_surfaces_in_order() {
    let mut l = Layout::default();
    for n in 1..=4 {
        l.insert(s(n));
    }
    l.retain(&[s(4), s(2)]);
    assert_eq!(l.stack(), &[s(2), s(4)]);
    assert_eq!(Layout::default().top(), None);
}

#[test]
fn ancestor_chain_runs_root_to_leaf() {
    let parents = [(s(3), s(2)), (s(2), s(1))];
    assert_eq!(ancestor_chain(s(3), &parents), vec![s(1), s(2), s(3)]);
    assert_eq!(ancestor_chain(s(9), &parents), vec![s(9)]);
}

#[test]
fn visible_is_the_focused_chain_stacked_here() {
    let mut l = Layout::default();
    l.insert(s(1));
    l.insert(s(3));
    let parents = [(s(3), s(2)), (s(2), s(1))];
    assert_eq!(l.visible(Some(s(3)), &parents), vec![s(1), s(2), s(3)]);
    assert_eq!(l.visible_surfaces(Some(s(3)), &parents), vec![s(1), s(3)]);
    assert!(l.visible(None, &parents).is_empty());
}

#[test]
fn zone_is_recorded() {
    let mut l = Layout::default();
    l.set_zone(rect(0, 32, 720, 1400));
    assert_eq!(l.zone(), rect(0, 32, 720, 1400));
}

#[test]
fn centered_loc_clamps_oversized_windows() {
    let zone = rect(0, 40, 720, 1400);
    assert_eq!(centered_loc(zone, rect(0, 0, 320, 200)), Point { x: 200, y: 640 });
    assert_eq!(centered_loc(zone, rect(0, 0, 1000, 2000)), Point { x: 0, y: 40 });
}

#[test]
fn toplevels_fill_the_zone_and_dialogs_float() {
    let zone = rect(0, 40, 720, 1400);
    let geo = rect(0, 0, 300, 100);
    let top = placement(false, zone, geo, None);
    assert_eq!(top.loc, Point { x: 0, y: 40 });
    assert_eq!(top.size, Some(Size { w: 720, h: 1400 }));
    assert_eq!(top.bounds, None);
    assert!(top.maximized);
    assert_eq!(top.reported, WindowMode::Maximized);

    let dialog = placement(true, zone, geo, Some(rect(100, 200, 500, 300)));
    assert_eq!(dialog.loc, Point { x: 200, y: 300 });
    assert_eq!(dialog.size, None);
    assert_eq!(dialog.bounds, Some(Size { w: 720, h: 1400 }));
    assert!(!dialog.maximized);
    assert_eq!(dialog.reported, WindowMode::Floating);

    let lone = placement(true, zone, geo, None);
    assert_eq!(lone.loc, Point { x: 210, y: 690 });
    let narrow_parent = placement(true, zone, geo, Some(rect(100, 200, 101, 50)));
    assert_eq!(narrow_parent.loc, Point { x: 100 + (101 - 300) / 2, y: 200 + (50 - 100) / 2 });
}

#[test]
fn mode_requests_follow_the_window_kind() {
    assert_eq!(mode_request(ModeRequest::Maximize, true, WindowMode::Floating), ModeResponse::Ignore);
    assert_eq!(mode_request(ModeRequest::Maximize, false, WindowMode::Floating), ModeResponse::Relayout);
    assert_eq!(mode_request(ModeRequest::Maximize, false, WindowMode::Fullscreen), ModeResponse::Ignore);
    assert_eq!(mode_request(ModeRequest::Unmaximize, false, WindowMode::Floating), ModeResponse::Ignore);
    assert_eq!(mode_request(ModeRequest::Unmaximize, false, WindowMode::Maximized), ModeResponse::Relayout);
    assert_eq!(
        mode_request(ModeRequest::Fullscreen { output_known: true }, false, WindowMode::Maximized),
        ModeResponse::EnterFullscreen { mode: WindowMode::Fullscreen }
    );
    assert_eq!(
        mode_request(ModeRequest::Fullscreen { output_known: false }, false, WindowMode::Maximized),
        ModeResponse::EnterFullscreen { mode: WindowMode::Maximized }
    );
    assert_eq!(mode_request(ModeRequest::Fullscreen { output_known: true }, true, WindowMode::Floating), ModeResponse::Ignore);
    assert_eq!(mode_request(ModeRequest::Unfullscreen, false, WindowMode::Maximized), ModeResponse::Ignore);
    assert_eq!(mode_request(ModeRequest::Unfullscreen, false, WindowMode::Fullscreen), ModeResponse::LeaveFullscreen);
    assert!(may_focus(None, s(1)));
    assert!(may_focus(Some(s(1)), s(1)));
    assert!(!may_focus(Some(s(1)), s(2)));
}

#[test]
fn apply_layout_fronts_the_focus_chain_and_places_windows() {
    let mut l = Layout::default();
    for n in 1..=3 {
        l.insert(s(n));
    }
    let zone = rect(0, 40, 720, 1400);
    let parents = [(s(3), s(1))];
    let windows = [
        WindowInfo { surface: s(1), mode: WindowMode::Maximized, dialog: false, geo: rect(0, 40, 720, 1400), parent_geo: None },
        WindowInfo { surface: s(2), mode: WindowMode::Fullscreen, dialog: false, geo: rect(0, 0, 720, 1440), parent_geo: None },
        WindowInfo { surface: s(3), mode: WindowMode::Floating, dialog: true, geo: rect(0, 0, 320, 200), parent_geo: Some(rect(0, 40, 720, 1400)) },
    ];
    let plan = l.apply_layout(Some(s(3)), &parents, zone, &windows);
    assert_eq!(l.stack(), &[s(2), s(1), s(3)]);
    assert_eq!(l.zone(), zone);
    assert_eq!(plan.len(), 2);
    assert_eq!(plan[0].0, s(1));
    assert!(plan[0].1.maximized);
    assert_eq!(plan[1].0, s(3));
    assert_eq!(plan[1].1.loc, Point { x: 200, y: 640 });
    assert_eq!(plan[1].1.reported, WindowMode::Floating);
}
