use mechanix_home::home::SurfaceId;
use mechanix_home::stacking::{output_elements, Clear, Draw, LayerKind};

fn s(n: u64) -> SurfaceId {
    SurfaceId(n)
}

#[test]
fn desktop_stacking_order() {
    let layers = [
        (s(1), LayerKind::Background),
        (s(2), LayerKind::Top),
        (s(3), LayerKind::Bottom),
        (s(4), LayerKind::Overlay),
    ];
    let windows = [(s(10), false), (s(11), false)];
    let (draws, clear) = output_elements(false, &layers, &[], &[], &windows, &[s(10), s(11)]);
    assert_eq!(clear, Clear::Normal);
    assert_eq!(
        draws,
        vec![
            Draw::Layer(s(4)),
            Draw::Layer(s(2)),
            Draw::LayerPopups(s(3)),
            Draw::LayerPopups(s(1)),
            Draw::AllWindows,
            Draw::Layer(s(3)),
            Draw::Layer(s(1)),
        ]
    );
}

#[test]
fn fullscreen_goes_between_overlay_and_top() {
    let layers = [(s(2), LayerKind::Top), (s(4), LayerKind::Overlay)];
    let windows = [(s(10), false), (s(11), true), (s(12), false)];
    let (draws, _) = output_elements(false, &layers, &[], &[], &windows, &[s(10)]);
    assert_eq!(
        draws,
        vec![Draw::Layer(s(4)), Draw::Window(s(11)), Draw::Layer(s(2)), Draw::Window(s(10))]
    );
}

#[test]
fn only_visible_windows_when_a_group_is_active() {
    let windows = [(s(10), false), (s(11), false), (s(12), false)];
    let (draws, _) = output_elements(false, &[], &[], &[], &windows, &[s(12), s(10)]);
    assert_eq!(draws, vec![Draw::Window(s(12)), Draw::Window(s(10))]);
}

#[test]
fn locked_output_draws_the_lock_screen() {
    let layers = [(s(1), LayerKind::Background), (s(5), LayerKind::Overlay)];
    let (draws, clear) = output_elements(true, &layers, &[s(5)], &[s(20)], &[(s(10), false)], &[s(10)]);
    assert_eq!(clear, Clear::Locked);
    assert_eq!(draws, vec![Draw::Layer(s(5)), Draw::LockSurface(s(20))]);
}
