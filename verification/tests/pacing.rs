use mechanix_home::pacing::{pace_frame, FrameStep};

const REFRESH: u64 = 16_666_667;

#[test]
fn blanked_or_paused_outputs_are_not_drawn() {
    assert_eq!(pace_frame(true, false, true, false, 100, None, REFRESH), FrameStep::Skip);
    assert_eq!(pace_frame(false, true, false, true, 100, None, REFRESH), FrameStep::Skip);
}

#[test]
fn a_queued_frame_waits_for_vblank() {
    assert_eq!(pace_frame(false, false, true, true, 100, Some(90), REFRESH), FrameStep::AwaitVblank);
}

#[test]
fn a_failed_render_is_retried_one_refresh_later() {
    assert_eq!(pace_frame(false, false, false, true, 100, None, REFRESH), FrameStep::RetryAfter(REFRESH));
}

#[test]
fn callbacks_go_out_at_most_once_per_refresh() {
    let t = 1_000_000_000;
    assert_eq!(pace_frame(false, false, false, false, t, None, REFRESH), FrameStep::AckNow);
    assert_eq!(
        pace_frame(false, false, false, false, t + 6_666_667, Some(t), REFRESH),
        FrameStep::WaitFor(10_000_000)
    );
    assert_eq!(pace_frame(false, false, false, false, t + REFRESH, Some(t), REFRESH), FrameStep::AckNow);
}
