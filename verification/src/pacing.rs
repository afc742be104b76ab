//! Frame pacing of an output: what a render pass leads to, and when frame
//! callbacks go out. Times are monotonic nanoseconds.

use vstd::prelude::*;

verus! {

/// What to do with an output after a render pass.
#[derive(Clone, Copy, Debug, PartialEq, Eq, Structural)]
pub enum FrameStep {
    /// The output is blanked or the session paused: nothing is drawn.
    Skip,
    /// A frame is on its way to the screen: wait for its vblank.
    AwaitVblank,
    /// The render failed: try again after this many nanoseconds.
    RetryAfter(u64),
    /// Nothing to present and callbacks went out less than a refresh ago:
    /// come back after this many nanoseconds.
    WaitFor(u64),
    /// Nothing to present: send frame callbacks now and record the time.
    AckNow,
}

/// The pacing rule. A queued frame waits for vblank; a failed render is
/// retried one refresh later; otherwise frame callbacks go out at most once
/// per refresh, the next ones when a refresh has passed since the last.
pub open spec fn pace_spec(
    off: bool,
    paused: bool,
    queued: bool,
    failed: bool,
    now: u64,
    last_ack: Option<u64>,
    refresh: u64,
) -> FrameStep {
    if off || paused {
        FrameStep::Skip
    } else if queued {
        FrameStep::AwaitVblank
    } else if failed {
        FrameStep::RetryAfter(refresh)
    } else {
        match last_ack {
            Some(last) => if now < last + refresh {
                FrameStep::WaitFor((last + refresh - now) as u64)
            } else {
                FrameStep::AckNow
            },
            None => FrameStep::AckNow,
        }
    }
}

/// Decide the next step for an output (`refresh` is its refresh interval).
pub fn pace_frame(
    off: bool,
    paused: bool,
    queued: bool,
    failed: bool,
    now: u64,
    last_ack: Option<u64>,
    refresh: u64,
) -> (r: FrameStep)
    requires
        last_ack matches Some(last) ==> last + refresh <= u64::MAX,
    ensures
        r == pace_spec(off, paused, queued, failed, now, last_ack, refresh),
{
    if off || paused {
        FrameStep::Skip
    } else if queued {
        FrameStep::AwaitVblank
    } else if failed {
        FrameStep::RetryAfter(refresh)
    } else {
        match last_ack {
            Some(last) => {
                let deadline = last + refresh;
                if now < deadline {
                    FrameStep::WaitFor(deadline - now)
                } else {
                    FrameStep::AckNow
                }
            },
            None => FrameStep::AckNow,
        }
    }
}

/// Frame callbacks never go out twice within one refresh, and a wait ends
/// exactly one refresh after the last callbacks.
pub proof fn lemma_acks_once_per_refresh(now: u64, last: u64, refresh: u64)
    requires
        last + refresh <= u64::MAX,
    ensures
        pace_spec(false, false, false, false, now, Some(last), refresh) == FrameStep::AckNow
            ==> now >= last + refresh,
        pace_spec(false, false, false, false, now, Some(last), refresh) matches FrameStep::WaitFor(d)
            ==> now + d == last + refresh && (last <= now ==> d <= refresh),
{
}

} // verus!
