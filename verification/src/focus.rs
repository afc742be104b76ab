//! Who gets input in the compositor: the surface under the pointer, the
//! focus a click gives, and the keyboard focus.
//!
//! The caller finds, for each layer-shell layer, the topmost layer surface
//! that accepts the point (and what it yields), and the topmost window under
//! the point; these functions decide among them.

use vstd::prelude::*;

use crate::home::SurfaceId;
use crate::layout::WindowMode;

verus! {

/// Keyboard interactivity of a layer surface.
#[derive(Clone, Copy, Debug, PartialEq, Eq, Structural)]
pub enum Interactivity {
    NoKeyboard,
    Exclusive,
    OnDemand,
}

/// The topmost window under the point.
#[derive(Clone, Copy, Debug, PartialEq, Eq, Structural)]
pub struct WindowHit {
    pub toplevel: SurfaceId,
    /// It belongs to the active group (hidden windows do not).
    pub in_group: bool,
    /// The window's surface (or subsurface) under the point.
    pub surface: Option<SurfaceId>,
}

/// What lies under the pointer, per layer: `None` when no layer surface of
/// that layer accepts the point, else what the topmost accepting one yields.
#[derive(Clone, Copy, Debug, PartialEq, Eq, Structural)]
pub struct PointerScene {
    pub locked: bool,
    /// The lock surface under the point, while locked.
    pub lock_hit: Option<SurfaceId>,
    /// A fullscreen window is active.
    pub fullscreen: bool,
    pub overlay: Option<Option<SurfaceId>>,
    pub top: Option<Option<SurfaceId>>,
    pub bottom: Option<Option<SurfaceId>>,
    pub background: Option<Option<SurfaceId>>,
    pub window: Option<WindowHit>,
    /// The active modal dialog.
    pub modal: Option<SurfaceId>,
}

/// The first of two layers (topmost first) that accepts the point decides.
pub open spec fn first_layer(a: Option<Option<SurfaceId>>, b: Option<Option<SurfaceId>>) -> Option<SurfaceId> {
    match a {
        Some(hit) => hit,
        None => match b {
            Some(hit) => hit,
            None => None,
        },
    }
}

/// Locked: only a lock surface. Otherwise Overlay and Top layers (only
/// Overlay above a fullscreen window), then a window of the active group
/// that no other modal dialog blocks, then Bottom and Background layers
/// (none under a fullscreen window).
pub open spec fn pointer_target_spec(s: PointerScene) -> Option<SurfaceId> {
    if s.locked {
        s.lock_hit
    } else {
        let upper = first_layer(s.overlay, if s.fullscreen { s.overlay } else { s.top });
        if upper is Some {
            upper
        } else {
            let from_window = match s.window {
                Some(w) => if w.in_group && (s.modal is None || s.modal == Some(w.toplevel)) {
                    w.surface
                } else {
                    None
                },
                None => None,
            };
            if from_window is Some {
                from_window
            } else if !s.fullscreen {
                first_layer(s.bottom, s.background)
            } else {
                None
            }
        }
    }
}

fn first_layer_exec(a: Option<Option<SurfaceId>>, b: Option<Option<SurfaceId>>) -> (r: Option<SurfaceId>)
    ensures
        r == first_layer(a, b),
{
    match a {
        Some(hit) => hit,
        None => match b {
            Some(hit) => hit,
            None => None,
        },
    }
}

/// The surface that gets pointer input (see `pointer_target_spec`).
pub fn surface_under(s: &PointerScene) -> (r: Option<SurfaceId>)
    ensures
        r == pointer_target_spec(*s),
{
    if s.locked {
        return s.lock_hit;
    }
    let upper = first_layer_exec(s.overlay, if s.fullscreen {
        s.overlay
    } else {
        s.top
    });
    if upper.is_some() {
        return upper;
    }
    let from_window = match s.window {
        Some(w) => if w.in_group && (s.modal.is_none() || s.modal == Some(w.toplevel)) {
            w.surface
        } else {
            None
        },
        None => None,
    };
    if from_window.is_some() {
        from_window
    } else if !s.fullscreen {
        first_layer_exec(s.bottom, s.background)
    } else {
        None
    }
}

/// What a press lands on, for focus: per layer, the topmost layer surface
/// accepting the point and whether it takes the keyboard on demand.
#[derive(Clone, Copy, Debug)]
pub struct ClickScene {
    pub locked: bool,
    /// The surface under the point while locked.
    pub lock_hit: Option<SurfaceId>,
    pub fullscreen: bool,
    pub overlay: Option<(SurfaceId, bool)>,
    pub top: Option<(SurfaceId, bool)>,
    pub bottom: Option<(SurfaceId, bool)>,
    pub background: Option<(SurfaceId, bool)>,
    /// The topmost window under the point.
    pub window: Option<SurfaceId>,
    pub modal: Option<SurfaceId>,
}

/// The focus change a press causes.
#[derive(Clone, Copy, Debug, PartialEq, Eq, Structural)]
pub enum ClickFocus {
    /// No change.
    Keep,
    /// Keyboard focus straight to this surface (the lock screen).
    Keyboard(SurfaceId),
    /// This on-demand layer takes the keyboard.
    OnDemandLayer(SurfaceId),
    /// Focus and raise this window.
    Window(SurfaceId),
}

pub open spec fn first_of(a: Option<(SurfaceId, bool)>, b: Option<(SurfaceId, bool)>) -> Option<(SurfaceId, bool)> {
    match a {
        Some(x) => Some(x),
        None => b,
    }
}

/// Locked: the surface under the point. Otherwise an Overlay or Top layer
/// wins the press (taking the keyboard if on demand); else the window under
/// the point unless another modal dialog is up; else, without a fullscreen
/// window, a Bottom or Background layer as for the upper ones.
pub open spec fn click_focus_spec(s: ClickScene) -> ClickFocus {
    if s.locked {
        match s.lock_hit {
            Some(x) => ClickFocus::Keyboard(x),
            None => ClickFocus::Keep,
        }
    } else {
        match first_of(s.overlay, if s.fullscreen { s.overlay } else { s.top }) {
            Some((l, on_demand)) => if on_demand {
                ClickFocus::OnDemandLayer(l)
            } else {
                ClickFocus::Keep
            },
            None => match s.window {
                Some(w) => if s.modal is None || s.modal == Some(w) {
                    ClickFocus::Window(w)
                } else {
                    ClickFocus::Keep
                },
                None => if s.fullscreen {
                    ClickFocus::Keep
                } else {
                    match first_of(s.bottom, s.background) {
                        Some((l, true)) => ClickFocus::OnDemandLayer(l),
                        _ => ClickFocus::Keep,
                    }
                },
            },
        }
    }
}

/// The focus change of a press (see `click_focus_spec`).
pub fn click_focus(s: &ClickScene) -> (r: ClickFocus)
    ensures
        r == click_focus_spec(*s),
{
    if s.locked {
        return match s.lock_hit {
            Some(x) => ClickFocus::Keyboard(x),
            None => ClickFocus::Keep,
        };
    }
    let upper = match s.overlay {
        Some(x) => Some(x),
        None => if s.fullscreen {
            s.overlay
        } else {
            s.top
        },
    };
    match upper {
        Some((l, on_demand)) => if on_demand {
            ClickFocus::OnDemandLayer(l)
        } else {
            ClickFocus::Keep
        },
        None => match s.window {
            Some(w) => if s.modal.is_none() || s.modal == Some(w) {
                ClickFocus::Window(w)
            } else {
                ClickFocus::Keep
            },
            None => if s.fullscreen {
                ClickFocus::Keep
            } else {
                let lower = match s.bottom {
                    Some(x) => Some(x),
                    None => s.background,
                };
                match lower {
                    Some((l, true)) => ClickFocus::OnDemandLayer(l),
                    _ => ClickFocus::Keep,
                }
            },
        },
    }
}

/// The last (topmost) layer surface of `layers` (back → front) with
/// `Exclusive` keyboard interactivity.
pub open spec fn topmost_exclusive_spec(layers: Seq<(SurfaceId, Interactivity)>) -> Option<SurfaceId>
    decreases layers.len(),
{
    if layers.len() == 0 {
        None
    } else if layers.last().1 == Interactivity::Exclusive {
        Some(layers.last().0)
    } else {
        topmost_exclusive_spec(layers.drop_last())
    }
}

pub fn topmost_exclusive(layers: &[(SurfaceId, Interactivity)]) -> (r: Option<SurfaceId>)
    ensures
        r == topmost_exclusive_spec(layers@),
{
    let mut k = layers.len();
    assert(layers@.take(k as int) =~= layers@);
    while k > 0
        invariant
            k <= layers@.len(),
            topmost_exclusive_spec(layers@) == topmost_exclusive_spec(layers@.take(k as int)),
        decreases k,
    {
        assert(layers@.take(k as int).drop_last() =~= layers@.take(k - 1));
        assert(layers@.take(k as int).last() == layers@[k - 1]);
        if layers[k - 1].1 == Interactivity::Exclusive {
            return Some(layers[k - 1].0);
        }
        k = k - 1;
    }
    None
}

/// The last (topmost) window of `windows` (back → front) in `Fullscreen` mode.
pub open spec fn active_fullscreen_spec(windows: Seq<(SurfaceId, WindowMode)>) -> Option<SurfaceId>
    decreases windows.len(),
{
    if windows.len() == 0 {
        None
    } else if windows.last().1 == WindowMode::Fullscreen {
        Some(windows.last().0)
    } else {
        active_fullscreen_spec(windows.drop_last())
    }
}

pub fn active_fullscreen_window(windows: &[(SurfaceId, WindowMode)]) -> (r: Option<SurfaceId>)
    ensures
        r == active_fullscreen_spec(windows@),
{
    let mut k = windows.len();
    assert(windows@.take(k as int) =~= windows@);
    while k > 0
        invariant
            k <= windows@.len(),
            active_fullscreen_spec(windows@) == active_fullscreen_spec(windows@.take(k as int)),
        decreases k,
    {
        assert(windows@.take(k as int).drop_last() =~= windows@.take(k - 1));
        assert(windows@.take(k as int).last() == windows@[k - 1]);
        if windows[k - 1].1 == WindowMode::Fullscreen {
            return Some(windows[k - 1].0);
        }
        k = k - 1;
    }
    None
}

/// Keyboard focus: the topmost `Exclusive` Overlay layer, else the topmost
/// `Exclusive` Top layer, else the on-demand layer that was opened or
/// clicked (while still mapped), else the active window (while alive).
pub open spec fn keyboard_focus_spec(
    overlay_exclusive: Option<SurfaceId>,
    top_exclusive: Option<SurfaceId>,
    on_demand: Option<SurfaceId>,
    active: Option<SurfaceId>,
) -> Option<SurfaceId> {
    if overlay_exclusive is Some {
        overlay_exclusive
    } else if top_exclusive is Some {
        top_exclusive
    } else if on_demand is Some {
        on_demand
    } else {
        active
    }
}

pub fn compute_keyboard_focus(
    overlay_exclusive: Option<SurfaceId>,
    top_exclusive: Option<SurfaceId>,
    on_demand: Option<SurfaceId>,
    active: Option<SurfaceId>,
) -> (r: Option<SurfaceId>)
    ensures
        r == keyboard_focus_spec(overlay_exclusive, top_exclusive, on_demand, active),
{
    if overlay_exclusive.is_some() {
        overlay_exclusive
    } else if top_exclusive.is_some() {
        top_exclusive
    } else if on_demand.is_some() {
        on_demand
    } else {
        active
    }
}

/// The focus to set, if any: none while the session is locked or the
/// keyboard is grabbed, or when it already has the target.
pub fn focus_update(locked: bool, grabbed: bool, current: Option<SurfaceId>, target: Option<
    SurfaceId,
>) -> (r: Option<Option<SurfaceId>>)
    ensures
        r == if locked || grabbed || current == target {
            None
        } else {
            Some(target)
        },
{
    if locked || grabbed || current == target {
        None
    } else {
        Some(target)
    }
}

// ---------------------------------------------------------------------------
// Laws.

/// While the session is locked, only the lock screen gets the pointer.
pub proof fn lemma_locked_only_lock_surface(s: PointerScene)
    requires
        s.locked,
    ensures
        pointer_target_spec(s) == s.lock_hit,
{
}

/// A window other than the active modal dialog never gets the pointer: the
/// answer is the same as with no window under the point.
pub proof fn lemma_modal_blocks_other_windows(s: PointerScene)
    requires
        s.modal matches Some(m) && s.window matches Some(w) && w.toplevel != m,
    ensures
        pointer_target_spec(s) == pointer_target_spec(PointerScene { window: None, ..s }),
{
}

/// Above a fullscreen window only Overlay layers count: Top, Bottom and
/// Background layers change nothing.
pub proof fn lemma_fullscreen_hides_layers(
    s: PointerScene,
    top: Option<Option<SurfaceId>>,
    bottom: Option<Option<SurfaceId>>,
    background: Option<Option<SurfaceId>>,
)
    requires
        s.fullscreen,
    ensures
        pointer_target_spec(s) == pointer_target_spec(PointerScene { top, bottom, background, ..s }),
{
}

/// An `Exclusive` Overlay layer always holds the keyboard.
pub proof fn lemma_exclusive_overlay_keeps_keyboard(
    o: SurfaceId,
    top: Option<SurfaceId>,
    on_demand: Option<SurfaceId>,
    active: Option<SurfaceId>,
)
    ensures
        keyboard_focus_spec(Some(o), top, on_demand, active) == Some(o),
{
}

/// A click while a fullscreen window is active: the fullscreen window
/// covers the Top, Bottom and Background layers, so they change nothing;
/// with no Overlay layer under the point, the window under it gets the
/// focus (unless another window's modal dialog is up), and a click on no
/// window changes nothing.
pub proof fn lemma_fullscreen_click(
    s: ClickScene,
    top: Option<(SurfaceId, bool)>,
    bottom: Option<(SurfaceId, bool)>,
    background: Option<(SurfaceId, bool)>,
)
    requires
        s.fullscreen,
    ensures
        click_focus_spec(s) == click_focus_spec(ClickScene { top, bottom, background, ..s }),
        !s.locked && s.overlay is None ==> click_focus_spec(s) == match s.window {
            Some(w) => if s.modal is None || s.modal == Some(w) {
                ClickFocus::Window(w)
            } else {
                ClickFocus::Keep
            },
            None => ClickFocus::Keep,
        },
{
}

/// An Overlay layer under the point always wins an unlocked click: it takes
/// the keyboard when it asks for it on demand, and otherwise the focus
/// stays; no window is raised past it, fullscreen or not.
pub proof fn lemma_overlay_wins_click(s: ClickScene)
    requires
        !s.locked,
        s.overlay is Some,
    ensures
        click_focus_spec(s) == match s.overlay {
            Some((l, true)) => ClickFocus::OnDemandLayer(l),
            _ => ClickFocus::Keep,
        },
{
}

/// Without a fullscreen window, a Top layer under the point wins the click
/// over the window beneath it.
pub proof fn lemma_top_layer_wins_click(s: ClickScene)
    requires
        !s.locked,
        !s.fullscreen,
        s.overlay is None,
        s.top is Some,
    ensures
        click_focus_spec(s) == match s.top {
            Some((l, true)) => ClickFocus::OnDemandLayer(l),
            _ => ClickFocus::Keep,
        },
{
}

/// With no layer above it under the point (and no lock), a click focuses
/// the window under the point, unless another window's modal dialog is up;
/// the Bottom and Background layers below never take it from the window.
pub proof fn lemma_window_wins_click(
    s: ClickScene,
    bottom: Option<(SurfaceId, bool)>,
    background: Option<(SurfaceId, bool)>,
)
    requires
        !s.locked,
        s.overlay is None,
        s.fullscreen || s.top is None,
        s.window is Some,
    ensures
        click_focus_spec(s) == click_focus_spec(ClickScene { bottom, background, ..s }),
        click_focus_spec(s) == if s.modal is None || s.modal == s.window {
            ClickFocus::Window(s.window->0)
        } else {
            ClickFocus::Keep
        },
{
}

} // verus!
