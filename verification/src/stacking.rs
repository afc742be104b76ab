//! What the compositor draws on an output, front to back.
//!
//! Overlay layers come first, then fullscreen windows, then Top layers,
//! then the popups of Background and Bottom layers, then the windows, and
//! the Background and Bottom layers themselves last. While locked only the
//! lock screen is drawn.

use vstd::prelude::*;

use crate::home::SurfaceId;

verus! {

/// A layer-shell layer.
#[derive(Clone, Copy, Debug, PartialEq, Eq, Structural)]
pub enum LayerKind {
    Background,
    Bottom,
    Top,
    Overlay,
}

/// One entry of the drawing list.
#[derive(Clone, Copy, Debug, PartialEq, Eq, Structural)]
pub enum Draw {
    /// A layer surface with its popups.
    Layer(SurfaceId),
    /// Only the popups of a layer surface.
    LayerPopups(SurfaceId),
    /// A window with its popups.
    Window(SurfaceId),
    /// Every window of the space, as the space stacks them.
    AllWindows,
    /// A lock surface.
    LockSurface(SurfaceId),
}

/// The colour behind everything.
#[derive(Clone, Copy, Debug, PartialEq, Eq, Structural)]
pub enum Clear {
    Normal,
    Locked,
}

/// Which layers a pass draws.
#[derive(Clone, Copy, Debug, PartialEq, Eq, Structural)]
pub enum LayerPass {
    Overlay,
    Top,
    /// Background and Bottom.
    Lower,
}

pub open spec fn in_pass(kind: LayerKind, pass: LayerPass) -> bool {
    match pass {
        LayerPass::Overlay => kind == LayerKind::Overlay,
        LayerPass::Top => kind == LayerKind::Top,
        LayerPass::Lower => kind == LayerKind::Background || kind == LayerKind::Bottom,
    }
}

/// The layers of `pass`, front to back (`layers` runs back to front), each
/// drawn whole or (`popups`) only its popups.
pub open spec fn layer_draws(layers: Seq<(SurfaceId, LayerKind)>, pass: LayerPass, popups: bool) -> Seq<Draw>
    decreases layers.len(),
{
    if layers.len() == 0 {
        Seq::empty()
    } else {
        let l = layers.last();
        (if in_pass(l.1, pass) {
            seq![if popups {
                Draw::LayerPopups(l.0)
            } else {
                Draw::Layer(l.0)
            }]
        } else {
            Seq::empty()
        }) + layer_draws(layers.drop_last(), pass, popups)
    }
}

/// Windows (back to front, with their fullscreen flag) to draw, front to
/// back: the fullscreen ones (`fullscreen`), or the others that are
/// visible.
pub open spec fn window_draws(windows: Seq<(SurfaceId, bool)>, visible: Seq<SurfaceId>, fullscreen: bool) -> Seq<Draw>
    decreases windows.len(),
{
    if windows.len() == 0 {
        Seq::empty()
    } else {
        let w = windows.last();
        let take = if fullscreen {
            w.1
        } else {
            !w.1 && visible.contains(w.0)
        };
        (if take {
            seq![Draw::Window(w.0)]
        } else {
            Seq::empty()
        }) + window_draws(windows.drop_last(), visible, fullscreen)
    }
}

/// The layers (back to front) that belong to the lock screen, front to back.
pub open spec fn lock_layer_draws(layers: Seq<(SurfaceId, LayerKind)>, lock_layers: Seq<SurfaceId>) -> Seq<Draw>
    decreases layers.len(),
{
    if layers.len() == 0 {
        Seq::empty()
    } else {
        let l = layers.last();
        (if lock_layers.contains(l.0) {
            seq![Draw::Layer(l.0)]
        } else {
            Seq::empty()
        }) + lock_layer_draws(layers.drop_last(), lock_layers)
    }
}

pub open spec fn any_fullscreen(windows: Seq<(SurfaceId, bool)>) -> bool {
    exists|i: int| 0 <= i < windows.len() && #[trigger] windows[i].1
}

/// The windows' part: below fullscreen ones, the visible others; else all
/// of them at once when every window is visible; else the visible ones.
pub open spec fn windows_part(windows: Seq<(SurfaceId, bool)>, visible: Seq<SurfaceId>) -> Seq<Draw> {
    if any_fullscreen(windows) {
        window_draws(windows, visible, false)
    } else if visible.len() == windows.len() {
        seq![Draw::AllWindows]
    } else {
        window_draws(windows, visible, false)
    }
}

/// The drawing list of an output and its clear colour.
pub open spec fn output_elements_spec(
    locked: bool,
    layers: Seq<(SurfaceId, LayerKind)>,
    lock_layers: Seq<SurfaceId>,
    lock_surfaces: Seq<SurfaceId>,
    windows: Seq<(SurfaceId, bool)>,
    visible: Seq<SurfaceId>,
) -> (Seq<Draw>, Clear) {
    if locked {
        (
            lock_layer_draws(layers, lock_layers) + lock_surfaces.map_values(
                |s: SurfaceId| Draw::LockSurface(s),
            ),
            Clear::Locked,
        )
    } else {
        (
            layer_draws(layers, LayerPass::Overlay, false) + window_draws(windows, visible, true)
                + layer_draws(layers, LayerPass::Top, false) + layer_draws(
                layers,
                LayerPass::Lower,
                true,
            ) + windows_part(windows, visible) + layer_draws(layers, LayerPass::Lower, false),
            Clear::Normal,
        )
    }
}

fn contains_id(set: &[SurfaceId], x: SurfaceId) -> (b: bool)
    ensures
        b == set@.contains(x),
{
    let mut k: usize = 0;
    while k < set.len()
        invariant
            0 <= k <= set@.len(),
            forall|j: int| 0 <= j < k ==> set@[j] != x,
        decreases set@.len() - k,
    {
        if set[k] == x {
            return true;
        }
        k = k + 1;
    }
    false
}

fn push_layers(layers: &[(SurfaceId, LayerKind)], pass: LayerPass, popups: bool, out: &mut Vec<Draw>)
    ensures
        final(out)@ == old(out)@ + layer_draws(layers@, pass, popups),
{
    let ghost start = out@;
    let mut k = layers.len();
    assert(layers@.take(k as int) =~= layers@);
    assert(start =~= start + Seq::<Draw>::empty());
    while k > 0
        invariant
            k <= layers@.len(),
            out@ + layer_draws(layers@.take(k as int), pass, popups) == start + layer_draws(
                layers@,
                pass,
                popups,
            ),
        decreases k,
    {
        let ghost t = layers@.take(k as int);
        assert(t.drop_last() =~= layers@.take(k - 1));
        assert(t.last() == layers@[k - 1]);
        let ghost before = out@;
        let (s, kind) = layers[k - 1];
        let pick = match pass {
            LayerPass::Overlay => kind == LayerKind::Overlay,
            LayerPass::Top => kind == LayerKind::Top,
            LayerPass::Lower => kind == LayerKind::Background || kind == LayerKind::Bottom,
        };
        if pick {
            out.push(if popups {
                Draw::LayerPopups(s)
            } else {
                Draw::Layer(s)
            });
        }
        proof {
            let rest = layer_draws(layers@.take(k - 1), pass, popups);
            if pick {
                assert(out@ + rest =~= before + (seq![out@.last()] + rest));
            } else {
                assert(out@ + rest =~= before + (Seq::<Draw>::empty() + rest));
            }
        }
        k = k - 1;
    }
    assert(layers@.take(0) =~= Seq::<(SurfaceId, LayerKind)>::empty());
    assert(out@ =~= out@ + Seq::<Draw>::empty());
}

fn push_windows(windows: &[(SurfaceId, bool)], visible: &[SurfaceId], fullscreen: bool, out: &mut Vec<Draw>)
    ensures
        final(out)@ == old(out)@ + window_draws(windows@, visible@, fullscreen),
{
    let ghost start = out@;
    let mut k = windows.len();
    assert(windows@.take(k as int) =~= windows@);
    while k > 0
        invariant
            k <= windows@.len(),
            out@ + window_draws(windows@.take(k as int), visible@, fullscreen) == start
                + window_draws(windows@, visible@, fullscreen),
        decreases k,
    {
        let ghost t = windows@.take(k as int);
        assert(t.drop_last() =~= windows@.take(k - 1));
        assert(t.last() == windows@[k - 1]);
        let ghost before = out@;
        let (s, fs) = windows[k - 1];
        let pick = if fullscreen {
            fs
        } else {
            !fs && contains_id(visible, s)
        };
        if pick {
            out.push(Draw::Window(s));
        }
        proof {
            let rest = window_draws(windows@.take(k - 1), visible@, fullscreen);
            if pick {
                assert(out@ + rest =~= before + (seq![Draw::Window(s)] + rest));
            } else {
                assert(out@ + rest =~= before + (Seq::<Draw>::empty() + rest));
            }
        }
        k = k - 1;
    }
    assert(windows@.take(0) =~= Seq::<(SurfaceId, bool)>::empty());
    assert(out@ =~= out@ + Seq::<Draw>::empty());
}

fn push_lock_layers(layers: &[(SurfaceId, LayerKind)], lock_layers: &[SurfaceId], out: &mut Vec<Draw>)
    ensures
        final(out)@ == old(out)@ + lock_layer_draws(layers@, lock_layers@),
{
    let ghost start = out@;
    let mut k = layers.len();
    assert(layers@.take(k as int) =~= layers@);
    while k > 0
        invariant
            k <= layers@.len(),
            out@ + lock_layer_draws(layers@.take(k as int), lock_layers@) == start
                + lock_layer_draws(layers@, lock_layers@),
        decreases k,
    {
        let ghost t = layers@.take(k as int);
        assert(t.drop_last() =~= layers@.take(k - 1));
        assert(t.last() == layers@[k - 1]);
        let ghost before = out@;
        let (s, _) = layers[k - 1];
        let pick = contains_id(lock_layers, s);
        if pick {
            out.push(Draw::Layer(s));
        }
        proof {
            let rest = lock_layer_draws(layers@.take(k - 1), lock_layers@);
            if pick {
                assert(out@ + rest =~= before + (seq![Draw::Layer(s)] + rest));
            } else {
                assert(out@ + rest =~= before + (Seq::<Draw>::empty() + rest));
            }
        }
        k = k - 1;
    }
    assert(layers@.take(0) =~= Seq::<(SurfaceId, LayerKind)>::empty());
    assert(out@ =~= out@ + Seq::<Draw>::empty());
}

/// The drawing list of an output, front to back, and its clear colour (see
/// `output_elements_spec`). `layers` and `windows` run back to front;
/// `lock_surfaces` are the live ones.
pub fn output_elements(
    locked: bool,
    layers: &[(SurfaceId, LayerKind)],
    lock_layers: &[SurfaceId],
    lock_surfaces: &[SurfaceId],
    windows: &[(SurfaceId, bool)],
    visible: &[SurfaceId],
) -> (r: (Vec<Draw>, Clear))
    ensures
        (r.0@, r.1) == output_elements_spec(
            locked,
            layers@,
            lock_layers@,
            lock_surfaces@,
            windows@,
            visible@,
        ),
{
    let mut out: Vec<Draw> = Vec::new();
    if locked {
        push_lock_layers(layers, lock_layers, &mut out);
        let ghost base = out@;
        let mut k: usize = 0;
        while k < lock_surfaces.len()
            invariant
                0 <= k <= lock_surfaces@.len(),
                out@ == base + lock_surfaces@.take(k as int).map_values(
                    |s: SurfaceId| Draw::LockSurface(s),
                ),
            decreases lock_surfaces@.len() - k,
        {
            out.push(Draw::LockSurface(lock_surfaces[k]));
            assert(out@ =~= base + lock_surfaces@.take(k + 1).map_values(
                |s: SurfaceId| Draw::LockSurface(s),
            ));
            k = k + 1;
        }
        assert(lock_surfaces@.take(k as int) =~= lock_surfaces@);
        assert(Seq::<Draw>::empty() + base =~= base);
        return (out, Clear::Locked);
    }
    push_layers(layers, LayerPass::Overlay, false, &mut out);
    push_windows(windows, visible, true, &mut out);
    push_layers(layers, LayerPass::Top, false, &mut out);
    push_layers(layers, LayerPass::Lower, true, &mut out);
    let mut fullscreen = false;
    let mut k: usize = 0;
    while k < windows.len()
        invariant
            0 <= k <= windows@.len(),
            fullscreen == exists|i: int| 0 <= i < k && #[trigger] windows@[i].1,
        decreases windows@.len() - k,
    {
        if windows[k].1 {
            fullscreen = true;
        }
        k = k + 1;
    }
    if fullscreen || visible.len() != windows.len() {
        push_windows(windows, visible, false, &mut out);
    } else {
        out.push(Draw::AllWindows);
    }
    push_layers(layers, LayerPass::Lower, false, &mut out);
    assert(out@ =~= output_elements_spec(locked, layers@, lock_layers@, lock_surfaces@, windows@, visible@).0);
    (out, Clear::Normal)
}

/// While locked, nothing but the lock screen is drawn.
pub proof fn lemma_locked_draws_lock_screen(
    layers: Seq<(SurfaceId, LayerKind)>,
    lock_layers: Seq<SurfaceId>,
    lock_surfaces: Seq<SurfaceId>,
    windows: Seq<(SurfaceId, bool)>,
    visible: Seq<SurfaceId>,
    i: int,
)
    requires
        0 <= i < output_elements_spec(true, layers, lock_layers, lock_surfaces, windows, visible).0.len(),
    ensures
        ({
            let d = output_elements_spec(true, layers, lock_layers, lock_surfaces, windows, visible).0[i];
            (d matches Draw::Layer(s) && lock_layers.contains(s)) || (d matches Draw::LockSurface(s)
                && lock_surfaces.contains(s))
        }),
{
    let a = lock_layer_draws(layers, lock_layers);
    lemma_lock_layers_only(layers, lock_layers);
    if i < a.len() {
        assert(output_elements_spec(true, layers, lock_layers, lock_surfaces, windows, visible).0[i]
            == a[i]);
    } else {
        let j = i - a.len();
        assert(lock_surfaces.map_values(|s: SurfaceId| Draw::LockSurface(s))[j] == Draw::LockSurface(
            lock_surfaces[j],
        ));
        assert(lock_surfaces.contains(lock_surfaces[j]));
    }
}

proof fn lemma_lock_layers_only(layers: Seq<(SurfaceId, LayerKind)>, lock_layers: Seq<SurfaceId>)
    ensures
        forall|i: int|
            0 <= i < lock_layer_draws(layers, lock_layers).len() ==> (#[trigger] lock_layer_draws(
                layers,
                lock_layers,
            )[i] matches Draw::Layer(s) && lock_layers.contains(s)),
    decreases layers.len(),
{
    if layers.len() > 0 {
        lemma_lock_layers_only(layers.drop_last(), lock_layers);
        let l = layers.last();
        let head: Seq<Draw> = if lock_layers.contains(l.0) {
            seq![Draw::Layer(l.0)]
        } else {
            Seq::empty()
        };
        let rest = lock_layer_draws(layers.drop_last(), lock_layers);
        assert forall|i: int| 0 <= i < lock_layer_draws(layers, lock_layers).len() implies (
        #[trigger] lock_layer_draws(layers, lock_layers)[i] matches Draw::Layer(s)
            && lock_layers.contains(s)) by {
            if i >= head.len() {
                assert(lock_layer_draws(layers, lock_layers)[i] == rest[i - head.len()]);
            }
        }
    }
}

/// A window that is neither fullscreen nor visible is drawn only when every
/// window is drawn as the space stacks them.
pub proof fn lemma_hidden_window_not_drawn(windows: Seq<(SurfaceId, bool)>, visible: Seq<SurfaceId>, w: SurfaceId)
    requires
        !visible.contains(w),
        forall|i: int| 0 <= i < windows.len() && #[trigger] windows[i].0 == w ==> !windows[i].1,
    ensures
        !window_draws(windows, visible, true).contains(Draw::Window(w)),
        !window_draws(windows, visible, false).contains(Draw::Window(w)),
    decreases windows.len(),
{
    if windows.len() > 0 {
        let d = windows.drop_last();
        assert forall|i: int| 0 <= i < d.len() && #[trigger] d[i].0 == w implies !d[i].1 by {
            assert(d[i] == windows[i]);
        }
        lemma_hidden_window_not_drawn(d, visible, w);
        let l = windows.last();
        assert(windows[windows.len() - 1] == l);
        let rest_t = window_draws(d, visible, true);
        let rest_f = window_draws(d, visible, false);
        let all_t = window_draws(windows, visible, true);
        let all_f = window_draws(windows, visible, false);
        if all_t.contains(Draw::Window(w)) {
            let i = choose|i: int| 0 <= i < all_t.len() && all_t[i] == Draw::Window(w);
            if l.1 {
                if i > 0 {
                    assert(rest_t[i - 1] == Draw::Window(w));
                }
            } else {
                assert(rest_t[i] == Draw::Window(w));
            }
        }
        if all_f.contains(Draw::Window(w)) {
            let i = choose|i: int| 0 <= i < all_f.len() && all_f[i] == Draw::Window(w);
            if !l.1 && visible.contains(l.0) {
                if i > 0 {
                    assert(rest_f[i - 1] == Draw::Window(w));
                }
            } else {
                assert(rest_f[i] == Draw::Window(w));
            }
        }
    }
}

} // verus!
