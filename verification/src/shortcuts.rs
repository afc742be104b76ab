//! Compositor key bindings, and which key events reach the focused client.
//!
//! A press that triggers a binding is kept from the client, and so is the
//! release of that key.

use vstd::prelude::*;
use vstd::string::StringExecFns;

verus! {

/// Keysym of BackSpace.
pub const KEY_BACKSPACE: u32 = 0xff08;
/// Keysym of `q`.
pub const KEY_Q: u32 = 0x0071;
/// Keysym of Return.
pub const KEY_RETURN: u32 = 0xff0d;
/// Keysym of XF86Switch_VT_1; the twelve VT keys follow it.
pub const KEY_SWITCH_VT_1: u32 = 0x1008_fe01;
/// Keysym of XF86Switch_VT_12.
pub const KEY_SWITCH_VT_12: u32 = 0x1008_fe0c;

/// The modifier keys the bindings look at.
#[derive(Clone, Copy, Debug, PartialEq, Eq, Structural)]
pub struct Modifiers {
    pub ctrl: bool,
    pub alt: bool,
    pub shift: bool,
    pub logo: bool,
}

/// What a key event asks of the compositor.
#[derive(Debug)]
pub enum KeyAction {
    /// Quit the compositor.
    Quit,
    /// Switch to this virtual terminal.
    VtSwitch(i32),
    /// Run a command.
    Run(String),
    /// Do nothing more.
    NoOp,
}

pub enum KeyActionView {
    Quit,
    VtSwitch(i32),
    Run(Seq<char>),
    NoOp,
}

impl View for KeyAction {
    type V = KeyActionView;

    open spec fn view(&self) -> KeyActionView {
        match self {
            KeyAction::Quit => KeyActionView::Quit,
            KeyAction::VtSwitch(n) => KeyActionView::VtSwitch(*n),
            KeyAction::Run(s) => KeyActionView::Run(s@),
            KeyAction::NoOp => KeyActionView::NoOp,
        }
    }
}

/// The bindings: Ctrl+Alt+BackSpace and Logo+q quit, XF86Switch_VT_n
/// switches to VT n, Logo+Return starts a terminal.
pub open spec fn shortcut_spec(m: Modifiers, keysym: u32) -> Option<KeyActionView> {
    if (m.ctrl && m.alt && keysym == KEY_BACKSPACE) || (m.logo && keysym == KEY_Q) {
        Some(KeyActionView::Quit)
    } else if KEY_SWITCH_VT_1 <= keysym <= KEY_SWITCH_VT_12 {
        Some(KeyActionView::VtSwitch((keysym - KEY_SWITCH_VT_1 + 1) as i32))
    } else if m.logo && keysym == KEY_RETURN {
        Some(KeyActionView::Run("weston-terminal"@))
    } else {
        None
    }
}

pub fn process_keyboard_shortcut(modifiers: Modifiers, keysym: u32) -> (r: Option<KeyAction>)
    ensures
        match r {
            Some(a) => shortcut_spec(modifiers, keysym) == Some(a@),
            None => shortcut_spec(modifiers, keysym) is None,
        },
{
    if modifiers.ctrl && modifiers.alt && keysym == KEY_BACKSPACE || modifiers.logo && keysym
        == KEY_Q {
        Some(KeyAction::Quit)
    } else if KEY_SWITCH_VT_1 <= keysym && keysym <= KEY_SWITCH_VT_12 {
        Some(KeyAction::VtSwitch((keysym - KEY_SWITCH_VT_1 + 1) as i32))
    } else if modifiers.logo && keysym == KEY_RETURN {
        Some(KeyAction::Run(String::from_str("weston-terminal")))
    } else {
        None
    }
}

/// Whether a key event goes to the client or is taken by the compositor.
#[derive(Debug)]
pub enum KeyFilter {
    Forward,
    Intercept(KeyAction),
}

pub enum KeyFilterView {
    Forward,
    Intercept(KeyActionView),
}

impl View for KeyFilter {
    type V = KeyFilterView;

    open spec fn view(&self) -> KeyFilterView {
        match self {
            KeyFilter::Forward => KeyFilterView::Forward,
            KeyFilter::Intercept(a) => KeyFilterView::Intercept(a@),
        }
    }
}

/// `s` without any occurrence of `k`.
pub open spec fn without_key(s: Seq<u32>, k: u32) -> Seq<u32>
    decreases s.len(),
{
    if s.len() == 0 {
        s
    } else if s.last() == k {
        without_key(s.drop_last(), k)
    } else {
        without_key(s.drop_last(), k).push(s.last())
    }
}

/// A press that triggers a binding is intercepted and its key remembered;
/// the release of a remembered key is intercepted (doing nothing) and the
/// key forgotten; everything else goes to the client.
pub open spec fn filter_spec(suppressed: Seq<u32>, pressed: bool, m: Modifiers, keysym: u32) -> (
    KeyFilterView,
    Seq<u32>,
) {
    if pressed {
        match shortcut_spec(m, keysym) {
            Some(a) => (KeyFilterView::Intercept(a), suppressed.push(keysym)),
            None => (KeyFilterView::Forward, suppressed),
        }
    } else if suppressed.contains(keysym) {
        (KeyFilterView::Intercept(KeyActionView::NoOp), without_key(suppressed, keysym))
    } else {
        (KeyFilterView::Forward, suppressed)
    }
}

/// Filter one key event (see `filter_spec`); `suppressed` holds the keys
/// whose press was intercepted.
pub fn filter_key(suppressed: &mut Vec<u32>, pressed: bool, modifiers: Modifiers, keysym: u32) -> (r:
    KeyFilter)
    ensures
        (r@, final(suppressed)@) == filter_spec(old(suppressed)@, pressed, modifiers, keysym),
{
    if pressed {
        match process_keyboard_shortcut(modifiers, keysym) {
            Some(a) => {
                suppressed.push(keysym);
                KeyFilter::Intercept(a)
            },
            None => KeyFilter::Forward,
        }
    } else {
        let mut found = false;
        let mut kept: Vec<u32> = Vec::new();
        let ghost s0 = suppressed@;
        let mut k: usize = 0;
        assert(s0.take(0) =~= Seq::<u32>::empty());
        while k < suppressed.len()
            invariant
                0 <= k <= s0.len(),
                suppressed@ == s0,
                kept@ == without_key(s0.take(k as int), keysym),
                found == s0.take(k as int).contains(keysym),
            decreases s0.len() - k,
        {
            assert(s0.take(k + 1).drop_last() =~= s0.take(k as int));
            assert(s0.take(k + 1)[k as int] == s0[k as int]);
            if suppressed[k] == keysym {
                found = true;
            } else {
                kept.push(suppressed[k]);
            }
            proof {
                if s0.take(k as int).contains(keysym) {
                    let t = s0.take(k as int);
                    let i = choose|i: int| 0 <= i < t.len() && t[i] == keysym;
                    assert(s0.take(k + 1)[i] == keysym);
                }
                if s0.take(k + 1).contains(keysym) && s0[k as int] != keysym {
                    let t = s0.take(k + 1);
                    let i = choose|i: int| 0 <= i < t.len() && t[i] == keysym;
                    assert(s0.take(k as int)[i] == keysym);
                }
            }
            k = k + 1;
        }
        assert(s0.take(k as int) =~= s0);
        if found {
            *suppressed = kept;
            KeyFilter::Intercept(KeyAction::NoOp)
        } else {
            KeyFilter::Forward
        }
    }
}

/// The action of a key event: the intercepted one, or nothing more when
/// the client gets the key.
pub fn action_of(f: KeyFilter) -> (a: KeyAction)
    ensures
        a@ == match f@ {
            KeyFilterView::Intercept(x) => x,
            KeyFilterView::Forward => KeyActionView::NoOp,
        },
{
    match f {
        KeyFilter::Intercept(a) => a,
        KeyFilter::Forward => KeyAction::NoOp,
    }
}

proof fn lemma_without_key_not_contains(s: Seq<u32>, k: u32)
    ensures
        !without_key(s, k).contains(k),
    decreases s.len(),
{
    if s.len() > 0 {
        lemma_without_key_not_contains(s.drop_last(), k);
        let r = without_key(s.drop_last(), k);
        if s.last() != k {
            if r.push(s.last()).contains(k) {
                let i = choose|i: int| 0 <= i < r.push(s.last()).len() && r.push(s.last())[i] == k;
                assert(r[i] == k);
            }
        }
    }
}

/// A key whose press triggered a binding never reaches the client: the
/// press and the release that follows are both intercepted, and afterwards
/// the key is no longer held back.
pub proof fn lemma_binding_swallows_release(suppressed: Seq<u32>, m: Modifiers, keysym: u32)
    requires
        shortcut_spec(m, keysym) is Some,
    ensures
        ({
            let (down, after) = filter_spec(suppressed, true, m, keysym);
            let (up, last) = filter_spec(after, false, m, keysym);
            &&& down is Intercept
            &&& up == KeyFilterView::Intercept(KeyActionView::NoOp)
            &&& !last.contains(keysym)
        }),
{
    let after = suppressed.push(keysym);
    assert(after[suppressed.len() as int] == keysym);
    lemma_without_key_not_contains(after, keysym);
}

} // verus!
