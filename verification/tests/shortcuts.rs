use mechanix_home::shortcuts::{
    action_of, filter_key, process_keyboard_shortcut, KeyAction, KeyFilter, Modifiers,
    KEY_BACKSPACE, KEY_Q, KEY_RETURN, KEY_SWITCH_VT_1, KEY_SWITCH_VT_12,
};

fn mods(ctrl: bool, alt: bool, logo: bool) -> Modifiers {
    Modifiers { ctrl, alt, shift: false, logo }
}

#[test]
fn quit_bindings() {
    assert!(matches!(process_keyboard_shortcut(mods(true, true, false), KEY_BACKSPACE), Some(KeyAction::Quit)));
    assert!(matches!(process_keyboard_shortcut(mods(false, false, true), KEY_Q), Some(KeyAction::Quit)));
    assert!(process_keyboard_shortcut(mods(true, false, false), KEY_BACKSPACE).is_none());
}

#[test]
fn vt_keys_switch_terminals() {
    assert!(matches!(process_keyboard_shortcut(mods(false, false, false), KEY_SWITCH_VT_1), Some(KeyAction::VtSwitch(1))));
    assert!(matches!(process_keyboard_shortcut(mods(true, true, false), KEY_SWITCH_VT_12), Some(KeyAction::VtSwitch(12))));
    assert!(process_keyboard_shortcut(mods(false, false, false), KEY_SWITCH_VT_12 + 1).is_none());
}

#[test]
fn logo_return_runs_a_terminal() {
    assert!(matches!(process_keyboard_shortcut(mods(false, false, true), KEY_RETURN), Some(KeyAction::Run(ref c)) if c == "weston-terminal"));
    assert!(process_keyboard_shortcut(mods(false, false, false), KEY_RETURN).is_none());
}

#[test]
fn binding_release_is_swallowed() {
    let mut suppressed = Vec::new();
    let down = filter_key(&mut suppressed, true, mods(false, false, true), KEY_Q);
    assert!(matches!(down, KeyFilter::Intercept(KeyAction::Quit)));
    assert_eq!(suppressed, vec![KEY_Q]);
    let up = filter_key(&mut suppressed, false, mods(false, false, false), KEY_Q);
    assert!(matches!(up, KeyFilter::Intercept(KeyAction::NoOp)));
    assert!(suppressed.is_empty());
}

#[test]
fn ordinary_keys_reach_the_client() {
    let mut suppressed = vec![KEY_Q];
    let f = filter_key(&mut suppressed, true, mods(false, false, false), 0x61);
    assert!(matches!(f, KeyFilter::Forward));
    let g = filter_key(&mut suppressed, false, mods(false, false, false), 0x61);
    assert!(matches!(g, KeyFilter::Forward));
    assert_eq!(suppressed, vec![KEY_Q]);
    assert!(matches!(action_of(g), KeyAction::NoOp));
}
