use mechanix_home::device_state::{
    advertised_capabilities, answer, refusal_message, DeviceRequest, CAP_LID_SWITCH,
    ERROR_MISSING_CAPABILITY,
};
use mechanix_home::output_power::{mode_from_wire, HandleReply, OutputPowerManagerState};

#[test]
fn blanking_and_waking_an_output() {
    let mut p = OutputPowerManagerState::new();
    assert_eq!(p.bind_handle(Some(1), true, 10), HandleReply::Mode(true));
    assert!(!p.power_unchanged(1, false));
    assert_eq!(p.power_set(1, false), vec![10]);
    assert!(p.is_off(1));
    assert!(p.power_unchanged(1, false));
    assert_eq!(p.wake_targets(), vec![1]);
    assert_eq!(p.bind_handle(Some(1), true, 11), HandleReply::Mode(false));
    assert_eq!(p.power_set(1, true), vec![10, 11]);
    assert!(!p.is_off(1));
    assert!(p.wake_targets().is_empty());
}

#[test]
fn unsupported_or_missing_outputs_fail_the_handle() {
    let mut p = OutputPowerManagerState::new();
    assert_eq!(p.bind_handle(None, true, 1), HandleReply::Failed);
    assert_eq!(p.bind_handle(Some(2), false, 1), HandleReply::Failed);
    assert!(p.handles_of(2).is_empty());
}

#[test]
fn removing_an_output_fails_its_handles() {
    let mut p = OutputPowerManagerState::new();
    p.bind_handle(Some(1), true, 10);
    p.bind_handle(Some(2), true, 20);
    p.power_set(1, false);
    assert_eq!(p.output_removed(1), vec![10]);
    assert!(!p.is_off(1));
    assert!(p.handles_of(1).is_empty());
    assert_eq!(p.handles_of(2), vec![20]);
    p.remove_handle(20);
    assert!(p.handles_of(2).is_empty());
}

#[test]
fn wire_modes() {
    assert_eq!(mode_from_wire(1), Some(true));
    assert_eq!(mode_from_wire(0), Some(false));
    assert_eq!(mode_from_wire(2), None);
}

#[test]
fn switch_requests_are_refused_without_capabilities() {
    assert_eq!(advertised_capabilities(), 0);
    assert_eq!(answer(0, DeviceRequest::GetTabletModeSwitch), Err(ERROR_MISSING_CAPABILITY));
    assert_eq!(answer(0, DeviceRequest::GetLidSwitch), Err(ERROR_MISSING_CAPABILITY));
    assert_eq!(answer(CAP_LID_SWITCH, DeviceRequest::GetLidSwitch), Ok(()));
    assert_eq!(refusal_message(DeviceRequest::GetLidSwitch), "lid switch not supported");
}

#[test]
fn input_while_blanked_wakes_everything_and_is_swallowed() {
    let mut p = OutputPowerManagerState::new();
    assert_eq!(p.wake_outputs_if_off(), (false, vec![]));
    p.power_set(3, false);
    p.power_set(5, false);
    assert_eq!(p.wake_outputs_if_off(), (true, vec![3, 5]));
    p.power_set(3, true);
    p.power_set(5, true);
    assert_eq!(p.wake_outputs_if_off(), (false, vec![]));
}
