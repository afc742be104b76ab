use mechanix_home::output_setup::{next_output_x, pick_mode};

#[test]
fn the_first_preferred_mode_is_picked() {
    assert_eq!(pick_mode(&[false, true, true]), Some(1));
}

#[test]
fn without_a_preferred_mode_the_first_is_picked() {
    assert_eq!(pick_mode(&[false, false]), Some(0));
}

#[test]
fn a_connector_without_modes_gets_none() {
    assert_eq!(pick_mode(&[]), None);
}

#[test]
fn new_outputs_go_to_the_right_of_the_others() {
    assert_eq!(next_output_x(&[]), 0);
    assert_eq!(next_output_x(&[1920, 720]), 2640);
}
