use mash_trigger::identity::{
    Backend, HostAxis, HostButton, InputIdentity, BUTTON_A, BUTTON_B, BUTTON_BACK, BUTTON_LB,
    BUTTON_START, BUTTON_X, BUTTON_Y,
};
use mash_trigger::protocol::{AppState, HostEvent, MashConfigurator};
use mash_trigger::trigger_set::TriggerSet;

fn down(which: u32, button: HostButton) -> HostEvent {
    HostEvent::ButtonDown { which, button }
}

fn up(which: u32, button: HostButton) -> HostEvent {
    HostEvent::ButtonUp { which, button }
}

#[test]
fn default_combo_activates_and_releases() {
    let mut c = MashConfigurator::new(TriggerSet::default_set(Backend::XInput));
    assert!(c.handle(down(7, HostButton::South)).is_none());
    assert!(!c.is_active());
    c.handle(down(7, HostButton::West));
    assert!(!c.is_active());
    c.handle(down(7, HostButton::East));
    assert!(c.is_active());
    c.handle(up(7, HostButton::West));
    assert!(!c.is_active());
    c.handle(down(7, HostButton::West));
    assert!(c.is_active());
    c.handle(up(7, HostButton::East));
    assert!(!c.is_active());
}

#[test]
fn combo_split_over_devices_does_not_activate() {
    let mut c = MashConfigurator::new(TriggerSet::default_set(Backend::XInput));
    c.handle(down(1, HostButton::South));
    c.handle(down(1, HostButton::West));
    c.handle(down(2, HostButton::East));
    assert!(!c.is_active());
}

#[test]
fn extra_held_inputs_still_activate() {
    let mut c = MashConfigurator::new(TriggerSet::default_set(Backend::XInput));
    c.handle(down(1, HostButton::Start));
    c.handle(down(1, HostButton::South));
    c.handle(down(1, HostButton::West));
    c.handle(down(1, HostButton::East));
    assert!(c.is_active());
    c.handle(HostEvent::DeviceRemoved { which: 1 });
    assert!(!c.is_active());
}

#[test]
fn teaching_takes_three_inputs_in_press_order() {
    let mut c = MashConfigurator::new(TriggerSet::default_set(Backend::XInput));
    c.toggle_configuration();
    assert_eq!(c.state(), AppState::DetectConfig);
    assert!(c.handle(down(3, HostButton::North)).is_none());
    assert!(c
        .handle(HostEvent::AxisMotion { which: 3, axis: HostAxis::TriggerLeft, value: 12000 })
        .is_none());
    let taught = c.handle(down(3, HostButton::Start)).expect("third press finalizes");
    let expected = vec![
        InputIdentity::DigitalButton(BUTTON_Y),
        InputIdentity::LeftTriggerAxis,
        InputIdentity::DigitalButton(BUTTON_START),
    ];
    assert_eq!(taught.inputs(), expected);
    assert_eq!(c.triggers().inputs(), expected);
    assert_eq!(c.state(), AppState::AcceptingInput);
    assert!(c.is_active());
    assert!(c.handle(down(3, HostButton::South)).is_none());
    assert_eq!(c.triggers().inputs(), expected);
    c.handle(up(3, HostButton::Start));
    assert!(!c.is_active());
}

#[test]
fn teaching_ignores_unmapped_and_other_axes() {
    let mut c = MashConfigurator::new(TriggerSet::default_set(Backend::XInput));
    c.toggle_configuration();
    c.handle(down(1, HostButton::Touchpad));
    c.handle(HostEvent::AxisMotion { which: 1, axis: HostAxis::LeftX, value: 30000 });
    c.handle(down(1, HostButton::North));
    c.handle(down(1, HostButton::Misc1));
    assert_eq!(c.state(), AppState::DetectConfig);
    assert_eq!(c.held_inputs(1), vec![InputIdentity::DigitalButton(BUTTON_Y)]);
}

#[test]
fn cancel_keeps_trigger_set() {
    let mut c = MashConfigurator::new(TriggerSet::default_set(Backend::XInput));
    c.toggle_configuration();
    c.handle(down(2, HostButton::North));
    c.handle(down(2, HostButton::Start));
    c.toggle_configuration();
    assert_eq!(c.state(), AppState::AcceptingInput);
    assert_eq!(
        c.triggers().inputs(),
        vec![
            InputIdentity::DigitalButton(BUTTON_A),
            InputIdentity::DigitalButton(BUTTON_X),
            InputIdentity::DigitalButton(BUTTON_B),
        ]
    );
    assert_eq!(c.held_inputs(2), Vec::<InputIdentity>::new());
}

#[test]
fn entering_teaching_turns_flag_off() {
    let mut c = MashConfigurator::new(TriggerSet::default_set(Backend::XInput));
    c.handle(down(7, HostButton::South));
    c.handle(down(7, HostButton::West));
    c.handle(down(7, HostButton::East));
    assert!(c.is_active());
    c.toggle_configuration();
    assert!(!c.is_active());
    c.handle(up(7, HostButton::South));
    assert!(!c.is_active());
}

#[test]
fn display_shows_device_holding_most() {
    let mut c = MashConfigurator::new(TriggerSet::default_set(Backend::XInput));
    assert_eq!(c.display_held(), Vec::<InputIdentity>::new());
    c.handle(down(1, HostButton::East));
    c.handle(down(2, HostButton::South));
    c.handle(down(2, HostButton::West));
    assert_eq!(
        c.display_held(),
        vec![InputIdentity::DigitalButton(BUTTON_A), InputIdentity::DigitalButton(BUTTON_X)]
    );
    assert_eq!(c.held_inputs(1), vec![InputIdentity::DigitalButton(BUTTON_B)]);
}

#[test]
fn uinput_teaching_ignores_dpad_and_sticks() {
    let mut c = MashConfigurator::new(TriggerSet::default_set(Backend::Uinput));
    c.toggle_configuration();
    c.handle(down(4, HostButton::DPadUp));
    c.handle(down(4, HostButton::LeftStick));
    c.handle(down(4, HostButton::North));
    assert_eq!(c.state(), AppState::DetectConfig);
    assert_eq!(c.held_inputs(4), vec![InputIdentity::DigitalButton(BUTTON_Y)]);
    c.handle(down(4, HostButton::DPadDown));
    c.handle(down(4, HostButton::Start));
    assert_eq!(c.state(), AppState::DetectConfig);
    let taught = c.handle(down(4, HostButton::LeftShoulder)).expect("third mapped press");
    assert_eq!(taught.backend(), Backend::Uinput);
    assert_eq!(
        taught.inputs(),
        vec![
            InputIdentity::DigitalButton(BUTTON_Y),
            InputIdentity::DigitalButton(BUTTON_START),
            InputIdentity::DigitalButton(BUTTON_LB),
        ]
    );
}

#[test]
fn teaching_on_second_device_ignores_first() {
    let mut c = MashConfigurator::new(TriggerSet::default_set(Backend::XInput));
    c.toggle_configuration();
    c.handle(down(1, HostButton::North));
    c.handle(down(1, HostButton::South));
    c.handle(down(2, HostButton::West));
    c.handle(down(2, HostButton::East));
    assert_eq!(c.state(), AppState::DetectConfig);
    let taught = c.handle(down(2, HostButton::Back)).expect("device 2 reaches three");
    assert_eq!(
        taught.inputs(),
        vec![
            InputIdentity::DigitalButton(BUTTON_X),
            InputIdentity::DigitalButton(BUTTON_B),
            InputIdentity::DigitalButton(BUTTON_BACK),
        ]
    );
}
