use mash_trigger::identity::{
    evdev_code, is_input_of, sdl_axis_to_input, Backend, sdl_button_to_input, HostAxis, HostButton, InputIdentity,
    BUTTON_A, BUTTON_B, BUTTON_BACK, BUTTON_DOWN, BUTTON_GUIDE, BUTTON_LB, BUTTON_LEFT,
    BUTTON_LTHUMB, BUTTON_RB, BUTTON_RIGHT, BUTTON_RTHUMB, BUTTON_START, BUTTON_UP, BUTTON_X,
    BUTTON_Y,
};

#[test]
fn face_buttons_map_to_xinput_masks() {
    assert_eq!(sdl_button_to_input(Backend::XInput, HostButton::North), Some(InputIdentity::DigitalButton(0x8000)));
    assert_eq!(sdl_button_to_input(Backend::XInput, HostButton::East), Some(InputIdentity::DigitalButton(0x2000)));
    assert_eq!(sdl_button_to_input(Backend::XInput, HostButton::South), Some(InputIdentity::DigitalButton(0x1000)));
    assert_eq!(sdl_button_to_input(Backend::XInput, HostButton::West), Some(InputIdentity::DigitalButton(0x4000)));
}

#[test]
fn other_supported_buttons_map() {
    let table = [
        (HostButton::Back, BUTTON_BACK),
        (HostButton::Guide, BUTTON_GUIDE),
        (HostButton::Start, BUTTON_START),
        (HostButton::LeftStick, BUTTON_LTHUMB),
        (HostButton::RightStick, BUTTON_RTHUMB),
        (HostButton::LeftShoulder, BUTTON_LB),
        (HostButton::RightShoulder, BUTTON_RB),
        (HostButton::DPadUp, BUTTON_UP),
        (HostButton::DPadDown, BUTTON_DOWN),
        (HostButton::DPadLeft, BUTTON_LEFT),
        (HostButton::DPadRight, BUTTON_RIGHT),
    ];
    for (button, mask) in table {
        assert_eq!(sdl_button_to_input(Backend::XInput, button), Some(InputIdentity::DigitalButton(mask)));
    }
}

#[test]
fn unsupported_buttons_have_no_identity() {
    for button in [
        HostButton::Misc1,
        HostButton::Misc6,
        HostButton::LeftPaddle1,
        HostButton::RightPaddle2,
        HostButton::Touchpad,
    ] {
        assert_eq!(sdl_button_to_input(Backend::XInput, button), None);
    }
}

#[test]
fn only_trigger_axes_have_identities() {
    assert_eq!(sdl_axis_to_input(HostAxis::TriggerLeft), Some(InputIdentity::LeftTriggerAxis));
    assert_eq!(sdl_axis_to_input(HostAxis::TriggerRight), Some(InputIdentity::RightTriggerAxis));
    assert_eq!(sdl_axis_to_input(HostAxis::LeftX), None);
    assert_eq!(sdl_axis_to_input(HostAxis::RightY), None);
}

#[test]
fn evdev_codes_of_pad_keys() {
    assert_eq!(evdev_code(InputIdentity::DigitalButton(BUTTON_A)), Some(0x130));
    assert_eq!(evdev_code(InputIdentity::DigitalButton(BUTTON_B)), Some(0x131));
    assert_eq!(evdev_code(InputIdentity::DigitalButton(BUTTON_Y)), Some(0x133));
    assert_eq!(evdev_code(InputIdentity::DigitalButton(BUTTON_X)), Some(0x134));
    assert_eq!(evdev_code(InputIdentity::DigitalButton(BUTTON_START)), Some(0x13B));
    assert_eq!(evdev_code(InputIdentity::LeftTriggerAxis), Some(0x138));
    assert_eq!(evdev_code(InputIdentity::RightTriggerAxis), Some(0x139));
    assert_eq!(evdev_code(InputIdentity::DigitalButton(0x0800)), None);
    assert_eq!(evdev_code(InputIdentity::DigitalButton(BUTTON_A | BUTTON_B)), None);
}

#[test]
fn uinput_table_has_nine_buttons() {
    let mapped = [
        (HostButton::North, BUTTON_Y),
        (HostButton::East, BUTTON_B),
        (HostButton::South, BUTTON_A),
        (HostButton::West, BUTTON_X),
        (HostButton::Back, BUTTON_BACK),
        (HostButton::Guide, BUTTON_GUIDE),
        (HostButton::Start, BUTTON_START),
        (HostButton::LeftShoulder, BUTTON_LB),
        (HostButton::RightShoulder, BUTTON_RB),
    ];
    for (button, mask) in mapped {
        assert_eq!(
            sdl_button_to_input(Backend::Uinput, button),
            Some(InputIdentity::DigitalButton(mask))
        );
    }
    for button in [
        HostButton::LeftStick,
        HostButton::RightStick,
        HostButton::DPadUp,
        HostButton::DPadDown,
        HostButton::DPadLeft,
        HostButton::DPadRight,
        HostButton::Misc1,
        HostButton::Touchpad,
    ] {
        assert_eq!(sdl_button_to_input(Backend::Uinput, button), None);
    }
}

#[test]
fn backend_inputs() {
    assert!(is_input_of(Backend::XInput, InputIdentity::DigitalButton(BUTTON_UP)));
    assert!(!is_input_of(Backend::Uinput, InputIdentity::DigitalButton(BUTTON_UP)));
    assert!(!is_input_of(Backend::Uinput, InputIdentity::DigitalButton(BUTTON_LTHUMB)));
    assert!(is_input_of(Backend::Uinput, InputIdentity::DigitalButton(BUTTON_START)));
    assert!(is_input_of(Backend::Uinput, InputIdentity::LeftTriggerAxis));
    assert!(is_input_of(Backend::XInput, InputIdentity::RightTriggerAxis));
    assert!(!is_input_of(Backend::XInput, InputIdentity::DigitalButton(0x0999)));
    assert!(!is_input_of(Backend::XInput, InputIdentity::DigitalButton(0x0800)));
    assert!(!is_input_of(Backend::XInput, InputIdentity::DigitalButton(BUTTON_A | BUTTON_B)));
}
