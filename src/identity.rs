use vstd::prelude::*;

verus! {

/// XInput button-mask bits of the emulated controller.
pub const BUTTON_UP: u16 = 0x0001;
pub const BUTTON_DOWN: u16 = 0x0002;
pub const BUTTON_LEFT: u16 = 0x0004;
pub const BUTTON_RIGHT: u16 = 0x0008;
pub const BUTTON_START: u16 = 0x0010;
pub const BUTTON_BACK: u16 = 0x0020;
pub const BUTTON_LTHUMB: u16 = 0x0040;
pub const BUTTON_RTHUMB: u16 = 0x0080;
pub const BUTTON_LB: u16 = 0x0100;
pub const BUTTON_RB: u16 = 0x0200;
pub const BUTTON_GUIDE: u16 = 0x0400;
pub const BUTTON_A: u16 = 0x1000;
pub const BUTTON_B: u16 = 0x2000;
pub const BUTTON_X: u16 = 0x4000;
pub const BUTTON_Y: u16 = 0x8000;

/// One controllable input: a digital button (by its XInput mask) or an
/// analog trigger treated as digital.
#[derive(Clone, Copy, Debug, PartialEq, Eq, Hash, Structural)]
pub enum InputIdentity {
    DigitalButton(u16),
    LeftTriggerAxis,
    RightTriggerAxis,
}

/// The buttons that the host gamepad subsystem reports.
#[derive(Clone, Copy, Debug, PartialEq, Eq, Hash, Structural)]
pub enum HostButton {
    North,
    East,
    South,
    West,
    Back,
    Guide,
    Start,
    LeftStick,
    RightStick,
    LeftShoulder,
    RightShoulder,
    DPadUp,
    DPadDown,
    DPadLeft,
    DPadRight,
    Misc1,
    Misc2,
    Misc3,
    Misc4,
    Misc5,
    Misc6,
    RightPaddle1,
    LeftPaddle1,
    RightPaddle2,
    LeftPaddle2,
    Touchpad,
}

/// The analog axes that the host gamepad subsystem reports.
#[derive(Clone, Copy, Debug, PartialEq, Eq, Hash, Structural)]
pub enum HostAxis {
    LeftX,
    LeftY,
    RightX,
    RightY,
    TriggerLeft,
    TriggerRight,
}

/// The virtual controller that the library drives: a ViGEm XInput pad
/// (Windows) or a uinput pad (Linux). Their tables differ: the uinput pad
/// takes the face buttons, Back, Guide, Start and the shoulders, while the
/// XInput pad also takes the d-pad and the stick buttons.
#[derive(Clone, Copy, Debug, PartialEq, Eq, Hash, Structural)]
pub enum Backend {
    XInput,
    Uinput,
}

/// The identity of a host button on a backend; `None` for buttons that
/// backend does not carry.
pub open spec fn button_identity(backend: Backend, button: HostButton) -> Option<InputIdentity> {
    match button {
        HostButton::North => Some(InputIdentity::DigitalButton(BUTTON_Y)),
        HostButton::East => Some(InputIdentity::DigitalButton(BUTTON_B)),
        HostButton::South => Some(InputIdentity::DigitalButton(BUTTON_A)),
        HostButton::West => Some(InputIdentity::DigitalButton(BUTTON_X)),
        HostButton::Back => Some(InputIdentity::DigitalButton(BUTTON_BACK)),
        HostButton::Guide => Some(InputIdentity::DigitalButton(BUTTON_GUIDE)),
        HostButton::Start => Some(InputIdentity::DigitalButton(BUTTON_START)),
        HostButton::LeftShoulder => Some(InputIdentity::DigitalButton(BUTTON_LB)),
        HostButton::RightShoulder => Some(InputIdentity::DigitalButton(BUTTON_RB)),
        HostButton::LeftStick => if backend == Backend::XInput {
            Some(InputIdentity::DigitalButton(BUTTON_LTHUMB))
        } else {
            None
        },
        HostButton::RightStick => if backend == Backend::XInput {
            Some(InputIdentity::DigitalButton(BUTTON_RTHUMB))
        } else {
            None
        },
        HostButton::DPadUp => if backend == Backend::XInput {
            Some(InputIdentity::DigitalButton(BUTTON_UP))
        } else {
            None
        },
        HostButton::DPadDown => if backend == Backend::XInput {
            Some(InputIdentity::DigitalButton(BUTTON_DOWN))
        } else {
            None
        },
        HostButton::DPadLeft => if backend == Backend::XInput {
            Some(InputIdentity::DigitalButton(BUTTON_LEFT))
        } else {
            None
        },
        HostButton::DPadRight => if backend == Backend::XInput {
            Some(InputIdentity::DigitalButton(BUTTON_RIGHT))
        } else {
            None
        },
        _ => None,
    }
}

/// Whether some host input yields `id` on `backend`: a trigger axis, or
/// the identity of one of the backend's buttons.
pub open spec fn is_backend_input(backend: Backend, id: InputIdentity) -> bool {
    match id {
        InputIdentity::DigitalButton(_) => exists|b: HostButton|
            #[trigger] button_identity(backend, b) == Some(id),
        _ => true,
    }
}

/// The identity of a host axis: only the two triggers have one.
pub open spec fn axis_identity(axis: HostAxis) -> Option<InputIdentity> {
    match axis {
        HostAxis::TriggerLeft => Some(InputIdentity::LeftTriggerAxis),
        HostAxis::TriggerRight => Some(InputIdentity::RightTriggerAxis),
        _ => None,
    }
}

/// Maps a host button to its input identity on `backend`.
pub fn sdl_button_to_input(backend: Backend, button: HostButton) -> (r: Option<InputIdentity>)
    ensures
        r == button_identity(backend, button),
{
    let xinput = backend == Backend::XInput;
    match button {
        HostButton::North => Some(InputIdentity::DigitalButton(BUTTON_Y)),
        HostButton::East => Some(InputIdentity::DigitalButton(BUTTON_B)),
        HostButton::South => Some(InputIdentity::DigitalButton(BUTTON_A)),
        HostButton::West => Some(InputIdentity::DigitalButton(BUTTON_X)),
        HostButton::Back => Some(InputIdentity::DigitalButton(BUTTON_BACK)),
        HostButton::Guide => Some(InputIdentity::DigitalButton(BUTTON_GUIDE)),
        HostButton::Start => Some(InputIdentity::DigitalButton(BUTTON_START)),
        HostButton::LeftShoulder => Some(InputIdentity::DigitalButton(BUTTON_LB)),
        HostButton::RightShoulder => Some(InputIdentity::DigitalButton(BUTTON_RB)),
        HostButton::LeftStick if xinput => Some(InputIdentity::DigitalButton(BUTTON_LTHUMB)),
        HostButton::RightStick if xinput => Some(InputIdentity::DigitalButton(BUTTON_RTHUMB)),
        HostButton::DPadUp if xinput => Some(InputIdentity::DigitalButton(BUTTON_UP)),
        HostButton::DPadDown if xinput => Some(InputIdentity::DigitalButton(BUTTON_DOWN)),
        HostButton::DPadLeft if xinput => Some(InputIdentity::DigitalButton(BUTTON_LEFT)),
        HostButton::DPadRight if xinput => Some(InputIdentity::DigitalButton(BUTTON_RIGHT)),
        _ => None,
    }
}

/// Whether some host input yields `id` on `backend`.
pub fn is_input_of(backend: Backend, id: InputIdentity) -> (r: bool)
    ensures
        r == is_backend_input(backend, id),
{
    match id {
        InputIdentity::DigitalButton(m) => {
            let found = if m == BUTTON_Y {
                Some(HostButton::North)
            } else if m == BUTTON_B {
                Some(HostButton::East)
            } else if m == BUTTON_A {
                Some(HostButton::South)
            } else if m == BUTTON_X {
                Some(HostButton::West)
            } else if m == BUTTON_BACK {
                Some(HostButton::Back)
            } else if m == BUTTON_GUIDE {
                Some(HostButton::Guide)
            } else if m == BUTTON_START {
                Some(HostButton::Start)
            } else if m == BUTTON_LB {
                Some(HostButton::LeftShoulder)
            } else if m == BUTTON_RB {
                Some(HostButton::RightShoulder)
            } else if m == BUTTON_LTHUMB {
                Some(HostButton::LeftStick)
            } else if m == BUTTON_RTHUMB {
                Some(HostButton::RightStick)
            } else if m == BUTTON_UP {
                Some(HostButton::DPadUp)
            } else if m == BUTTON_DOWN {
                Some(HostButton::DPadDown)
            } else if m == BUTTON_LEFT {
                Some(HostButton::DPadLeft)
            } else if m == BUTTON_RIGHT {
                Some(HostButton::DPadRight)
            } else {
                None
            };
            match found {
                Some(b) => {
                    let r = sdl_button_to_input(backend, b) == Some(id);
                    proof {
                        if !r {
                            assert forall|c: HostButton|
                                #[trigger] button_identity(backend, c) != Some(id) by {}
                        }
                    }
                    r
                },
                None => {
                    proof {
                        assert forall|c: HostButton|
                            #[trigger] button_identity(backend, c) != Some(id) by {}
                    }
                    false
                },
            }
        },
        _ => true,
    }
}

/// Maps a host axis to its input identity.
pub fn sdl_axis_to_input(axis: HostAxis) -> (r: Option<InputIdentity>)
    ensures
        r == axis_identity(axis),
{
    match axis {
        HostAxis::TriggerLeft => Some(InputIdentity::LeftTriggerAxis),
        HostAxis::TriggerRight => Some(InputIdentity::RightTriggerAxis),
        _ => None,
    }
}

/// The Linux evdev key code (`BTN_*`) of the virtual pad's key for an
/// identity; `None` for a mask that is not one of the pad's buttons.
pub open spec fn evdev_code_of(id: InputIdentity) -> Option<u16> {
    match id {
        InputIdentity::LeftTriggerAxis => Some(0x138u16),
        InputIdentity::RightTriggerAxis => Some(0x139u16),
        InputIdentity::DigitalButton(m) => {
            if m == BUTTON_A {
                Some(0x130u16)
            } else if m == BUTTON_B {
                Some(0x131u16)
            } else if m == BUTTON_Y {
                Some(0x133u16)
            } else if m == BUTTON_X {
                Some(0x134u16)
            } else if m == BUTTON_LB {
                Some(0x136u16)
            } else if m == BUTTON_RB {
                Some(0x137u16)
            } else if m == BUTTON_BACK {
                Some(0x13Au16)
            } else if m == BUTTON_START {
                Some(0x13Bu16)
            } else if m == BUTTON_GUIDE {
                Some(0x13Cu16)
            } else if m == BUTTON_LTHUMB {
                Some(0x13Du16)
            } else if m == BUTTON_RTHUMB {
                Some(0x13Eu16)
            } else if m == BUTTON_UP {
                Some(0x220u16)
            } else if m == BUTTON_DOWN {
                Some(0x221u16)
            } else if m == BUTTON_LEFT {
                Some(0x222u16)
            } else if m == BUTTON_RIGHT {
                Some(0x223u16)
            } else {
                None
            }
        },
    }
}

/// The evdev key code of the virtual pad's key for an identity.
pub fn evdev_code(id: InputIdentity) -> (r: Option<u16>)
    ensures
        r == evdev_code_of(id),
{
    match id {
        InputIdentity::LeftTriggerAxis => Some(0x138),
        InputIdentity::RightTriggerAxis => Some(0x139),
        InputIdentity::DigitalButton(m) => {
            if m == BUTTON_A {
                Some(0x130)
            } else if m == BUTTON_B {
                Some(0x131)
            } else if m == BUTTON_Y {
                Some(0x133)
            } else if m == BUTTON_X {
                Some(0x134)
            } else if m == BUTTON_LB {
                Some(0x136)
            } else if m == BUTTON_RB {
                Some(0x137)
            } else if m == BUTTON_BACK {
                Some(0x13A)
            } else if m == BUTTON_START {
                Some(0x13B)
            } else if m == BUTTON_GUIDE {
                Some(0x13C)
            } else if m == BUTTON_LTHUMB {
                Some(0x13D)
            } else if m == BUTTON_RTHUMB {
                Some(0x13E)
            } else if m == BUTTON_UP {
                Some(0x220)
            } else if m == BUTTON_DOWN {
                Some(0x221)
            } else if m == BUTTON_LEFT {
                Some(0x222)
            } else if m == BUTTON_RIGHT {
                Some(0x223)
            } else {
                None
            }
        },
    }
}

} // verus!
