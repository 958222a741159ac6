use mash_trigger::engine::{
    mash_frame, overlay_command, uinput_key_states, Frame, MashStep, MashingEngine,
};
use mash_trigger::identity::{Backend, InputIdentity, BUTTON_A, BUTTON_B, BUTTON_START, BUTTON_X, BUTTON_Y};
use mash_trigger::trigger_set::TriggerSet;

#[test]
fn active_ticks_cycle_one_trigger_at_a_time() {
    let t = TriggerSet::default_set(Backend::XInput);
    let mut e = MashingEngine::new();
    let mut frames = Vec::new();
    for _ in 0..7 {
        let step = e.tick(true);
        frames.push(mash_frame(&t, step.press));
    }
    let a = Frame { buttons: BUTTON_A, left_trigger: 0, right_trigger: 0 };
    let x = Frame { buttons: BUTTON_X, left_trigger: 0, right_trigger: 0 };
    let b = Frame { buttons: BUTTON_B, left_trigger: 0, right_trigger: 0 };
    assert_eq!(frames, vec![a, x, b, a, x, b, a]);
}

#[test]
fn inactive_ticks_are_neutral_and_keep_position() {
    let t = TriggerSet::default_set(Backend::XInput);
    let mut e = MashingEngine::new();
    assert_eq!(e.tick(false), MashStep { press: None, overlay: None });
    assert_eq!(mash_frame(&t, None), Frame::neutral());
    assert_eq!(e.tick(true).press, Some(0));
    assert_eq!(e.tick(false).press, None);
    assert_eq!(e.tick(true).press, Some(1));
    assert_eq!(e.tick(true).press, Some(2));
    assert_eq!(e.tick(true).press, Some(0));
}

#[test]
fn overlay_reported_only_on_transitions() {
    let mut e = MashingEngine::new();
    assert_eq!(e.tick(true).overlay, Some(true));
    assert_eq!(e.tick(true).overlay, None);
    assert_eq!(e.tick(true).overlay, None);
    assert_eq!(e.tick(false).overlay, Some(false));
    assert_eq!(e.tick(false).overlay, None);
    assert_eq!(e.tick(true).overlay, Some(true));
}

#[test]
fn trigger_frames_use_full_magnitude() {
    let t = TriggerSet::from_inputs(Backend::XInput, vec![
        InputIdentity::LeftTriggerAxis,
        InputIdentity::RightTriggerAxis,
        InputIdentity::DigitalButton(BUTTON_Y),
    ])
    .expect("valid set");
    assert_eq!(
        mash_frame(&t, Some(0)),
        Frame { buttons: 0, left_trigger: 255, right_trigger: 0 }
    );
    assert_eq!(
        mash_frame(&t, Some(1)),
        Frame { buttons: 0, left_trigger: 0, right_trigger: 255 }
    );
    assert_eq!(
        mash_frame(&t, Some(2)),
        Frame { buttons: 0x8000, left_trigger: 0, right_trigger: 0 }
    );
    assert_eq!(
        Frame::asserting(InputIdentity::DigitalButton(BUTTON_START)),
        Frame { buttons: 0x0010, left_trigger: 0, right_trigger: 0 }
    );
}

#[test]
fn linux_key_states_press_one_release_others() {
    let t = TriggerSet::default_set(Backend::XInput);
    assert_eq!(
        uinput_key_states(&t, Some(1)),
        vec![(0x130, false), (0x134, true), (0x131, false)]
    );
    assert_eq!(
        uinput_key_states(&t, None),
        vec![(0x130, false), (0x134, false), (0x131, false)]
    );
    let mixed = TriggerSet::from_inputs(Backend::Uinput, vec![
        InputIdentity::LeftTriggerAxis,
        InputIdentity::DigitalButton(BUTTON_Y),
        InputIdentity::DigitalButton(BUTTON_START),
    ])
    .expect("valid set");
    assert_eq!(
        uinput_key_states(&mixed, Some(2)),
        vec![(0x138, false), (0x133, false), (0x13B, true)]
    );
}

#[test]
fn overlay_commands() {
    assert_eq!(overlay_command(true), "masher_active");
    assert_eq!(overlay_command(false), "masher_inactive");
}
