use crate::identity::{evdev_code, evdev_code_of, Backend, InputIdentity};
use crate::trigger_set::{valid_triggers, TriggerSet, TRIGGER_COUNT};
use vstd::prelude::*;

verus! {

/// The state asserted on the virtual controller: a button mask and the two
/// analog trigger magnitudes. Each update replaces the whole frame.
#[derive(Clone, Copy, Debug, PartialEq, Eq, Structural)]
pub struct Frame {
    pub buttons: u16,
    pub left_trigger: u8,
    pub right_trigger: u8,
}

/// The frame with nothing pressed.
pub open spec fn neutral_frame() -> Frame {
    Frame { buttons: 0, left_trigger: 0, right_trigger: 0 }
}

/// The frame that asserts `id` and nothing else.
pub open spec fn frame_of(id: InputIdentity) -> Frame {
    match id {
        InputIdentity::DigitalButton(mask) => Frame { buttons: mask, left_trigger: 0, right_trigger: 0 },
        InputIdentity::LeftTriggerAxis => Frame { buttons: 0, left_trigger: 255, right_trigger: 0 },
        InputIdentity::RightTriggerAxis => Frame { buttons: 0, left_trigger: 0, right_trigger: 255 },
    }
}

impl Frame {
    /// The frame with nothing pressed.
    pub fn neutral() -> (r: Frame)
        ensures
            r == neutral_frame(),
    {
        Frame { buttons: 0, left_trigger: 0, right_trigger: 0 }
    }

    /// The frame that asserts `id` alone.
    pub fn asserting(id: InputIdentity) -> (r: Frame)
        ensures
            r == frame_of(id),
    {
        match id {
            InputIdentity::DigitalButton(mask) => Frame { buttons: mask, left_trigger: 0, right_trigger: 0 },
            InputIdentity::LeftTriggerAxis => Frame { buttons: 0, left_trigger: 255, right_trigger: 0 },
            InputIdentity::RightTriggerAxis => Frame { buttons: 0, left_trigger: 0, right_trigger: 255 },
        }
    }
}

/// What the engine does on one tick: which trigger (by its position in
/// the set) to assert alone, if any, and the new overlay visibility when
/// the activation flag changed since the previous tick.
#[derive(Clone, Copy, Debug, PartialEq, Eq, Structural)]
pub struct MashStep {
    pub press: Option<usize>,
    pub overlay: Option<bool>,
}

/// The abstract state of the engine.
pub ghost struct EngineView {
    pub index: int,
    pub was_active: bool,
}

/// One tick: while active, assert the trigger at the cycle index and move
/// the index on by one, wrapping after the last; while inactive, assert
/// nothing and keep the index.
pub open spec fn step_model(s: EngineView, active: bool) -> (EngineView, MashStep) {
    let next = EngineView {
        index: if active {
            (s.index + 1) % (TRIGGER_COUNT as int)
        } else {
            s.index
        },
        was_active: active,
    };
    let step = MashStep {
        press: if active {
            Some(s.index as usize)
        } else {
            None
        },
        overlay: if active != s.was_active {
            Some(active)
        } else {
            None
        },
    };
    (next, step)
}

/// The engine state after `t` ticks with the flag on throughout.
pub open spec fn run_active(s: EngineView, t: nat) -> EngineView
    decreases t,
{
    if t == 0 {
        s
    } else {
        step_model(run_active(s, (t - 1) as nat), true).0
    }
}

/// The mashing cycle: the position of the trigger to assert, and the
/// overlay state it last reported.
pub struct MashingEngine {
    index: usize,
    was_active: bool,
}

impl View for MashingEngine {
    type V = EngineView;

    closed spec fn view(&self) -> EngineView {
        EngineView { index: self.index as int, was_active: self.was_active }
    }
}

impl MashingEngine {
    pub closed spec fn wf(&self) -> bool {
        self.index < TRIGGER_COUNT
    }

    /// An engine at the start of the cycle, inactive.
    pub fn new() -> (r: Self)
        ensures
            r.wf(),
            r@ == (EngineView { index: 0, was_active: false }),
    {
        MashingEngine { index: 0, was_active: false }
    }

    /// Advances one tick with the activation flag as read now.
    pub fn tick(&mut self, active: bool) -> (r: MashStep)
        requires
            old(self).wf(),
        ensures
            final(self).wf(),
            (final(self)@, r) == step_model(old(self)@, active),
    {
        let press = if active {
            let at = self.index;
            self.index = if self.index + 1 == TRIGGER_COUNT {
                0
            } else {
                self.index + 1
            };
            Some(at)
        } else {
            None
        };
        let overlay = if active != self.was_active {
            Some(active)
        } else {
            None
        };
        self.was_active = active;
        MashStep { press, overlay }
    }
}

/// The frame for a tick: the trigger at `press` alone, or the neutral
/// frame.
pub open spec fn tick_frame(ts: Seq<InputIdentity>, press: Option<usize>) -> Frame {
    match press {
        Some(i) => frame_of(ts[i as int]),
        None => neutral_frame(),
    }
}

/// The frame for a tick: the trigger at `press` alone, or the neutral
/// frame.
pub fn mash_frame(triggers: &TriggerSet, press: Option<usize>) -> (r: Frame)
    requires
        press matches Some(i) ==> i < TRIGGER_COUNT,
    ensures
        r == tick_frame(triggers@, press),
{
    match press {
        Some(i) => Frame::asserting(triggers.get(i)),
        None => Frame::neutral(),
    }
}

/// For each trigger that the Linux virtual pad has a key for, in the set's
/// order: the key's evdev code and whether it is the one pressed.
pub open spec fn key_states(ts: Seq<InputIdentity>, press: Option<usize>) -> Seq<(u16, bool)>
    decreases ts.len(),
{
    if ts.len() == 0 {
        Seq::empty()
    } else {
        let rest = key_states(ts.drop_last(), press);
        match evdev_code_of(ts.last()) {
            Some(code) => rest.push((code, press == Some((ts.len() - 1) as usize))),
            None => rest,
        }
    }
}

/// The key presses and releases that put a tick's state on the Linux
/// virtual pad, before its synchronize call.
pub fn uinput_key_states(triggers: &TriggerSet, press: Option<usize>) -> (r: Vec<(u16, bool)>)
    ensures
        r@ == key_states(triggers@, press),
{
    let v = triggers.as_vec();
    let mut r: Vec<(u16, bool)> = Vec::new();
    let mut k: usize = 0;
    while k < v.len()
        invariant
            v@ == triggers@,
            k <= v.len(),
            r@ == key_states(v@.subrange(0, k as int), press),
        decreases v.len() - k,
    {
        let ghost before = v@.subrange(0, k as int);
        assert(v@.subrange(0, k + 1).drop_last() =~= before);
        match evdev_code(v[k]) {
            Some(code) => {
                let pressed = match press {
                    Some(p) => p == k,
                    None => false,
                };
                r.push((code, pressed));
            },
            None => {},
        }
        k = k + 1;
    }
    assert(v@.subrange(0, v.len() as int) =~= v@);
    r
}

/// The message that tells the overlay process to show or hide itself.
pub fn overlay_command(active: bool) -> (r: &'static str)
    ensures
        r@ == (if active {
            "masher_active"@
        } else {
            "masher_inactive"@
        }),
{
    if active {
        "masher_active"
    } else {
        "masher_inactive"
    }
}

/// While the flag stays on, the engine asserts the triggers one at a time
/// in the set's order, wrapping after the last and skipping none: on the
/// `t`-th tick it asserts the trigger at position `(start + t) % TRIGGER_COUNT`,
/// and the frame of that tick asserts that trigger alone.
pub proof fn lemma_mash_cycle(s: EngineView, t: nat, backend: Backend, ts: Seq<InputIdentity>)
    requires
        0 <= s.index < TRIGGER_COUNT,
        valid_triggers(backend, ts),
    ensures
        tick_frame(ts, step_model(run_active(s, t), true).1.press) == frame_of(
            ts[(s.index + t) % (TRIGGER_COUNT as int)],
        ),
        run_active(s, t).index == (s.index + t) % (TRIGGER_COUNT as int),
        step_model(run_active(s, t), true).1.press == Some(
            ((s.index + t) % (TRIGGER_COUNT as int)) as usize,
        ),
    decreases t,
{
    if t > 0 {
        lemma_mash_cycle(s, (t - 1) as nat, backend, ts);
        let a = s.index + t - 1;
        assert(((a % (TRIGGER_COUNT as int)) + 1) % (TRIGGER_COUNT as int) == (a + 1) % (
        TRIGGER_COUNT as int));
    }
}

} // verus!
