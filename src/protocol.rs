use crate::identity::{
    axis_identity, button_identity, is_backend_input, sdl_axis_to_input, sdl_button_to_input,
    Backend, HostAxis, HostButton, InputIdentity,
};
use crate::tracker::{
    covers, engaged, event_model, held_wf, lemma_without_facts, press_model, release_model,
    HeldEvent, HeldInputTracker, HeldMap,
};
use crate::trigger_set::{valid_triggers, TriggerSet, TRIGGER_COUNT};
use vstd::prelude::*;

verus! {

/// The two modes of the configuration protocol.
#[derive(Clone, Copy, Debug, PartialEq, Eq, Structural)]
pub enum AppState {
    /// Teaching mode: held inputs are gathered into a new trigger set.
    DetectConfig,
    /// Normal operation: held inputs drive the activation flag.
    AcceptingInput,
}

/// An event of the host input subsystem.
#[derive(Clone, Copy, Debug, PartialEq, Eq, Structural)]
pub enum HostEvent {
    ButtonDown { which: u32, button: HostButton },
    ButtonUp { which: u32, button: HostButton },
    AxisMotion { which: u32, axis: HostAxis, value: i16 },
    DeviceRemoved { which: u32 },
}

/// How a host event changes what is held on `backend`. Buttons and axes
/// without an identity there change nothing.
pub open spec fn host_event_model(backend: Backend, m: HeldMap, e: HostEvent) -> HeldMap {
    match e {
        HostEvent::ButtonDown { which, button } => match button_identity(backend, button) {
            Some(id) => press_model(m, which, id),
            None => m,
        },
        HostEvent::ButtonUp { which, button } => match button_identity(backend, button) {
            Some(id) => release_model(m, which, id),
            None => m,
        },
        HostEvent::AxisMotion { which, axis, value } => match axis_identity(axis) {
            Some(id) => event_model(m, HeldEvent { device: which, input: id, pressed: value > 0 }),
            None => m,
        },
        HostEvent::DeviceRemoved { which } => m.remove(which),
    }
}

/// The device whose inputs an event can add to: the one a mapped press or
/// a positive trigger reading comes from.
pub open spec fn pressing_device(backend: Backend, e: HostEvent) -> Option<u32> {
    match e {
        HostEvent::ButtonDown { which, button } => if button_identity(backend, button) is Some {
            Some(which)
        } else {
            None
        },
        HostEvent::AxisMotion { which, axis, value } => if axis_identity(axis) is Some && value
            > 0 {
            Some(which)
        } else {
            None
        },
        _ => None,
    }
}

/// Some device holds exactly `TRIGGER_COUNT` inputs.
pub open spec fn teaching_complete(m: HeldMap) -> bool {
    exists|d: u32| #[trigger] m.contains_key(d) && m[d].len() == TRIGGER_COUNT
}

/// Every device holds fewer than `TRIGGER_COUNT` inputs.
pub open spec fn below_trigger_count(m: HeldMap) -> bool {
    forall|d: u32| #[trigger] m.contains_key(d) ==> m[d].len() < TRIGGER_COUNT
}

/// Every held input is one that a host input yields on `backend`.
pub open spec fn held_on_backend(backend: Backend, m: HeldMap) -> bool {
    forall|d: u32, x: InputIdentity|
        #[trigger] m.contains_key(d) && #[trigger] m[d].contains(x) ==> is_backend_input(backend, x)
}

/// An event keeps every held input one of the backend's.
proof fn lemma_event_on_backend(backend: Backend, m: HeldMap, e: HostEvent)
    requires
        held_wf(m),
        held_on_backend(backend, m),
    ensures
        held_on_backend(backend, host_event_model(backend, m, e)),
{
    let r = host_event_model(backend, m, e);
    let (device, input, added) = match e {
        HostEvent::ButtonDown { which, button } => (which, button_identity(backend, button), true),
        HostEvent::ButtonUp { which, button } => (which, button_identity(backend, button), false),
        HostEvent::AxisMotion { which, axis, value } => (which, axis_identity(axis), value > 0),
        HostEvent::DeviceRemoved { which } => (which, None, false),
    };
    if let HostEvent::ButtonDown { which, button } = e {
        if let Some(id) = button_identity(backend, button) {
            assert(button_identity(backend, button) == Some(id));
            assert(is_backend_input(backend, id));
        }
    }
    if let Some(id) = input {
        if m.contains_key(device) {
            lemma_without_facts(m[device], id);
        }
    }
    assert forall|d: u32, x: InputIdentity|
        #[trigger] r.contains_key(d) && #[trigger] r[d].contains(x) implies is_backend_input(
        backend,
        x,
    ) by {
        if d == device && input is Some && added {
            if m.contains_key(d) && m[d].contains(input->Some_0) {
            } else if m.contains_key(d) {
                let s = m[d];
                let k = choose|k: int| 0 <= k < r[d].len() && r[d][k] == x;
                if k < s.len() {
                    assert(s[k] == x);
                    assert(m[d].contains(x));
                }
            } else {
                assert(r[d] == seq![input->Some_0]);
            }
        } else if m.contains_key(d) {
            assert(m[d].contains(x));
        }
    }
}

/// In teaching mode with every device below `TRIGGER_COUNT`, an event can
/// bring only the pressing device up to it, and no further.
proof fn lemma_event_counts(backend: Backend, m: HeldMap, e: HostEvent)
    requires
        held_wf(m),
        below_trigger_count(m),
    ensures
        forall|d: u32|
            #[trigger] host_event_model(backend, m, e).contains_key(d) && pressing_device(backend, e)
                != Some(d) ==> host_event_model(backend, m, e)[d].len() < TRIGGER_COUNT,
        forall|d: u32|
            pressing_device(backend, e) == Some(d) && #[trigger] host_event_model(
                backend,
                m,
                e,
            ).contains_key(d) ==> host_event_model(backend, m, e)[d].len() <= TRIGGER_COUNT,
{
    broadcast use Seq::lemma_filter_len;

    let r = host_event_model(backend, m, e);
    assert forall|d: u32|
        #[trigger] r.contains_key(d) && pressing_device(backend, e) != Some(d) implies r[d].len()
        < TRIGGER_COUNT by {
        assert(m.contains_key(d));
    }
    assert forall|d: u32|
        pressing_device(backend, e) == Some(d) && #[trigger] r.contains_key(d) implies r[d].len()
        <= TRIGGER_COUNT by {
        if m.contains_key(d) {
            assert(m[d].len() < TRIGGER_COUNT);
        }
    }
}

/// The abstract state of the protocol.
pub ghost struct ProtocolView {
    pub backend: Backend,
    pub state: AppState,
    pub held: HeldMap,
    pub triggers: Seq<InputIdentity>,
    pub active: bool,
}

/// The activation flag is on exactly when input is accepted and some
/// single device holds every trigger.
pub open spec fn activation_rule(v: ProtocolView) -> bool {
    v.active == (v.state == AppState::AcceptingInput && engaged(v.held, v.triggers))
}

/// The teaching protocol together with the held-input tracker and the
/// activation flag that it drives.
pub struct MashConfigurator {
    state: AppState,
    tracker: HeldInputTracker,
    triggers: TriggerSet,
    active: bool,
}

impl View for MashConfigurator {
    type V = ProtocolView;

    closed spec fn view(&self) -> ProtocolView {
        ProtocolView {
            backend: self.triggers.target(),
            state: self.state,
            held: self.tracker@,
            triggers: self.triggers@,
            active: self.active,
        }
    }
}

impl MashConfigurator {
    /// The tracker is consistent, the flag follows the activation rule,
    /// every held input is one of the backend's, and in teaching mode every
    /// device holds fewer than `TRIGGER_COUNT` inputs.
    pub closed spec fn wf(&self) -> bool {
        &&& self.tracker.wf()
        &&& activation_rule(self@)
        &&& held_on_backend(self@.backend, self@.held)
        &&& self@.state == AppState::DetectConfig ==> below_trigger_count(self@.held)
    }

    /// A protocol for the backend of `triggers`, accepting input with
    /// them, nothing held, and the flag off.
    pub fn new(triggers: TriggerSet) -> (r: Self)
        ensures
            r.wf(),
            r@.backend == triggers.target(),
            r@.state == AppState::AcceptingInput,
            r@.held == Map::<u32, Seq<InputIdentity>>::empty(),
            r@.triggers == triggers@,
            !r@.active,
    {
        MashConfigurator {
            state: AppState::AcceptingInput,
            tracker: HeldInputTracker::new(),
            triggers,
            active: false,
        }
    }

    /// The configure / cancel action: enters teaching mode from normal
    /// operation, or leaves it with the trigger set unchanged. Either way
    /// what was held is forgotten, so the flag is off afterwards.
    pub fn toggle_configuration(&mut self)
        requires
            old(self).wf(),
        ensures
            final(self).wf(),
            final(self)@.backend == old(self)@.backend,
            final(self)@.state == (if old(self)@.state == AppState::AcceptingInput {
                AppState::DetectConfig
            } else {
                AppState::AcceptingInput
            }),
            final(self)@.held == Map::<u32, Seq<InputIdentity>>::empty(),
            final(self)@.triggers == old(self)@.triggers,
            !final(self)@.active,
    {
        self.state = match self.state {
            AppState::AcceptingInput => AppState::DetectConfig,
            AppState::DetectConfig => AppState::AcceptingInput,
        };
        self.tracker.clear();
        self.active = false;
    }

    /// Feeds one host event. In teaching mode, once some device holds
    /// exactly `TRIGGER_COUNT` inputs, they become the new trigger set in
    /// the order pressed, the protocol returns to normal operation, and the
    /// new set is handed back for persisting (the only case in which one is
    /// handed back). Teaching starts from nothing held and each event adds
    /// at most one input to one device, so no device ever goes past
    /// `TRIGGER_COUNT` while teaching. The activation flag is then
    /// evaluated against what is held.
    pub fn handle(&mut self, event: HostEvent) -> (r: Option<TriggerSet>)
        requires
            old(self).wf(),
        ensures
            final(self).wf(),
            final(self)@.backend == old(self)@.backend,
            final(self)@.held == host_event_model(old(self)@.backend, old(self)@.held, event),
            if old(self)@.state == AppState::DetectConfig && teaching_complete(final(self)@.held) {
                &&& forall|d: u32|
                    #[trigger] final(self)@.held.contains_key(d) && final(self)@.held[d].len()
                        == TRIGGER_COUNT ==> final(self)@.triggers == final(self)@.held[d]
                &&& final(self)@.state == AppState::AcceptingInput
                &&& r matches Some(t) && t@ == final(self)@.triggers
            } else {
                &&& final(self)@.triggers == old(self)@.triggers
                &&& final(self)@.state == old(self)@.state
                &&& r is None
            },
            final(self)@.active == (final(self)@.state == AppState::AcceptingInput && engaged(
                final(self)@.held,
                final(self)@.triggers,
            )),
    {
        let backend = self.triggers.backend();
        proof {
            self.tracker.lemma_held_wf();
            lemma_event_on_backend(backend, self.tracker@, event);
            if self.state == AppState::DetectConfig {
                lemma_event_counts(backend, self.tracker@, event);
            }
        }
        let pressing: Option<u32> = match event {
            HostEvent::ButtonDown { which, button } => match sdl_button_to_input(backend, button) {
                Some(id) => {
                    self.tracker.on_press(which, id);
                    Some(which)
                },
                None => None,
            },
            HostEvent::ButtonUp { which, button } => {
                match sdl_button_to_input(backend, button) {
                    Some(id) => self.tracker.on_release(which, id),
                    None => {},
                }
                None
            },
            HostEvent::AxisMotion { which, axis, value } => match sdl_axis_to_input(axis) {
                Some(id) => {
                    self.tracker.on_axis(which, id, value);
                    if value > 0 {
                        Some(which)
                    } else {
                        None
                    }
                },
                None => None,
            },
            HostEvent::DeviceRemoved { which } => {
                self.tracker.on_device_removed(which);
                None
            },
        };
        assert(pressing == pressing_device(backend, event));
        let ghost held = self.tracker@;
        let mut taught: Option<TriggerSet> = None;
        if self.state == AppState::DetectConfig {
            let found = match pressing {
                Some(d) => match self.tracker.held_prefix(d, TRIGGER_COUNT) {
                    Some(prefix) => {
                        proof {
                            let s = held[d];
                            self.tracker.lemma_held_wf();
                            assert(s.len() == TRIGGER_COUNT);
                            assert(prefix@ =~= s);
                            assert(held.contains_key(d) && held[d].len() == TRIGGER_COUNT);
                            assert forall|k: int| 0 <= k < prefix@.len() implies is_backend_input(
                                backend,
                                #[trigger] prefix@[k],
                            ) by {
                                assert(held[d].contains(prefix@[k]));
                            }
                            assert(valid_triggers(backend, prefix@));
                        }
                        TriggerSet::from_inputs(backend, prefix)
                    },
                    None => None,
                },
                None => None,
            };
            match found {
                Some(t) => {
                    taught = Some(t.duplicate());
                    self.triggers = t;
                    self.state = AppState::AcceptingInput;
                },
                None => {
                    assert(!teaching_complete(held)) by {
                        if teaching_complete(held) {
                            let c = choose|c: u32| #[trigger]
                                held.contains_key(c) && held[c].len() == TRIGGER_COUNT;
                            assert(pressing == Some(c));
                        }
                    }
                    assert(below_trigger_count(held));
                },
            }
        }
        self.active = self.state == AppState::AcceptingInput && self.tracker.holds_all(
            self.triggers.as_vec(),
        );
        taught
    }

    /// In every state the flag is on exactly when input is accepted and
    /// some single device holds every trigger.
    pub proof fn lemma_activation_rule(&self)
        requires
            self.wf(),
        ensures
            activation_rule(self@),
    {
    }

    /// Whether the activation flag is on.
    pub fn is_active(&self) -> (r: bool)
        ensures
            r == self@.active,
    {
        self.active
    }

    /// The protocol's current mode.
    pub fn state(&self) -> (r: AppState)
        ensures
            r == self@.state,
    {
        self.state
    }

    /// The trigger set in force.
    pub fn triggers(&self) -> (r: &TriggerSet)
        ensures
            r@ == self@.triggers,
    {
        &self.triggers
    }

    /// The inputs that `device` holds, in the order pressed.
    pub fn held_inputs(&self, device: u32) -> (r: Vec<InputIdentity>)
        requires
            self.wf(),
        ensures
            r@ == if self@.held.contains_key(device) {
                self@.held[device]
            } else {
                Seq::<InputIdentity>::empty()
            },
    {
        self.tracker.held_inputs(device)
    }

    /// The inputs of a device that holds the most, for display; empty when
    /// nothing is held.
    pub fn display_held(&self) -> (r: Vec<InputIdentity>)
        requires
            self.wf(),
        ensures
            r@.len() == 0 ==> forall|d: u32| !self@.held.contains_key(d),
            r@.len() > 0 ==> exists|d: u32| #[trigger] self@.held.contains_key(d) && self@.held[d] == r@,
            forall|d: u32| #[trigger] self@.held.contains_key(d) ==> self@.held[d].len() <= r@.len(),
    {
        let r = self.tracker.longest_held();
        if r.len() > 0 {
            let ghost d = choose|d: u32| #[trigger] self.tracker@.contains_key(d) && self.tracker@[d] == r@;
            assert(self@.held.contains_key(d) && self@.held[d] == r@);
        }
        r
    }
}

/// When the device that holds every trigger releases one of them, it no
/// longer holds them all; with no other device holding them all, the
/// activation rule turns the flag off.
pub proof fn lemma_release_disengages(
    m: HeldMap,
    device: u32,
    x: InputIdentity,
    triggers: Seq<InputIdentity>,
)
    requires
        held_wf(m),
        triggers.contains(x),
    ensures
        !(release_model(m, device, x).contains_key(device) && covers(
            release_model(m, device, x)[device],
            triggers,
        )),
        (forall|d: u32| d != device && #[trigger] m.contains_key(d) ==> !covers(m[d], triggers))
            ==> !engaged(release_model(m, device, x), triggers),
{
    if m.contains_key(device) {
        lemma_without_facts(m[device], x);
    }
    let k = choose|k: int| 0 <= k < triggers.len() && triggers[k] == x;
    let r = release_model(m, device, x);
    if forall|d: u32| d != device && #[trigger] m.contains_key(d) ==> !covers(m[d], triggers) {
        assert forall|d: u32| #[trigger] r.contains_key(d) implies !covers(r[d], triggers) by {
            if d != device {
                assert(m.contains_key(d));
            } else {
                assert(!r[d].contains(triggers[k]));
            }
        }
    }
    if r.contains_key(device) {
        assert(!r[device].contains(triggers[k]));
    }
}

} // verus!
