use crate::identity::{
    button_identity, is_backend_input, is_input_of, Backend, HostButton, InputIdentity, BUTTON_A,
    BUTTON_B, BUTTON_X,
};
use crate::tracker::{copy_inputs, vec_contains};
use vstd::prelude::*;

verus! {

/// How many inputs make up a trigger set.
pub const TRIGGER_COUNT: usize = 3;

/// A sequence that can stand as a trigger set on `backend`: exactly
/// `TRIGGER_COUNT` distinct identities, each one that some host input
/// yields on that backend.
pub open spec fn valid_triggers(backend: Backend, s: Seq<InputIdentity>) -> bool {
    &&& s.len() == TRIGGER_COUNT
    &&& s.no_duplicates()
    &&& forall|k: int| 0 <= k < s.len() ==> is_backend_input(backend, #[trigger] s[k])
}

/// What reading back a persisted list gives: the list itself where it can
/// stand as a trigger set, nothing otherwise.
pub open spec fn load_model(backend: Backend, s: Seq<InputIdentity>) -> Option<
    Seq<InputIdentity>,
> {
    if valid_triggers(backend, s) {
        Some(s)
    } else {
        None
    }
}

/// The built-in trigger set: the south, west and east face buttons.
pub open spec fn default_triggers() -> Seq<InputIdentity> {
    seq![
        InputIdentity::DigitalButton(BUTTON_A),
        InputIdentity::DigitalButton(BUTTON_X),
        InputIdentity::DigitalButton(BUTTON_B),
    ]
}

/// The ordered combination of inputs that activates mashing, for one
/// backend. Every value holds exactly `TRIGGER_COUNT` distinct identities,
/// each one an input of its backend.
pub struct TriggerSet {
    backend: Backend,
    inputs: Vec<InputIdentity>,
}

impl View for TriggerSet {
    type V = Seq<InputIdentity>;

    closed spec fn view(&self) -> Seq<InputIdentity> {
        self.inputs@
    }
}

impl TriggerSet {
    #[verifier::type_invariant]
    closed spec fn inv(&self) -> bool {
        valid_triggers(self.backend, self.inputs@)
    }

    /// The backend the set is for.
    pub closed spec fn target(&self) -> Backend {
        self.backend
    }

    /// The built-in trigger set for `backend`.
    pub fn default_set(backend: Backend) -> (r: TriggerSet)
        ensures
            r@ == default_triggers(),
            r.target() == backend,
    {
        let mut v: Vec<InputIdentity> = Vec::new();
        v.push(InputIdentity::DigitalButton(BUTTON_A));
        v.push(InputIdentity::DigitalButton(BUTTON_X));
        v.push(InputIdentity::DigitalButton(BUTTON_B));
        assert(v@ =~= default_triggers());
        assert(button_identity(backend, HostButton::South) == Some(v@[0]));
        assert(button_identity(backend, HostButton::West) == Some(v@[1]));
        assert(button_identity(backend, HostButton::East) == Some(v@[2]));
        TriggerSet { backend, inputs: v }
    }

    /// The trigger set for `backend` made of `inputs`, if they are exactly
    /// `TRIGGER_COUNT` distinct identities that host inputs yield on that
    /// backend.
    pub fn from_inputs(backend: Backend, inputs: Vec<InputIdentity>) -> (r: Option<TriggerSet>)
        ensures
            match r {
                Some(t) => load_model(backend, inputs@) == Some(t@) && t.target() == backend,
                None => load_model(backend, inputs@) is None,
            },
    {
        if inputs.len() != TRIGGER_COUNT {
            return None;
        }
        let mut k: usize = 0;
        while k < inputs.len()
            invariant
                k <= inputs.len(),
                forall|j: int| 0 <= j < k ==> is_backend_input(backend, #[trigger] inputs@[j]),
            decreases inputs.len() - k,
        {
            if !is_input_of(backend, inputs[k]) {
                return None;
            }
            k = k + 1;
        }
        let mut i: usize = 0;
        while i < inputs.len()
            invariant
                i <= inputs.len(),
                forall|a: int, b: int|
                    0 <= a < i && 0 <= b < inputs.len() && a != b ==> inputs@[a] != inputs@[b],
            decreases inputs.len() - i,
        {
            let mut j: usize = 0;
            while j < inputs.len()
                invariant
                    i < inputs.len(),
                    j <= inputs.len(),
                    forall|a: int, b: int|
                        0 <= a < i && 0 <= b < inputs.len() && a != b ==> inputs@[a] != inputs@[b],
                    forall|b: int| 0 <= b < j && b != i ==> inputs@[i as int] != inputs@[b],
                decreases inputs.len() - j,
            {
                if j != i && inputs[i] == inputs[j] {
                    return None;
                }
                j = j + 1;
            }
            i = i + 1;
        }
        Some(TriggerSet { backend, inputs })
    }

    /// The backend the set is for.
    pub fn backend(&self) -> (r: Backend)
        ensures
            r == self.target(),
    {
        self.backend
    }

    /// The identities in order, as they are persisted.
    pub fn inputs(&self) -> (r: Vec<InputIdentity>)
        ensures
            r@ == self@,
            valid_triggers(self.target(), r@),
    {
        proof {
            use_type_invariant(self);
        }
        copy_inputs(&self.inputs)
    }

    /// A second trigger set with the same identities.
    pub fn duplicate(&self) -> (r: TriggerSet)
        ensures
            r@ == self@,
            r.target() == self.target(),
    {
        proof {
            use_type_invariant(self);
        }
        TriggerSet { backend: self.backend, inputs: copy_inputs(&self.inputs) }
    }

    /// The identity at position `index` of the cycle.
    pub fn get(&self, index: usize) -> (r: InputIdentity)
        requires
            index < TRIGGER_COUNT,
        ensures
            r == self@[index as int],
    {
        proof {
            use_type_invariant(self);
        }
        self.inputs[index]
    }

    /// Whether `x` is one of the triggers.
    pub fn contains(&self, x: InputIdentity) -> (r: bool)
        ensures
            r == self@.contains(x),
    {
        vec_contains(&self.inputs, x)
    }

    /// The triggers as a vector borrowed from the set.
    pub fn as_vec(&self) -> (r: &Vec<InputIdentity>)
        ensures
            r@ == self@,
            valid_triggers(self.target(), r@),
    {
        proof {
            use_type_invariant(self);
        }
        &self.inputs
    }
}

/// A trigger set that is persisted and read back at a later start comes
/// back as the same ordered identities.
pub proof fn lemma_persist_round_trip(backend: Backend, s: Seq<InputIdentity>)
    requires
        valid_triggers(backend, s),
    ensures
        load_model(backend, s) == Some(s),
{
}

} // verus!
