use crate::identity::InputIdentity;
use vstd::prelude::*;

verus! {

/// What a device holds: device id to the identities it holds down, in the
/// order in which they were pressed.
pub type HeldMap = Map<u32, Seq<InputIdentity>>;

/// `s` with every occurrence of `x` taken out.
pub open spec fn without(s: Seq<InputIdentity>, x: InputIdentity) -> Seq<InputIdentity> {
    s.filter(|y: InputIdentity| y != x)
}

/// A press adds the input at the end of the device's list, unless it is
/// already there.
pub open spec fn press_model(m: HeldMap, device: u32, input: InputIdentity) -> HeldMap {
    if m.contains_key(device) {
        if m[device].contains(input) {
            m
        } else {
            m.insert(device, m[device].push(input))
        }
    } else {
        m.insert(device, seq![input])
    }
}

/// A release takes the input out; a device left with nothing is dropped.
pub open spec fn release_model(m: HeldMap, device: u32, input: InputIdentity) -> HeldMap {
    if m.contains_key(device) {
        if without(m[device], input).len() == 0 {
            m.remove(device)
        } else {
            m.insert(device, without(m[device], input))
        }
    } else {
        m
    }
}

/// One press or release of an input on a device.
#[derive(Clone, Copy, Debug, PartialEq, Eq, Structural)]
pub struct HeldEvent {
    pub device: u32,
    pub input: InputIdentity,
    pub pressed: bool,
}

pub open spec fn event_model(m: HeldMap, e: HeldEvent) -> HeldMap {
    if e.pressed {
        press_model(m, e.device, e.input)
    } else {
        release_model(m, e.device, e.input)
    }
}

/// The held map after a sequence of events, first to last.
pub open spec fn events_model(m: HeldMap, es: Seq<HeldEvent>) -> HeldMap
    decreases es.len(),
{
    if es.len() == 0 {
        m
    } else {
        event_model(events_model(m, es.drop_last()), es.last())
    }
}

/// Whether the latest event in `es` for this input on this device is a press.
pub open spec fn last_pressed(es: Seq<HeldEvent>, device: u32, input: InputIdentity) -> bool
    decreases es.len(),
{
    if es.len() == 0 {
        false
    } else if es.last().device == device && es.last().input == input {
        es.last().pressed
    } else {
        last_pressed(es.drop_last(), device, input)
    }
}

pub open spec fn is_held(m: HeldMap, device: u32, input: InputIdentity) -> bool {
    m.contains_key(device) && m[device].contains(input)
}

/// Every tracked device holds at least one input, each at most once.
pub open spec fn held_wf(m: HeldMap) -> bool {
    forall|d: u32|
        #[trigger] m.contains_key(d) ==> m[d].len() > 0 && m[d].no_duplicates()
}

/// `held` contains every member of `required`.
pub open spec fn covers(held: Seq<InputIdentity>, required: Seq<InputIdentity>) -> bool {
    forall|k: int| 0 <= k < required.len() ==> held.contains(#[trigger] required[k])
}

/// Some single device holds every member of `required`.
pub open spec fn engaged(m: HeldMap, required: Seq<InputIdentity>) -> bool {
    exists|d: u32| #[trigger] m.contains_key(d) && covers(m[d], required)
}

pub proof fn lemma_without_facts(s: Seq<InputIdentity>, x: InputIdentity)
    ensures
        forall|y: InputIdentity| #[trigger]
            without(s, x).contains(y) <==> (s.contains(y) && y != x),
        s.no_duplicates() ==> without(s, x).no_duplicates(),
        !s.contains(x) ==> without(s, x) == s,
    decreases s.len(),
{
    broadcast use Seq::lemma_filter_push;

    let pred = |y: InputIdentity| y != x;
    if s.len() == 0 {
        reveal(Seq::filter);
        assert(without(s, x) =~= s);
    } else {
        let r = s.drop_last();
        lemma_without_facts(r, x);
        assert(s =~= r.push(s.last()));
        assert(without(s, x) == if pred(s.last()) {
            without(r, x).push(s.last())
        } else {
            without(r, x)
        });
        assert forall|y: InputIdentity|
            #[trigger] without(s, x).contains(y) <==> (s.contains(y) && y != x) by {
            if s.contains(y) && y != x {
                let k = choose|k: int| 0 <= k < s.len() && s[k] == y;
                if k < r.len() {
                    assert(r[k] == y);
                    assert(without(r, x).contains(y));
                } else {
                    assert(s.last() == y);
                }
                if pred(s.last()) {
                    assert(without(s, x).contains(y)) by {
                        if without(r, x).contains(y) {
                            let j = choose|j: int|
                                0 <= j < without(r, x).len() && without(r, x)[j] == y;
                            assert(without(s, x)[j] == y);
                        } else {
                            assert(without(s, x)[without(r, x).len() as int] == y);
                        }
                    }
                }
            }
            if without(s, x).contains(y) {
                let j = choose|j: int| 0 <= j < without(s, x).len() && without(s, x)[j] == y;
                if pred(s.last()) && j == without(r, x).len() {
                    assert(y == s.last());
                    assert(s[s.len() - 1] == y);
                } else {
                    assert(without(r, x)[j] == y);
                    assert(without(r, x).contains(y));
                    let k = choose|k: int| 0 <= k < r.len() && r[k] == y;
                    assert(s[k] == y);
                }
            }
        }
        if s.no_duplicates() {
            assert(r.no_duplicates()) by {
                assert forall|i: int, j: int| 0 <= i < r.len() && 0 <= j < r.len() && i != j
                    implies r[i] != r[j] by {
                    assert(s[i] == r[i] && s[j] == r[j]);
                }
            }
            if pred(s.last()) {
                let w = without(r, x);
                assert(!w.contains(s.last())) by {
                    if w.contains(s.last()) {
                        assert(r.contains(s.last()));
                        let k = choose|k: int| 0 <= k < r.len() && r[k] == s.last();
                        assert(s[k] == s[s.len() - 1]);
                    }
                }
                assert forall|i: int, j: int|
                    0 <= i < w.push(s.last()).len() && 0 <= j < w.push(s.last()).len() && i
                        != j implies w.push(s.last())[i] != w.push(s.last())[j] by {
                    if i == w.len() {
                        assert(w.contains(w[j]));
                    } else if j == w.len() {
                        assert(w.contains(w[i]));
                    }
                }
            }
        }
        if !s.contains(x) {
            assert(!r.contains(x)) by {
                if r.contains(x) {
                    let k = choose|k: int| 0 <= k < r.len() && r[k] == x;
                    assert(s[k] == x);
                }
            }
            assert(s[s.len() - 1] != x);
        }
    }
}

pub proof fn lemma_without_push(s: Seq<InputIdentity>, e: InputIdentity, x: InputIdentity)
    ensures
        without(s.push(e), x) == if e != x {
            without(s, x).push(e)
        } else {
            without(s, x)
        },
{
    reveal(Seq::filter);
    assert(s.push(e).drop_last() =~= s);
}

pub proof fn lemma_event_wf(m: HeldMap, e: HeldEvent)
    requires
        held_wf(m),
    ensures
        held_wf(event_model(m, e)),
{
    if !e.pressed && m.contains_key(e.device) {
        lemma_without_facts(m[e.device], e.input);
    }
    if e.pressed && m.contains_key(e.device) && !m[e.device].contains(e.input) {
        let s = m[e.device];
        let t = s.push(e.input);
        assert forall|i: int, j: int| 0 <= i < t.len() && 0 <= j < t.len() && i != j
            implies t[i] != t[j] by {
            if i == s.len() {
                assert(s.contains(t[j]));
            } else if j == s.len() {
                assert(s.contains(t[i]));
            }
        }
    }
}

/// The effect of one event on whether an input is held.
pub proof fn lemma_event_held(m: HeldMap, e: HeldEvent, device: u32, input: InputIdentity)
    requires
        held_wf(m),
    ensures
        is_held(event_model(m, e), device, input) == if e.device == device && e.input == input {
            e.pressed
        } else {
            is_held(m, device, input)
        },
{
    if m.contains_key(e.device) {
        lemma_without_facts(m[e.device], e.input);
        if !e.pressed && without(m[e.device], e.input).len() == 0 {
            if e.device == device && m[device].contains(input) && input != e.input {
                assert(without(m[device], e.input).contains(input));
            }
        }
    }
    if e.pressed && e.device == device && e.input == input && m.contains_key(device)
        && !m[device].contains(input) {
        assert(m[device].push(input)[m[device].len() as int] == input);
    }
    if e.pressed && e.device == device && e.input != input && m.contains_key(device) {
        if m[device].contains(input) {
            let k = choose|k: int| 0 <= k < m[device].len() && m[device][k] == input;
            assert(m[device].push(e.input)[k] == input);
        }
        if m[device].push(e.input).contains(input) {
            let k = choose|k: int|
                0 <= k < m[device].push(e.input).len() && m[device].push(e.input)[k] == input;
            assert(m[device][k] == input);
        }
    }
    if e.pressed && e.device == device && !m.contains_key(device) {
        assert(seq![e.input][0] == e.input);
    }
}

/// From no held inputs, after any sequence of press and release events, an
/// input is held on a device exactly when the latest event for it on that
/// device was a press.
pub proof fn lemma_held_is_latest_event(es: Seq<HeldEvent>, device: u32, input: InputIdentity)
    ensures
        held_wf(events_model(Map::empty(), es)),
        is_held(events_model(Map::empty(), es), device, input) == last_pressed(es, device, input),
    decreases es.len(),
{
    if es.len() > 0 {
        lemma_held_is_latest_event(es.drop_last(), device, input);
        let m = events_model(Map::empty(), es.drop_last());
        lemma_event_wf(m, es.last());
        lemma_event_held(m, es.last(), device, input);
    }
}

/// Pressing an input that is already held changes nothing: it is not added
/// twice and the device's list keeps its length.
pub proof fn lemma_press_idempotent(m: HeldMap, device: u32, input: InputIdentity)
    ensures
        press_model(press_model(m, device, input), device, input) == press_model(m, device, input),
        is_held(m, device, input) ==> press_model(m, device, input) == m,
{
    let p = press_model(m, device, input);
    if m.contains_key(device) && !m[device].contains(input) {
        assert(m[device].push(input)[m[device].len() as int] == input);
    }
    if !m.contains_key(device) {
        assert(seq![input][0] == input);
    }
    assert(p.contains_key(device) && p[device].contains(input));
}

/// Whether `v` holds `x`.
pub fn vec_contains(v: &Vec<InputIdentity>, x: InputIdentity) -> (r: bool)
    ensures
        r == v@.contains(x),
{
    let mut k: usize = 0;
    while k < v.len()
        invariant
            k <= v.len(),
            forall|j: int| 0 <= j < k ==> v@[j] != x,
        decreases v.len() - k,
    {
        if v[k] == x {
            assert(v@[k as int] == x);
            return true;
        }
        k = k + 1;
    }
    false
}

/// The inputs that one device holds down.
struct DeviceHeld {
    device: u32,
    held: Vec<InputIdentity>,
}

/// Per physical device, the set of inputs currently held down, in the
/// order in which they were pressed.
pub struct HeldInputTracker {
    devices: Vec<DeviceHeld>,
    model: Ghost<HeldMap>,
}

impl View for HeldInputTracker {
    type V = HeldMap;

    closed spec fn view(&self) -> HeldMap {
        self.model@
    }
}

/// The device entries are exactly the held map: each entry is the map's
/// value at its device, no device has two entries, and every device of
/// the map has one.
spec fn entries_match(ds: Seq<DeviceHeld>, m: HeldMap) -> bool {
    &&& forall|i: int|
        0 <= i < ds.len() ==> #[trigger] m.contains_key(ds[i].device) && m[ds[i].device]
            == ds[i].held@
    &&& forall|i: int, j: int|
        0 <= i < j < ds.len() ==> #[trigger] ds[i].device != #[trigger] ds[j].device
    &&& forall|d: u32| #[trigger]
        m.contains_key(d) ==> exists|i: int| 0 <= i < ds.len() && #[trigger] ds[i].device == d
}

/// Replacing an entry keeps the entries and the map in step.
proof fn lemma_entries_set(ds: Seq<DeviceHeld>, m: HeldMap, i: int, e: DeviceHeld)
    requires
        entries_match(ds, m),
        0 <= i < ds.len(),
        e.device == ds[i].device,
    ensures
        entries_match(ds.update(i, e), m.insert(e.device, e.held@)),
{
    let ds2 = ds.update(i, e);
    let m2 = m.insert(e.device, e.held@);
    assert forall|a: int| 0 <= a < ds2.len() implies #[trigger] m2.contains_key(ds2[a].device)
        && m2[ds2[a].device] == ds2[a].held@ by {
        if a != i {
            assert(m.contains_key(ds[a].device));
            if a < i {
                assert(ds[a].device != ds[i].device);
            } else {
                assert(ds[i].device != ds[a].device);
            }
        }
    }
    assert forall|a: int, b: int| 0 <= a < b < ds2.len() implies #[trigger] ds2[a].device
        != #[trigger] ds2[b].device by {
        assert(ds[a].device != ds[b].device);
    }
    assert forall|d: u32| #[trigger] m2.contains_key(d) implies exists|k: int|
        0 <= k < ds2.len() && #[trigger] ds2[k].device == d by {
        if d == e.device {
            assert(ds2[i].device == d);
        } else {
            let k = choose|k: int| 0 <= k < ds.len() && #[trigger] ds[k].device == d;
            assert(ds2[k].device == d);
        }
    }
}

/// Adding an entry for a new device keeps the entries and the map in step.
proof fn lemma_entries_push(ds: Seq<DeviceHeld>, m: HeldMap, e: DeviceHeld)
    requires
        entries_match(ds, m),
        !m.contains_key(e.device),
    ensures
        entries_match(ds.push(e), m.insert(e.device, e.held@)),
{
    let ds2 = ds.push(e);
    let m2 = m.insert(e.device, e.held@);
    assert forall|a: int| 0 <= a < ds2.len() implies #[trigger] m2.contains_key(ds2[a].device)
        && m2[ds2[a].device] == ds2[a].held@ by {
        if a < ds.len() {
            assert(m.contains_key(ds[a].device));
        }
    }
    assert forall|a: int, b: int| 0 <= a < b < ds2.len() implies #[trigger] ds2[a].device
        != #[trigger] ds2[b].device by {
        if b == ds.len() {
            assert(m.contains_key(ds[a].device));
        }
    }
    assert forall|d: u32| #[trigger] m2.contains_key(d) implies exists|k: int|
        0 <= k < ds2.len() && #[trigger] ds2[k].device == d by {
        if d == e.device {
            assert(ds2[ds.len() as int].device == d);
        } else {
            let k = choose|k: int| 0 <= k < ds.len() && #[trigger] ds[k].device == d;
            assert(ds2[k].device == d);
        }
    }
}

/// Removing an entry drops its device from the map.
proof fn lemma_entries_remove(ds: Seq<DeviceHeld>, m: HeldMap, i: int)
    requires
        entries_match(ds, m),
        0 <= i < ds.len(),
    ensures
        entries_match(ds.remove(i), m.remove(ds[i].device)),
{
    let ds2 = ds.remove(i);
    let m2 = m.remove(ds[i].device);
    assert forall|a: int, b: int| 0 <= a < b < ds2.len() implies #[trigger] ds2[a].device
        != #[trigger] ds2[b].device by {
        let oa = if a < i { a } else { a + 1 };
        let ob = if b < i { b } else { b + 1 };
        assert(ds2[a] == ds[oa] && ds2[b] == ds[ob]);
    }
    assert forall|a: int| 0 <= a < ds2.len() implies #[trigger] m2.contains_key(ds2[a].device)
        && m2[ds2[a].device] == ds2[a].held@ by {
        let oa = if a < i { a } else { a + 1 };
        assert(ds2[a] == ds[oa]);
        assert(m.contains_key(ds[oa].device));
        if oa < i {
            assert(ds[oa].device != ds[i].device);
        } else {
            assert(ds[i].device != ds[oa].device);
        }
    }
    assert forall|d: u32| #[trigger] m2.contains_key(d) implies exists|k: int|
        0 <= k < ds2.len() && #[trigger] ds2[k].device == d by {
        let k = choose|k: int| 0 <= k < ds.len() && #[trigger] ds[k].device == d;
        if k < i {
            assert(ds2[k].device == d);
        } else {
            assert(k != i);
            assert(ds2[k - 1].device == d);
        }
    }
}

impl HeldInputTracker {
    pub closed spec fn wf(&self) -> bool {
        &&& held_wf(self.model@)
        &&& entries_match(self.devices@, self.model@)
    }

    /// Every tracked device holds at least one input, each at most once.
    pub proof fn lemma_held_wf(&self)
        requires
            self.wf(),
        ensures
            held_wf(self@),
    {
    }

    /// A tracker in which no device holds anything.
    pub fn new() -> (r: Self)
        ensures
            r.wf(),
            r@ == Map::<u32, Seq<InputIdentity>>::empty(),
    {
        HeldInputTracker { devices: Vec::new(), model: Ghost(Map::empty()) }
    }

    /// Forgets everything that is held.
    pub fn clear(&mut self)
        ensures
            final(self).wf(),
            final(self)@ == Map::<u32, Seq<InputIdentity>>::empty(),
    {
        self.devices = Vec::new();
        self.model = Ghost(Map::empty());
    }

    fn find(&self, device: u32) -> (r: Option<usize>)
        requires
            self.wf(),
        ensures
            match r {
                Some(i) => i < self.devices.len() && self.devices@[i as int].device == device
                    && self@.contains_key(device),
                None => !self@.contains_key(device),
            },
    {
        let mut i: usize = 0;
        while i < self.devices.len()
            invariant
                self.wf(),
                i <= self.devices.len(),
                forall|j: int| 0 <= j < i ==> self.devices@[j].device != device,
            decreases self.devices.len() - i,
        {
            if self.devices[i].device == device {
                assert(self.model@.contains_key(self.devices@[i as int].device));
                return Some(i);
            }
            i = i + 1;
        }
        None
    }

    /// The inputs that `device` holds, in the order pressed; empty for a
    /// device that holds nothing.
    pub fn held_inputs(&self, device: u32) -> (r: Vec<InputIdentity>)
        requires
            self.wf(),
        ensures
            r@ == if self@.contains_key(device) {
                self@[device]
            } else {
                Seq::<InputIdentity>::empty()
            },
    {
        match self.find(device) {
            Some(i) => {
                assert(self.model@.contains_key(self.devices@[i as int].device));
                copy_inputs(&self.devices[i].held)
            },
            None => Vec::new(),
        }
    }

    /// Whether some single device holds every member of `required`.
    pub fn holds_all(&self, required: &Vec<InputIdentity>) -> (r: bool)
        requires
            self.wf(),
        ensures
            r == engaged(self@, required@),
    {
        let mut i: usize = 0;
        while i < self.devices.len()
            invariant
                self.wf(),
                i <= self.devices.len(),
                forall|j: int| 0 <= j < i ==> !covers(#[trigger] self.devices@[j].held@, required@),
            decreases self.devices.len() - i,
        {
            if vec_covers(&self.devices[i].held, required) {
                assert(self.model@.contains_key(self.devices@[i as int].device));
                return true;
            }
            i = i + 1;
        }
        assert forall|d: u32| #[trigger] self.model@.contains_key(d) implies !covers(
            self.model@[d],
            required@,
        ) by {
            let k = choose|k: int| 0 <= k < self.devices.len() && #[trigger] self.devices@[k].device == d;
            assert(self.model@.contains_key(self.devices@[k].device));
        }
        false
    }

    /// The first `n` inputs that `device` pressed, if it holds at least `n`.
    pub fn held_prefix(&self, device: u32, n: usize) -> (r: Option<Vec<InputIdentity>>)
        requires
            self.wf(),
        ensures
            match r {
                Some(v) => self@.contains_key(device) && self@[device].len() >= n && v@
                    == self@[device].take(n as int),
                None => !(self@.contains_key(device) && self@[device].len() >= n),
            },
    {
        match self.find(device) {
            Some(i) => {
                assert(self.model@.contains_key(self.devices@[i as int].device));
                let held = &self.devices[i].held;
                if held.len() >= n {
                    let mut r: Vec<InputIdentity> = Vec::new();
                    let mut k: usize = 0;
                    while k < n
                        invariant
                            k <= n <= held.len(),
                            r@ == held@.subrange(0, k as int),
                        decreases n - k,
                    {
                        r.push(held[k]);
                        k = k + 1;
                        assert(r@ =~= held@.subrange(0, k as int));
                    }
                    Some(r)
                } else {
                    None
                }
            },
            None => None,
        }
    }

    /// The inputs of a device that holds the most; empty when no device
    /// holds anything.
    pub fn longest_held(&self) -> (r: Vec<InputIdentity>)
        requires
            self.wf(),
        ensures
            r@.len() == 0 ==> forall|d: u32| !self@.contains_key(d),
            r@.len() > 0 ==> exists|d: u32| #[trigger] self@.contains_key(d) && self@[d] == r@,
            forall|d: u32| #[trigger] self@.contains_key(d) ==> self@[d].len() <= r@.len(),
    {
        let mut best: Vec<InputIdentity> = Vec::new();
        let ghost mut best_at: int = -1;
        let mut i: usize = 0;
        while i < self.devices.len()
            invariant
                self.wf(),
                i <= self.devices.len(),
                forall|j: int| 0 <= j < i ==> (#[trigger] self.devices@[j]).held@.len() <= best@.len(),
                best@.len() > 0 ==> 0 <= best_at < i && self.devices@[best_at].held@ == best@,
            decreases self.devices.len() - i,
        {
            if self.devices[i].held.len() > best.len() {
                best = copy_inputs(&self.devices[i].held);
                proof {
                    best_at = i as int;
                }
            }
            i = i + 1;
        }
        assert forall|d: u32| #[trigger] self.model@.contains_key(d) implies self.model@[d].len()
            <= best@.len() && self.model@[d].len() > 0 by {
            let k = choose|k: int| 0 <= k < self.devices.len() && #[trigger] self.devices@[k].device == d;
            assert(self.model@.contains_key(self.devices@[k].device));
            assert(self.devices@[k].held@.len() <= best@.len());
        }
        if best.len() > 0 {
            let ghost d = self.devices@[best_at].device;
            assert(self.model@.contains_key(d));
            assert(self@.contains_key(d) && self@[d] == best@);
        }
        best
    }

    /// Records that `input` went down on `device`; pressing an input that
    /// is already held changes nothing.
    pub fn on_press(&mut self, device: u32, input: InputIdentity)
        requires
            old(self).wf(),
        ensures
            final(self).wf(),
            final(self)@ == press_model(old(self)@, device, input),
    {
        proof {
            lemma_event_wf(self.model@, HeldEvent { device, input, pressed: true });
        }
        match self.find(device) {
            Some(i) => {
                assert(self.model@.contains_key(self.devices@[i as int].device));
                if !vec_contains(&self.devices[i].held, input) {
                    let mut held = copy_inputs(&self.devices[i].held);
                    held.push(input);
                    let entry = DeviceHeld { device, held };
                    proof {
                        lemma_entries_set(self.devices@, self.model@, i as int, entry);
                    }
                    self.devices.set(i, entry);
                    self.model = Ghost(press_model(self.model@, device, input));
                }
            },
            None => {
                let mut held: Vec<InputIdentity> = Vec::new();
                held.push(input);
                assert(held@ =~= seq![input]);
                let entry = DeviceHeld { device, held };
                proof {
                    lemma_entries_push(self.devices@, self.model@, entry);
                }
                self.devices.push(entry);
                self.model = Ghost(press_model(self.model@, device, input));
            },
        }
    }

    /// Records that `input` went up on `device`; a device left holding
    /// nothing is dropped.
    pub fn on_release(&mut self, device: u32, input: InputIdentity)
        requires
            old(self).wf(),
        ensures
            final(self).wf(),
            final(self)@ == release_model(old(self)@, device, input),
    {
        proof {
            lemma_event_wf(self.model@, HeldEvent { device, input, pressed: false });
        }
        match self.find(device) {
            Some(i) => {
                assert(self.model@.contains_key(self.devices@[i as int].device));
                let rest = copy_without(&self.devices[i].held, input);
                if rest.len() == 0 {
                    proof {
                        lemma_entries_remove(self.devices@, self.model@, i as int);
                    }
                    self.devices.remove(i);
                    self.model = Ghost(self.model@.remove(device));
                } else {
                    let entry = DeviceHeld { device, held: rest };
                    proof {
                        lemma_entries_set(self.devices@, self.model@, i as int, entry);
                    }
                    self.devices.set(i, entry);
                    self.model = Ghost(release_model(self.model@, device, input));
                }
            },
            None => {},
        }
    }

    /// Applies one press or release event.
    pub fn apply(&mut self, event: HeldEvent)
        requires
            old(self).wf(),
        ensures
            final(self).wf(),
            final(self)@ == event_model(old(self)@, event),
    {
        if event.pressed {
            self.on_press(event.device, event.input);
        } else {
            self.on_release(event.device, event.input);
        }
    }

    /// Records a trigger-axis reading: any positive value holds the input,
    /// zero or below releases it.
    pub fn on_axis(&mut self, device: u32, input: InputIdentity, value: i16)
        requires
            old(self).wf(),
        ensures
            final(self).wf(),
            final(self)@ == event_model(
                old(self)@,
                HeldEvent { device, input, pressed: value > 0 },
            ),
    {
        self.apply(HeldEvent { device, input, pressed: value > 0 });
    }

    /// Forgets a device that went away.
    pub fn on_device_removed(&mut self, device: u32)
        requires
            old(self).wf(),
        ensures
            final(self).wf(),
            final(self)@ == old(self)@.remove(device),
    {
        match self.find(device) {
            Some(i) => {
                proof {
                    lemma_entries_remove(self.devices@, self.model@, i as int);
                    assert forall|d: u32| #[trigger] self.model@.remove(device).contains_key(d)
                        implies self.model@.contains_key(d) by {}
                }
                self.devices.remove(i);
                self.model = Ghost(self.model@.remove(device));
            },
            None => {
                assert(self.model@.remove(device) =~= self.model@);
            },
        }
    }
}

/// Whether `held` contains every member of `required`.
pub fn vec_covers(held: &Vec<InputIdentity>, required: &Vec<InputIdentity>) -> (r: bool)
    ensures
        r == covers(held@, required@),
{
    let mut k: usize = 0;
    while k < required.len()
        invariant
            k <= required.len(),
            forall|j: int| 0 <= j < k ==> held@.contains(#[trigger] required@[j]),
        decreases required.len() - k,
    {
        if !vec_contains(held, required[k]) {
            return false;
        }
        k = k + 1;
    }
    true
}

/// A copy of `v`.
pub fn copy_inputs(v: &Vec<InputIdentity>) -> (r: Vec<InputIdentity>)
    ensures
        r@ == v@,
{
    let mut r: Vec<InputIdentity> = Vec::new();
    let mut k: usize = 0;
    while k < v.len()
        invariant
            k <= v.len(),
            r@ == v@.subrange(0, k as int),
        decreases v.len() - k,
    {
        r.push(v[k]);
        k = k + 1;
        assert(r@ =~= v@.subrange(0, k as int));
    }
    assert(v@.subrange(0, v.len() as int) =~= v@);
    r
}

/// A copy of `v` without `x`.
fn copy_without(v: &Vec<InputIdentity>, x: InputIdentity) -> (r: Vec<InputIdentity>)
    ensures
        r@ == without(v@, x),
{
    let mut r: Vec<InputIdentity> = Vec::new();
    let mut k: usize = 0;
    proof {
        reveal(Seq::filter);
        assert(without(v@.subrange(0, 0), x) =~= Seq::<InputIdentity>::empty());
    }
    while k < v.len()
        invariant
            k <= v.len(),
            r@ == without(v@.subrange(0, k as int), x),
        decreases v.len() - k,
    {
        assert(v@.subrange(0, k + 1) =~= v@.subrange(0, k as int).push(v@[k as int]));
        proof {
            lemma_without_push(v@.subrange(0, k as int), v@[k as int], x);
        }
        if v[k] != x {
            r.push(v[k]);
        }
        k = k + 1;
    }
    assert(v@.subrange(0, v.len() as int) =~= v@);
    r
}

} // verus!
