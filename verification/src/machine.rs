//! The machine: current state, transition table, callback registry, and the
//! trigger operation.

use vstd::prelude::*;

use crate::dispatch::{
    CallbackEntry, Invocation, PayloadFilter, TriggerKey, dispatch_invocations, fired_from,
};
use crate::error::MachineError;
use crate::payload::{Payload, PayloadTag, spec_tag};
use crate::table::{StateSet, TransitionTable, no_transitions, set_elems, table_entries};

verus! {

broadcast use vstd::seq_lib::group_seq_properties;

/// The abstract value of a [`Machine`]: its current state, its transition
/// table, its registered callbacks in registration order, and the record of
/// every callback invocation dispatched so far.
#[verifier::ext_equal]
pub struct MachineModel {
    /// The current state.
    pub state: u64,
    /// The transition table, from `(event, source state)` to destination.
    pub table: Map<(u64, u64), u64>,
    /// Every registered callback, in registration order.
    pub callbacks: Seq<CallbackEntry>,
    /// Every invocation dispatched so far, oldest first.
    pub log: Seq<Invocation>,
}

/// Whether `event` has at least one transition defined, from any state.
pub open spec fn event_known(m: MachineModel, event: u64) -> bool {
    exists|s: u64| m.table.dom().contains((event, s))
}

/// Whether `state` is mentioned in the table, as a source or a destination.
pub open spec fn state_known(m: MachineModel, state: u64) -> bool {
    exists|key: (u64, u64)|
        #[trigger] m.table.dom().contains(key) && (key.1 == state || m.table[key] == state)
}

/// The model of a machine fresh from construction.
pub open spec fn initial_model(state: u64) -> MachineModel {
    MachineModel { state, table: no_transitions(), callbacks: Seq::empty(), log: Seq::empty() }
}

/// The model after defining the transition `from --event--> to`.
pub open spec fn spec_define(m: MachineModel, event: u64, from: u64, to: u64) -> MachineModel {
    MachineModel { table: m.table.insert((event, from), to), ..m }
}

/// The model after defining every pair of `pairs` under `event`, first to
/// last.
pub open spec fn spec_define_many(
    m: MachineModel,
    event: u64,
    pairs: Seq<(u64, u64)>,
) -> MachineModel
    decreases pairs.len(),
{
    if pairs.len() == 0 {
        m
    } else {
        spec_define_many(spec_define(m, event, pairs[0].0, pairs[0].1), event, pairs.drop_first())
    }
}

/// The model after appending one callback registration.
pub open spec fn spec_register(
    m: MachineModel,
    key: TriggerKey,
    filter: PayloadFilter,
) -> MachineModel {
    MachineModel { callbacks: m.callbacks.push(CallbackEntry { key, filter }), ..m }
}

/// The model and the result of triggering `event` with `payload`: an unknown
/// event or an undefined source state leaves the machine unchanged and fails;
/// otherwise the machine enters the destination state and the dispatched
/// invocations are appended to the log.
pub open spec fn spec_trigger(m: MachineModel, event: u64, payload: Payload) -> (
    MachineModel,
    Result<(), MachineError>,
) {
    if !event_known(m, event) {
        (m, Err(MachineError::EventInvalid))
    } else if !m.table.dom().contains((event, m.state)) {
        (m, Err(MachineError::StateInvalid))
    } else {
        let entered = m.table[(event, m.state)];
        let stepped = MachineModel {
            state: entered,
            log: m.log + dispatch_invocations(m.callbacks, entered, event, payload),
            ..m
        };
        (stepped, Ok(()))
    }
}

/// Two models with equal tables know the same events.
proof fn lemma_event_known_same_table(m0: MachineModel, m1: MachineModel, event: u64)
    requires
        m1.table == m0.table,
    ensures
        event_known(m1, event) == event_known(m0, event),
{
    if event_known(m0, event) {
        let s = choose|s: u64| m0.table.dom().contains((event, s));
        assert(m1.table.dom().contains((event, s)));
    }
    if event_known(m1, event) {
        let s = choose|s: u64| m1.table.dom().contains((event, s));
        assert(m0.table.dom().contains((event, s)));
    }
}

/// A finite state machine over opaque `u64`-labeled states and events.
///
/// Transitions are defined with [`Machine::when`] and [`Machine::when_iter`],
/// callbacks registered with the `on_*` methods, and events triggered with
/// [`Machine::trigger`] and [`Machine::trigger_with`]. Each fired callback is
/// recorded as an [`Invocation`] in the log returned by
/// [`Machine::invocations`].
pub struct Machine {
    state: u64,
    table: TransitionTable,
    events: Vec<u64>,
    callbacks: Vec<CallbackEntry>,
    log: Vec<Invocation>,
}

impl View for Machine {
    type V = MachineModel;

    closed spec fn view(&self) -> MachineModel {
        MachineModel {
            state: self.state,
            table: table_entries(self.table),
            callbacks: self.callbacks@,
            log: self.log@,
        }
    }
}

/// Whether `v` holds `x`.
fn vec_contains(v: &Vec<u64>, x: u64) -> (b: bool)
    ensures
        b == v@.contains(x),
{
    let mut i: usize = 0;
    while i < v.len()
        invariant
            i <= v@.len(),
            forall|j: int| 0 <= j < i ==> v@[j] != x,
        decreases v@.len() - i,
    {
        if v[i] == x {
            return true;
        }
        i += 1;
    }
    false
}

/// Appends to `log` one invocation for every entry of `callbacks`, in order,
/// whose key is `key` and whose filter admits the payload's type.
fn run_pass(
    log: &mut Vec<Invocation>,
    callbacks: &Vec<CallbackEntry>,
    key: TriggerKey,
    event: u64,
    payload: &Payload,
)
    ensures
        final(log)@ == old(log)@ + fired_from(callbacks@, 0, key, event, *payload),
{
    let tag = payload.tag();
    let ghost base = log@;
    let mut i: usize = 0;
    while i < callbacks.len()
        invariant
            i <= callbacks@.len(),
            tag == spec_tag(*payload),
            log@ + fired_from(callbacks@, i as int, key, event, *payload) == base + fired_from(
                callbacks@,
                0,
                key,
                event,
                *payload,
            ),
        decreases callbacks@.len() - i,
    {
        let entry = callbacks[i];
        let admitted = match entry.filter {
            PayloadFilter::Always => true,
            PayloadFilter::Expects(expected) => expected == tag,
        };
        if entry.key == key && admitted {
            let ghost before = log@;
            log.push(Invocation { callback: i, event, payload: payload.clone() });
            proof {
                let fired = Invocation { callback: i, event, payload: *payload };
                assert(log@ =~= before + seq![fired]);
                assert((before + seq![fired]) + fired_from(
                    callbacks@,
                    i as int + 1,
                    key,
                    event,
                    *payload,
                ) =~= before + (seq![fired] + fired_from(
                    callbacks@,
                    i as int + 1,
                    key,
                    event,
                    *payload,
                )));
            }
        }
        i += 1;
    }
    proof {
        assert(log@ + fired_from(callbacks@, callbacks@.len() as int, key, event, *payload)
            =~= log@);
    }
}

impl Machine {
    /// The machine's internal event index lists exactly the known events, each
    /// once.
    pub closed spec fn wf(&self) -> bool {
        &&& self.events@.no_duplicates()
        &&& forall|e: u64| #[trigger] self.events@.contains(e) <==> event_known(self@, e)
    }

    /// A new machine in `initial_state`, with no transitions and no callbacks.
    pub fn new(initial_state: u64) -> (m: Machine)
        ensures
            m.wf(),
            m@ == initial_model(initial_state),
    {
        let m = Machine {
            state: initial_state,
            table: TransitionTable::new(),
            events: Vec::new(),
            callbacks: Vec::new(),
            log: Vec::new(),
        };
        proof {
            assert(m@ =~= initial_model(initial_state));
        }
        m
    }

    /// The current state of the machine.
    pub fn state(&self) -> (s: u64)
        ensures
            s == self@.state,
    {
        self.state
    }

    /// When `event` occurs in `state`, move to `new_state`.
    ///
    /// A later definition for the same `(event, state)` pair overwrites the
    /// earlier destination.
    pub fn when(&mut self, event: u64, state: u64, new_state: u64)
        requires
            old(self).wf(),
        ensures
            final(self).wf(),
            final(self)@ == spec_define(old(self)@, event, state, new_state),
    {
        self.table.insert((event, state), new_state);
        let had = vec_contains(&self.events, event);
        if !had {
            self.events.push(event);
        }
        proof {
            let m0 = old(self)@;
            let m1 = self@;
            let evs0 = old(self).events@;
            let evs1 = self.events@;
            assert(m1 =~= spec_define(m0, event, state, new_state));
            if !had {
                assert(evs1 == evs0.push(event));
                assert(evs1[evs0.len() as int] == event);
                assert forall|i1: int, j1: int|
                    (0 <= i1 < evs1.len() && 0 <= j1 < evs1.len() && i1 != j1) implies evs1[i1]
                    != evs1[j1] by {
                    if i1 < evs0.len() && j1 < evs0.len() {
                        assert(evs1[i1] == evs0[i1]);
                        assert(evs1[j1] == evs0[j1]);
                    } else if i1 == evs0.len() as int {
                        assert(evs1[i1] == event);
                        assert(evs1[j1] == evs0[j1]);
                        assert(!evs0.contains(event));
                    } else {
                        assert(evs1[j1] == event);
                        assert(evs1[i1] == evs0[i1]);
                        assert(!evs0.contains(event));
                    }
                }
            }
            assert(evs1.contains(event));
            assert forall|e: u64| #[trigger] evs1.contains(e) implies event_known(m1, e) by {
                if e == event {
                    assert(m1.table.dom().contains((event, state)));
                } else {
                    assert(evs0.contains(e));
                    let s = choose|s: u64| m0.table.dom().contains((e, s));
                    assert(m1.table.dom().contains((e, s)));
                }
            }
            assert forall|e: u64| event_known(m1, e) implies evs1.contains(e) by {
                if e != event {
                    let s = choose|s: u64| m1.table.dom().contains((e, s));
                    assert(m0.table.dom().contains((e, s)));
                    assert(evs0.contains(e));
                }
            }
        }
    }

    /// Define one transition per `(from, to)` pair of `mapping`, all under
    /// `event`; a later pair overwrites an earlier one with the same source.
    pub fn when_iter(&mut self, event: u64, mapping: Vec<(u64, u64)>)
        requires
            old(self).wf(),
        ensures
            final(self).wf(),
            final(self)@ == spec_define_many(old(self)@, event, mapping@),
    {
        let mut i: usize = 0;
        while i < mapping.len()
            invariant
                i <= mapping@.len(),
                self.wf(),
                self@ == spec_define_many(old(self)@, event, mapping@.subrange(0, i as int)),
            decreases mapping@.len() - i,
        {
            let pair: (u64, u64) = mapping[i];
            self.when(event, pair.0, pair.1);
            proof {
                lemma_define_many_push(
                    old(self)@,
                    event,
                    mapping@.subrange(0, i as int),
                    mapping@[i as int],
                );
                assert(mapping@.subrange(0, i as int + 1) =~= mapping@.subrange(
                    0,
                    i as int,
                ).push(mapping@[i as int]));
            }
            i += 1;
        }
        proof {
            assert(mapping@.subrange(0, mapping@.len() as int) =~= mapping@);
        }
    }

    /// Appends one callback entry; shared by the four registration methods.
    fn register(&mut self, key: TriggerKey, filter: PayloadFilter) -> (id: usize)
        requires
            old(self).wf(),
        ensures
            final(self).wf(),
            final(self)@ == spec_register(old(self)@, key, filter),
            id == old(self)@.callbacks.len(),
    {
        let id: usize = self.callbacks.len();
        self.callbacks.push(CallbackEntry { key, filter });
        proof {
            assert(self@ =~= spec_register(old(self)@, key, filter));
            assert forall|e: u64| #[trigger] self.events@.contains(e) <==> event_known(
                self@,
                e,
            ) by {
                lemma_event_known_same_table(old(self)@, self@, e);
                assert(old(self).events@.contains(e) <==> event_known(old(self)@, e));
            }
        }
        id
    }

    /// Register a no-payload callback that fires whenever the machine enters
    /// `state`, whatever payload the trigger carries. Returns the callback's
    /// identifier, as recorded in [`Invocation::callback`].
    pub fn on_enter(&mut self, state: u64) -> (id: usize)
        requires
            old(self).wf(),
        ensures
            final(self).wf(),
            final(self)@ == spec_register(
                old(self)@,
                TriggerKey::State(state),
                PayloadFilter::Always,
            ),
            id == old(self)@.callbacks.len(),
    {
        self.register(TriggerKey::State(state), PayloadFilter::Always)
    }

    /// Register a callback that fires when the machine enters `state` and the
    /// trigger's payload carries exactly the type `expects`. Returns the
    /// callback's identifier.
    pub fn on_enter_with(&mut self, state: u64, expects: PayloadTag) -> (id: usize)
        requires
            old(self).wf(),
        ensures
            final(self).wf(),
            final(self)@ == spec_register(
                old(self)@,
                TriggerKey::State(state),
                PayloadFilter::Expects(expects),
            ),
            id == old(self)@.callbacks.len(),
    {
        self.register(TriggerKey::State(state), PayloadFilter::Expects(expects))
    }

    /// Register a no-payload callback that fires on every successful
    /// transition, whatever payload the trigger carries. Returns the
    /// callback's identifier.
    pub fn on_transition(&mut self) -> (id: usize)
        requires
            old(self).wf(),
        ensures
            final(self).wf(),
            final(self)@ == spec_register(old(self)@, TriggerKey::AnyState, PayloadFilter::Always),
            id == old(self)@.callbacks.len(),
    {
        self.register(TriggerKey::AnyState, PayloadFilter::Always)
    }

    /// Register a callback that fires on every successful transition whose
    /// payload carries exactly the type `expects`. Returns the callback's
    /// identifier.
    pub fn on_transition_with(&mut self, expects: PayloadTag) -> (id: usize)
        requires
            old(self).wf(),
        ensures
            final(self).wf(),
            final(self)@ == spec_register(
                old(self)@,
                TriggerKey::AnyState,
                PayloadFilter::Expects(expects),
            ),
            id == old(self)@.callbacks.len(),
    {
        self.register(TriggerKey::AnyState, PayloadFilter::Expects(expects))
    }

    /// Trigger `event` without a payload; the same as triggering with the
    /// empty payload [`Payload::Unit`].
    pub fn trigger(&mut self, event: u64) -> (r: Result<(), MachineError>)
        requires
            old(self).wf(),
        ensures
            final(self).wf(),
            final(self)@ == spec_trigger(old(self)@, event, Payload::Unit).0,
            r == spec_trigger(old(self)@, event, Payload::Unit).1,
    {
        self.trigger_with(event, Payload::Unit)
    }

    /// Trigger `event` with `payload`.
    ///
    /// Fails with [`MachineError::EventInvalid`] when no transition is defined
    /// for `event` anywhere, and with [`MachineError::StateInvalid`] when
    /// `event` is known but has no transition from the current state; both
    /// failures leave the machine unchanged. Otherwise the machine enters the
    /// destination state and then dispatches the event and payload to its
    /// callbacks: those registered for the entered state first, then those
    /// registered for any state, each group in registration order, each
    /// callback firing only if its payload filter admits the payload's type.
    pub fn trigger_with(&mut self, event: u64, payload: Payload) -> (r: Result<(), MachineError>)
        requires
            old(self).wf(),
        ensures
            final(self).wf(),
            final(self)@ == spec_trigger(old(self)@, event, payload).0,
            r == spec_trigger(old(self)@, event, payload).1,
    {
        if !vec_contains(&self.events, event) {
            proof {
                assert(!event_known(old(self)@, event));
            }
            return Err(MachineError::EventInvalid);
        }
        proof {
            assert(event_known(old(self)@, event));
        }
        match self.table.get((event, self.state)) {
            None => {
                proof {
                    assert(!old(self)@.table.dom().contains((event, old(self)@.state)));
                }
                Err(MachineError::StateInvalid)
            },
            Some(entered) => {
                self.state = entered;
                run_pass(
                    &mut self.log,
                    &self.callbacks,
                    TriggerKey::State(entered),
                    event,
                    &payload,
                );
                run_pass(&mut self.log, &self.callbacks, TriggerKey::AnyState, event, &payload);
                proof {
                    let m0 = old(self)@;
                    assert(self@.log =~= m0.log + dispatch_invocations(
                        m0.callbacks,
                        entered,
                        event,
                        payload,
                    ));
                    assert(self@ =~= spec_trigger(m0, event, payload).0);
                    assert forall|e: u64| #[trigger] self.events@.contains(e) <==> event_known(
                        self@,
                        e,
                    ) by {
                        lemma_event_known_same_table(m0, self@, e);
                        assert(old(self).events@.contains(e) <==> event_known(m0, e));
                    }
                }
                Ok(())
            },
        }
    }

    /// Every state mentioned in the table, as a source or a destination of
    /// some transition, each once, in no promised order.
    pub fn states(&self) -> (r: Vec<u64>)
        ensures
            r@.no_duplicates(),
            forall|s: u64| #[trigger] r@.contains(s) <==> state_known(self@, s),
    {
        let entries: Vec<((u64, u64), u64)> = self.table.entries();
        let mut seen = StateSet::new();
        let mut i: usize = 0;
        while i < entries.len()
            invariant
                i <= entries@.len(),
                forall|s: u64| #[trigger] set_elems(seen).contains(s) <==> exists|j: int|
                    0 <= j < i && mentions_state(entries@[j], s),
            decreases entries@.len() - i,
        {
            let ghost seen0 = seen;
            let entry: ((u64, u64), u64) = entries[i];
            seen.insert(entry.0.1);
            seen.insert(entry.1);
            proof {
                assert(set_elems(seen) =~= set_elems(seen0).insert(entry.0.1).insert(entry.1));
                assert forall|s: u64| #[trigger] set_elems(seen).contains(s) implies exists|j: int|
                    0 <= j < i + 1 && mentions_state(entries@[j], s) by {
                    if s == entry.0.1 || s == entry.1 {
                        assert(mentions_state(entries@[i as int], s));
                    } else {
                        let j = choose|j: int| 0 <= j < i && mentions_state(entries@[j], s);
                        assert(0 <= j < i + 1 && mentions_state(entries@[j], s));
                    }
                }
                assert forall|s: u64|
                    (exists|j: int| 0 <= j < i + 1 && mentions_state(entries@[j], s))
                    implies #[trigger] set_elems(seen).contains(s) by {
                    let j = choose|j: int| 0 <= j < i + 1 && mentions_state(entries@[j], s);
                    if j < i {
                        assert(set_elems(seen0).contains(s));
                    }
                }
            }
            i += 1;
        }
        let r = seen.to_vec();
        proof {
            assert forall|s: u64| #[trigger] r@.contains(s) implies state_known(self@, s) by {
                let j = choose|j: int| 0 <= j < entries@.len() && mentions_state(entries@[j], s);
                assert(table_entries(self.table).contains_pair(entries@[j].0, entries@[j].1));
                assert(self@.table.dom().contains(entries@[j].0));
            }
            assert forall|s: u64| state_known(self@, s) implies r@.contains(s) by {
                let key = choose|key: (u64, u64)|
                    #[trigger] self@.table.dom().contains(key) && (key.1 == s || self@.table[key]
                        == s);
                let j = choose|j: int| 0 <= j < entries@.len() && entries@[j].0 == key;
                assert(table_entries(self.table).contains_pair(entries@[j].0, entries@[j].1));
                assert(mentions_state(entries@[j], s));
            }
        }
        r
    }

    /// Every event with at least one transition defined, each once, in no
    /// promised order.
    pub fn events(&self) -> (r: Vec<u64>)
        requires
            self.wf(),
        ensures
            r@.no_duplicates(),
            forall|e: u64| #[trigger] r@.contains(e) <==> event_known(self@, e),
    {
        let mut r: Vec<u64> = Vec::new();
        let mut i: usize = 0;
        while i < self.events.len()
            invariant
                i <= self.events@.len(),
                r@ == self.events@.subrange(0, i as int),
            decreases self.events@.len() - i,
        {
            let e: u64 = self.events[i];
            r.push(e);
            proof {
                assert(r@ =~= self.events@.subrange(0, i as int + 1));
            }
            i += 1;
        }
        proof {
            assert(r@ =~= self.events@);
        }
        r
    }

    /// Every event with a transition defined from the current state, each
    /// once, in no promised order.
    pub fn triggerable_events(&self) -> (r: Vec<u64>)
        ensures
            r@.no_duplicates(),
            forall|e: u64| #[trigger] r@.contains(e) <==> self@.table.dom().contains(
                (e, self@.state),
            ),
    {
        let entries: Vec<((u64, u64), u64)> = self.table.entries();
        let mut r: Vec<u64> = Vec::new();
        let mut i: usize = 0;
        while i < entries.len()
            invariant
                i <= entries@.len(),
                forall|i1: int, j1: int|
                    0 <= i1 < j1 < entries@.len() ==> entries@[i1].0 != entries@[j1].0,
                r@.no_duplicates(),
                forall|e: u64| #[trigger] r@.contains(e) <==> exists|j: int|
                    0 <= j < i && entries@[j].0 == (e, self.state),
            decreases entries@.len() - i,
        {
            let entry: ((u64, u64), u64) = entries[i];
            let ghost r0 = r@;
            if entry.0.1 == self.state {
                proof {
                    assert(entries@[i as int].0 == (entry.0.0, self.state));
                    if r0.contains(entry.0.0) {
                        let j = choose|j: int|
                            0 <= j < i && entries@[j].0 == (entry.0.0, self.state);
                        assert(entries@[j].0 != entries@[i as int].0);
                        assert(false);
                    }
                }
                r.push(entry.0.0);
                proof {
                    assert forall|i1: int, j1: int|
                        (0 <= i1 < r@.len() && 0 <= j1 < r@.len() && i1 != j1) implies r@[i1]
                        != r@[j1] by {
                        if i1 == r0.len() as int {
                            assert(r@[i1] == entry.0.0);
                            assert(r@[j1] == r0[j1]);
                            assert(!r0.contains(entry.0.0));
                        } else if j1 == r0.len() as int {
                            assert(r@[j1] == entry.0.0);
                            assert(r@[i1] == r0[i1]);
                            assert(!r0.contains(entry.0.0));
                        } else {
                            assert(r@[i1] == r0[i1]);
                            assert(r@[j1] == r0[j1]);
                        }
                    }
                }
            }
            proof {
                assert forall|e: u64| #[trigger] r@.contains(e) implies exists|j: int|
                    0 <= j < i + 1 && entries@[j].0 == (e, self.state) by {
                    if r0.contains(e) {
                        let j = choose|j: int| 0 <= j < i && entries@[j].0 == (e, self.state);
                        assert(0 <= j < i + 1 && entries@[j].0 == (e, self.state));
                    } else {
                        assert(entries@[i as int].0 == (e, self.state));
                    }
                }
                assert forall|e: u64|
                    (exists|j: int| 0 <= j < i + 1 && entries@[j].0 == (e, self.state))
                    implies #[trigger] r@.contains(e) by {
                    let j = choose|j: int| 0 <= j < i + 1 && entries@[j].0 == (e, self.state);
                    if j < i {
                        assert(r0.contains(e));
                    } else {
                        assert(entries@[i as int].0.1 == self.state);
                        assert(r@[r0.len() as int] == entries@[i as int].0.0);
                    }
                }
            }
            i += 1;
        }
        proof {
            assert forall|e: u64| #[trigger] r@.contains(e) implies self@.table.dom().contains(
                (e, self@.state),
            ) by {
                let j = choose|j: int| 0 <= j < entries@.len() && entries@[j].0 == (e, self.state);
                assert(table_entries(self.table).contains_pair(entries@[j].0, entries@[j].1));
            }
            assert forall|e: u64| self@.table.dom().contains((e, self@.state)) implies r@.contains(
                e,
            ) by {
                let j = choose|j: int|
                    0 <= j < entries@.len() && entries@[j].0 == (e, self.state);
            }
        }
        r
    }

    /// The record of every callback invocation dispatched so far, oldest
    /// first.
    pub fn invocations(&self) -> (r: &Vec<Invocation>)
        ensures
            r@ == self@.log,
    {
        &self.log
    }
}

impl Default for Machine {
    /// A machine whose initial state is `0`, with no transitions and no
    /// callbacks.
    fn default() -> (m: Machine)
        ensures
            m.wf(),
            m@ == initial_model(0),
    {
        Machine::new(0)
    }
}

/// Whether `entry` mentions `state` as its source or its destination.
spec fn mentions_state(entry: ((u64, u64), u64), state: u64) -> bool {
    entry.0.1 == state || entry.1 == state
}

/// After defining `from --event--> to`, triggering `event` with any payload
/// from state `from` succeeds and leaves the machine in state `to`.
pub proof fn lemma_define_then_trigger_succeeds(
    m: MachineModel,
    event: u64,
    from: u64,
    to: u64,
    payload: Payload,
)
    requires
        m.state == from,
    ensures
        ({
            let defined = spec_define(m, event, from, to);
            let stepped = spec_trigger(defined, event, payload);
            stepped.1 == Ok::<(), MachineError>(()) && stepped.0.state == to
        }),
{
    let defined = spec_define(m, event, from, to);
    assert(defined.table.dom().contains((event, from)));
    assert(event_known(defined, event));
}

/// Triggering an event with no transition defined anywhere fails with
/// [`MachineError::EventInvalid`] and leaves the machine unchanged, whatever
/// the current state and the payload.
pub proof fn lemma_unknown_event_rejected(m: MachineModel, event: u64, payload: Payload)
    requires
        !event_known(m, event),
    ensures
        spec_trigger(m, event, payload).0 == m,
        (spec_trigger(m, event, payload).1 == Err::<(), MachineError>(MachineError::EventInvalid)),
{
}

/// Triggering a known event from a state with no defined destination fails
/// with [`MachineError::StateInvalid`] and leaves the machine unchanged,
/// whatever the payload.
pub proof fn lemma_unreachable_state_rejected(m: MachineModel, event: u64, payload: Payload)
    requires
        event_known(m, event),
        !m.table.dom().contains((event, m.state)),
    ensures
        spec_trigger(m, event, payload).0 == m,
        (spec_trigger(m, event, payload).1 == Err::<(), MachineError>(MachineError::StateInvalid)),
{
}

/// Redefining the transition for `(event, from)` overwrites the earlier
/// destination: the table keeps only the latest one, and a subsequent trigger
/// from `from` moves there.
pub proof fn lemma_redefine_overwrites(
    m: MachineModel,
    event: u64,
    from: u64,
    first: u64,
    second: u64,
    payload: Payload,
)
    requires
        m.state == from,
    ensures
        ({
            let redefined = spec_define(spec_define(m, event, from, first), event, from, second);
            &&& redefined.table == m.table.insert((event, from), second)
            &&& spec_trigger(redefined, event, payload).1 == Ok::<(), MachineError>(())
            &&& spec_trigger(redefined, event, payload).0.state == second
        }),
{
    let redefined = spec_define(spec_define(m, event, from, first), event, from, second);
    assert(redefined.table =~= m.table.insert((event, from), second));
    assert(redefined.table.dom().contains((event, from)));
    assert(event_known(redefined, event));
}

/// A no-payload callback registered for a state fires on every successful
/// transition into that state, whatever payload the trigger carries: its
/// invocation is in the log afterwards.
pub proof fn lemma_no_payload_callback_fires_on_entry(
    m: MachineModel,
    event: u64,
    payload: Payload,
    i: usize,
)
    requires
        m.callbacks.len() <= usize::MAX,
        i < m.callbacks.len(),
        (spec_trigger(m, event, payload).1 == Ok::<(), MachineError>(())),
        m.callbacks[i as int] == (CallbackEntry {
            key: TriggerKey::State(spec_trigger(m, event, payload).0.state),
            filter: PayloadFilter::Always,
        }),
    ensures
        spec_trigger(m, event, payload).0.log.contains(
            (Invocation { callback: i, event, payload }),
        ),
{
    let stepped = spec_trigger(m, event, payload).0;
    crate::dispatch::lemma_no_payload_callback_fires(m.callbacks, stepped.state, event, payload, i);
    assert(stepped.log == m.log + dispatch_invocations(m.callbacks, stepped.state, event, payload));
}

/// An any-state callback whose filter admits the payload's type fires on
/// every successful transition, whatever state is entered: its invocation is
/// in the log afterwards.
pub proof fn lemma_any_state_callback_fires_on_transition(
    m: MachineModel,
    event: u64,
    payload: Payload,
    i: usize,
)
    requires
        m.callbacks.len() <= usize::MAX,
        i < m.callbacks.len(),
        (spec_trigger(m, event, payload).1 == Ok::<(), MachineError>(())),
        m.callbacks[i as int].key == TriggerKey::AnyState,
        crate::dispatch::filter_admits(m.callbacks[i as int].filter, spec_tag(payload)),
    ensures
        spec_trigger(m, event, payload).0.log.contains(
            (Invocation { callback: i, event, payload }),
        ),
{
    let stepped = spec_trigger(m, event, payload).0;
    crate::dispatch::lemma_any_state_callback_fires(m.callbacks, stepped.state, event, payload, i);
    assert(stepped.log == m.log + dispatch_invocations(m.callbacks, stepped.state, event, payload));
}

/// Defining the pairs `pairs.push(pair)` is defining `pairs`, then `pair`.
proof fn lemma_define_many_push(
    m: MachineModel,
    event: u64,
    pairs: Seq<(u64, u64)>,
    pair: (u64, u64),
)
    ensures
        spec_define_many(m, event, pairs.push(pair)) == spec_define(
            spec_define_many(m, event, pairs),
            event,
            pair.0,
            pair.1,
        ),
    decreases pairs.len(),
{
    reveal_with_fuel(spec_define_many, 2);
    if pairs.len() == 0 {
        assert(pairs.push(pair)[0] == pair);
        assert(pairs.push(pair).drop_first() =~= Seq::empty());
    } else {
        lemma_define_many_push(
            spec_define(m, event, pairs[0].0, pairs[0].1),
            event,
            pairs.drop_first(),
            pair,
        );
        assert(pairs.push(pair).drop_first() =~= pairs.drop_first().push(pair));
        assert(pairs.push(pair)[0] == pairs[0]);
    }
}

} // verus!
