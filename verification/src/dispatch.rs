//! Callback registration entries and the dispatch rule.
//!
//! A callback registration is reduced to a [`CallbackEntry`]: the key that
//! selects on which transitions it is considered, and a filter on the payload
//! type. Dispatching a successful transition produces one [`Invocation`]
//! record per fired callback, state-specific callbacks first and any-state
//! callbacks second, each group in registration order.

use vstd::prelude::*;

use crate::payload::{Payload, PayloadTag, spec_tag};

verus! {

broadcast use vstd::seq_lib::group_seq_properties;

/// Selects the transitions on which a registered callback is considered.
#[derive(Debug, Clone, Copy, PartialEq, Eq, Structural)]
pub enum TriggerKey {
    /// Considered only when the machine enters this specific state.
    State(u64),
    /// Considered on every successful transition.
    AnyState,
}

/// Decides, from the payload's type, whether a considered callback fires.
#[derive(Debug, Clone, Copy, PartialEq, Eq, Structural)]
pub enum PayloadFilter {
    /// Fires whatever the payload is; how a no-payload callback is registered.
    Always,
    /// Fires only when the payload carries exactly this type tag.
    Expects(PayloadTag),
}

/// One registered callback: its selection key and its payload filter.
#[derive(Debug, Clone, Copy, PartialEq, Eq, Structural)]
pub struct CallbackEntry {
    /// When this callback is considered.
    pub key: TriggerKey,
    /// Whether the callback fires for a given payload type.
    pub filter: PayloadFilter,
}

/// The record of one fired callback.
#[derive(Debug, PartialEq, Eq)]
pub struct Invocation {
    /// The fired callback, as the identifier returned at registration.
    pub callback: usize,
    /// The event that caused the transition.
    pub event: u64,
    /// The payload that accompanied the trigger.
    pub payload: Payload,
}

/// Whether a filter lets a payload of type `tag` through.
pub open spec fn filter_admits(filter: PayloadFilter, tag: PayloadTag) -> bool {
    match filter {
        PayloadFilter::Always => true,
        PayloadFilter::Expects(expected) => expected == tag,
    }
}

/// Whether entry `entry` fires in the pass over key `key` for a payload of
/// type `tag`.
pub open spec fn entry_fires(entry: CallbackEntry, key: TriggerKey, tag: PayloadTag) -> bool {
    entry.key == key && filter_admits(entry.filter, tag)
}

/// The invocations produced by one pass over the entries from index `start`
/// on, firing those whose key equals `key` and whose filter admits the
/// payload's type.
pub open spec fn fired_from(
    cbs: Seq<CallbackEntry>,
    start: int,
    key: TriggerKey,
    event: u64,
    payload: Payload,
) -> Seq<Invocation>
    decreases cbs.len() - start,
{
    if start < 0 || start >= cbs.len() {
        Seq::empty()
    } else {
        let rest = fired_from(cbs, start + 1, key, event, payload);
        if entry_fires(cbs[start], key, spec_tag(payload)) {
            seq![Invocation { callback: start as usize, event, payload }] + rest
        } else {
            rest
        }
    }
}

/// Every invocation a successful transition into `entered` dispatches, in
/// order: the state-specific pass first, then the any-state pass.
pub open spec fn dispatch_invocations(
    cbs: Seq<CallbackEntry>,
    entered: u64,
    event: u64,
    payload: Payload,
) -> Seq<Invocation> {
    fired_from(cbs, 0, TriggerKey::State(entered), event, payload)
        + fired_from(cbs, 0, TriggerKey::AnyState, event, payload)
}

/// One pass dispatches the invocation for callback `i` exactly when entry `i`
/// lies at or after `start` and fires for the pass's key and the payload's
/// type.
proof fn lemma_fired_from_contains(
    cbs: Seq<CallbackEntry>,
    start: int,
    key: TriggerKey,
    event: u64,
    payload: Payload,
    i: usize,
)
    requires
        0 <= start,
        cbs.len() <= usize::MAX,
    ensures
        fired_from(cbs, start, key, event, payload).contains(
            (Invocation { callback: i, event, payload }),
        ) <==> (start <= i < cbs.len() && entry_fires(cbs[i as int], key, spec_tag(payload))),
    decreases cbs.len() - start,
{
    let inv = Invocation { callback: i, event, payload };
    let fired = fired_from(cbs, start, key, event, payload);
    if start < 0 || start >= cbs.len() {
        assert(!fired.contains(inv));
    } else {
        lemma_fired_from_contains(cbs, start + 1, key, event, payload, i);
        let rest = fired_from(cbs, start + 1, key, event, payload);
        if entry_fires(cbs[start], key, spec_tag(payload)) {
            let head = seq![Invocation { callback: start as usize, event, payload }];
            assert(fired == head + rest);
            assert((head + rest).contains(inv) <==> head.contains(inv) || rest.contains(inv));
            if head.contains(inv) {
                let k = choose|k: int| 0 <= k < head.len() && head[k] == inv;
                assert(head[0] == inv);
                assert(i == start);
            }
            if i == start {
                assert(head[0] == inv);
                assert(head.contains(inv));
            }
        } else {
            assert(fired == rest);
            if i == start {
                assert(!(start + 1 <= i));
            }
        }
    }
}

/// Every invocation of one pass records the pass's event and payload, names
/// an entry that fires for the pass's key, and callback identifiers strictly
/// increase along the pass.
proof fn lemma_fired_from_shape(
    cbs: Seq<CallbackEntry>,
    start: int,
    key: TriggerKey,
    event: u64,
    payload: Payload,
)
    requires
        cbs.len() <= usize::MAX,
    ensures
        ({
            let fired = fired_from(cbs, start, key, event, payload);
            &&& forall|k: int|
                0 <= k < fired.len() ==> start <= #[trigger] fired[k].callback < cbs.len()
                    && entry_fires(cbs[fired[k].callback as int], key, spec_tag(payload)) && (
                fired[k].event == event && fired[k].payload == payload)
            &&& forall|k1: int, k2: int|
                0 <= k1 < k2 < fired.len() ==> fired[k1].callback < fired[k2].callback
        }),
    decreases cbs.len() - start,
{
    if start < 0 || start >= cbs.len() {
    } else {
        lemma_fired_from_shape(cbs, start + 1, key, event, payload);
        let fired = fired_from(cbs, start, key, event, payload);
        let rest = fired_from(cbs, start + 1, key, event, payload);
        if entry_fires(cbs[start], key, spec_tag(payload)) {
            let head = seq![Invocation { callback: start as usize, event, payload }];
            assert(fired == head + rest);
            assert forall|k: int| 0 <= k < fired.len() implies start <= #[trigger] fired[k].callback
                < cbs.len() && entry_fires(cbs[fired[k].callback as int], key, spec_tag(payload))
                && (fired[k].event == event && fired[k].payload == payload) by {
                if k == 0 {
                    assert(fired[k] == head[0]);
                    assert(fired[k].callback == start as usize);
                    assert(cbs[fired[k].callback as int] == cbs[start]);
                } else {
                    assert(fired[k] == rest[k - 1]);
                    assert(fired[k].callback == rest[k - 1].callback);
                }
            }
            assert forall|k1: int, k2: int| 0 <= k1 < k2 < fired.len() implies fired[k1].callback
                < fired[k2].callback by {
                assert(fired[k2] == rest[k2 - 1]);
                assert(fired[k2].callback == rest[k2 - 1].callback);
                if k1 == 0 {
                    assert(fired[k1] == head[0]);
                    assert(fired[k1].callback == start as usize);
                } else {
                    assert(fired[k1] == rest[k1 - 1]);
                    assert(fired[k1].callback == rest[k1 - 1].callback);
                }
            }
        } else {
            assert(fired == rest);
        }
    }
}

/// A callback that expects a payload type fires exactly when the supplied
/// payload carries that type: with its key matching (the entered state, or
/// any-state), its invocation is dispatched if and only if the payload's tag
/// equals the expected one; for any other payload type it is skipped, not an
/// error.
pub proof fn lemma_typed_callback_fires_iff_type_matches(
    cbs: Seq<CallbackEntry>,
    entered: u64,
    event: u64,
    payload: Payload,
    i: usize,
    expected: PayloadTag,
)
    requires
        cbs.len() <= usize::MAX,
        i < cbs.len(),
        cbs[i as int].filter == PayloadFilter::Expects(expected),
        cbs[i as int].key == TriggerKey::State(entered) || cbs[i as int].key
            == TriggerKey::AnyState,
    ensures
        dispatch_invocations(cbs, entered, event, payload).contains(
            (Invocation { callback: i, event, payload }),
        ) <==> spec_tag(payload) == expected,
{
    lemma_fired_from_contains(cbs, 0, TriggerKey::State(entered), event, payload, i);
    lemma_fired_from_contains(cbs, 0, TriggerKey::AnyState, event, payload, i);
}

/// A no-payload callback registered for the entered state fires on every
/// dispatch into that state, whatever payload the trigger carries.
pub proof fn lemma_no_payload_callback_fires(
    cbs: Seq<CallbackEntry>,
    entered: u64,
    event: u64,
    payload: Payload,
    i: usize,
)
    requires
        cbs.len() <= usize::MAX,
        i < cbs.len(),
        cbs[i as int] == (CallbackEntry {
            key: TriggerKey::State(entered),
            filter: PayloadFilter::Always,
        }),
    ensures
        dispatch_invocations(cbs, entered, event, payload).contains(
            (Invocation { callback: i, event, payload }),
        ),
{
    lemma_fired_from_contains(cbs, 0, TriggerKey::State(entered), event, payload, i);
}

/// An any-state callback whose filter admits the payload's type fires on
/// every dispatch, whatever state was entered.
pub proof fn lemma_any_state_callback_fires(
    cbs: Seq<CallbackEntry>,
    entered: u64,
    event: u64,
    payload: Payload,
    i: usize,
)
    requires
        cbs.len() <= usize::MAX,
        i < cbs.len(),
        cbs[i as int].key == TriggerKey::AnyState,
        filter_admits(cbs[i as int].filter, spec_tag(payload)),
    ensures
        dispatch_invocations(cbs, entered, event, payload).contains(
            (Invocation { callback: i, event, payload }),
        ),
{
    lemma_fired_from_contains(cbs, 0, TriggerKey::AnyState, event, payload, i);
}

/// A state-specific callback for a state other than the entered one never
/// fires: no dispatched invocation names it.
pub proof fn lemma_other_state_callback_skipped(
    cbs: Seq<CallbackEntry>,
    entered: u64,
    event: u64,
    payload: Payload,
    i: usize,
    other: u64,
)
    requires
        cbs.len() <= usize::MAX,
        i < cbs.len(),
        cbs[i as int].key == TriggerKey::State(other),
        other != entered,
    ensures
        forall|k: int|
            0 <= k < dispatch_invocations(cbs, entered, event, payload).len()
                ==> #[trigger] dispatch_invocations(cbs, entered, event, payload)[k].callback != i,
{
    lemma_fired_from_shape(cbs, 0, TriggerKey::State(entered), event, payload);
    lemma_fired_from_shape(cbs, 0, TriggerKey::AnyState, event, payload);
    let specific = fired_from(cbs, 0, TriggerKey::State(entered), event, payload);
    let any = fired_from(cbs, 0, TriggerKey::AnyState, event, payload);
    let d = dispatch_invocations(cbs, entered, event, payload);
    assert forall|k: int| 0 <= k < d.len() implies #[trigger] d[k].callback != i by {
        if k < specific.len() {
            assert(d[k] == specific[k]);
        } else {
            assert(d[k] == any[k - specific.len()]);
        }
    }
}

/// The dispatch order: the state-specific pass precedes the any-state pass;
/// within each pass, every invocation names an entry with that pass's key, and
/// callbacks appear in registration order.
pub proof fn lemma_dispatch_order(
    cbs: Seq<CallbackEntry>,
    entered: u64,
    event: u64,
    payload: Payload,
)
    requires
        cbs.len() <= usize::MAX,
    ensures
        ({
            let specific = fired_from(cbs, 0, TriggerKey::State(entered), event, payload);
            let any = fired_from(cbs, 0, TriggerKey::AnyState, event, payload);
            &&& dispatch_invocations(cbs, entered, event, payload) == specific + any
            &&& forall|k: int|
                0 <= k < specific.len() ==> cbs[#[trigger] specific[k].callback as int].key
                    == TriggerKey::State(entered)
            &&& forall|k: int|
                0 <= k < any.len() ==> cbs[#[trigger] any[k].callback as int].key
                    == TriggerKey::AnyState
            &&& forall|k1: int, k2: int|
                0 <= k1 < k2 < specific.len() ==> specific[k1].callback < specific[k2].callback
            &&& forall|k1: int, k2: int|
                0 <= k1 < k2 < any.len() ==> any[k1].callback < any[k2].callback
        }),
{
    lemma_fired_from_shape(cbs, 0, TriggerKey::State(entered), event, payload);
    lemma_fired_from_shape(cbs, 0, TriggerKey::AnyState, event, payload);
}

} // verus!
