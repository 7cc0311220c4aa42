use nanomachine::{Machine, MachineError, Payload, PayloadTag};

const CREATED: u64 = 20;
const PAID: u64 = 21;
const PAY: u64 = 30;

const IDLE: u64 = 1;
const RUNNING: u64 = 2;
const PAUSED: u64 = 3;
const STOPPED: u64 = 4;
const START: u64 = 10;
const PAUSE: u64 = 11;

#[test]
fn define_then_trigger_reaches_destination() {
    let mut m = Machine::new(7);
    m.when(5, 7, 9);
    assert!(m.trigger_with(5, Payload::I64(-3)).is_ok());
    assert_eq!(m.state(), 9);
}

#[test]
fn unknown_event_rejected_and_state_kept() {
    let mut m = Machine::new(IDLE);
    m.when(START, IDLE, RUNNING);
    assert_eq!(m.trigger(PAUSE).unwrap_err(), MachineError::EventInvalid);
    assert_eq!(m.state(), IDLE);
    assert!(m.invocations().is_empty());
}

#[test]
fn known_event_from_wrong_state_rejected_and_state_kept() {
    let mut m = Machine::new(PAUSED);
    m.when(START, IDLE, RUNNING);
    assert_eq!(m.trigger(START).unwrap_err(), MachineError::StateInvalid);
    assert_eq!(m.state(), PAUSED);
    assert!(m.invocations().is_empty());
}

#[test]
fn redefined_transition_uses_latest_destination_only() {
    let mut m = Machine::new(IDLE);
    m.when(START, IDLE, RUNNING);
    m.when(START, IDLE, STOPPED);
    m.when(START, IDLE, PAUSED);
    m.trigger(START).unwrap();
    assert_eq!(m.state(), PAUSED);
}

#[test]
fn when_iter_later_pair_overwrites_earlier_one() {
    let mut m = Machine::new(IDLE);
    m.when_iter(START, vec![(IDLE, RUNNING), (IDLE, STOPPED)]);
    m.trigger(START).unwrap();
    assert_eq!(m.state(), STOPPED);
}

#[test]
fn when_iter_with_no_pairs_defines_nothing() {
    let mut m = Machine::new(IDLE);
    m.when_iter(START, vec![]);
    assert!(m.events().is_empty());
    assert_eq!(m.trigger(START).unwrap_err(), MachineError::EventInvalid);
}

#[test]
fn typed_unit_callback_skipped_on_other_payload() {
    let mut m = Machine::new(IDLE);
    m.when(START, IDLE, RUNNING);
    // Expects exactly the unit payload type, unlike a no-payload callback.
    let id = m.on_enter_with(RUNNING, PayloadTag::Unit);
    m.trigger_with(START, Payload::U32(5)).unwrap();
    assert!(!m.invocations().iter().any(|iv| iv.callback == id));
    // A bare trigger carries the unit payload, so now it fires.
    m.when(START, RUNNING, RUNNING);
    m.trigger(START).unwrap();
    assert!(m.invocations().iter().any(|iv| iv.callback == id));
}

#[test]
fn dispatch_order_state_specific_before_any_state() {
    let mut m = Machine::new(IDLE);
    m.when(START, IDLE, RUNNING);
    // Register the any-state callback first: it must still fire last.
    let any = m.on_transition();
    let first_specific = m.on_enter(RUNNING);
    let second_specific = m.on_enter(RUNNING);
    m.trigger(START).unwrap();
    let order: Vec<usize> = m.invocations().iter().map(|iv| iv.callback).collect();
    assert_eq!(order.as_slice(), &[first_specific, second_specific, any]);
}

#[test]
fn any_state_callback_fires_for_every_destination() {
    let mut m = Machine::new(IDLE);
    m.when(START, IDLE, RUNNING);
    m.when(PAUSE, RUNNING, PAUSED);
    let id = m.on_transition();
    let running_only = m.on_enter(RUNNING);
    m.trigger(START).unwrap();
    m.trigger(PAUSE).unwrap();
    assert_eq!(m.invocations().iter().filter(|iv| iv.callback == id).count(), 2);
    // The state-specific callback fired only for its exact destination.
    assert_eq!(m.invocations().iter().filter(|iv| iv.callback == running_only).count(), 1);
}

#[test]
fn known_states_cover_unvisited_sources_and_destinations() {
    let mut m = Machine::new(IDLE);
    m.when(START, IDLE, RUNNING);
    m.when(PAUSE, PAUSED, STOPPED);
    let states: Vec<u64> = m.states();
    assert_eq!(states.len(), 4);
    assert!(states.contains(&IDLE));
    assert!(states.contains(&RUNNING));
    assert!(states.contains(&PAUSED));
    assert!(states.contains(&STOPPED));
}

#[test]
fn triggerable_events_from_current_state_only() {
    let mut m = Machine::new(IDLE);
    m.when_iter(START, vec![(IDLE, RUNNING), (STOPPED, RUNNING)]);
    m.when(PAUSE, RUNNING, PAUSED);
    let triggerable: Vec<u64> = m.triggerable_events();
    assert_eq!(triggerable.as_slice(), &[START]);
}

#[test]
fn end_to_end_payment_scenario() {
    let mut m = Machine::new(CREATED);
    m.when(PAY, CREATED, PAID);
    let id = m.on_enter_with(PAID, PayloadTag::U64);
    let outcome = m.trigger_with(PAY, Payload::U64(2500));
    assert!(outcome.is_ok());
    assert_eq!(m.state(), PAID);
    let recorded: Vec<Payload> = m
        .invocations()
        .iter()
        .filter(|iv| iv.callback == id)
        .map(|iv| iv.payload.clone())
        .collect();
    assert_eq!(recorded.as_slice(), &[Payload::U64(2500)]);
}

#[test]
fn fresh_machine_knows_nothing() {
    let m = Machine::new(IDLE);
    assert!(m.states().is_empty());
    assert!(m.events().is_empty());
    assert!(m.triggerable_events().is_empty());
    assert!(m.invocations().is_empty());
}

#[test]
fn default_machine_starts_at_zero() {
    let m = Machine::default();
    assert_eq!(m.state(), 0);
    assert!(m.events().is_empty());
}

#[test]
fn error_messages() {
    assert_eq!(
        MachineError::EventInvalid.message(),
        "The specified event is not defined in this state machine"
    );
    assert_eq!(
        MachineError::StateInvalid.message(),
        "The event is not valid for the current state"
    );
}

#[test]
fn invocation_records_event_and_payload() {
    let mut m = Machine::new(IDLE);
    m.when(START, IDLE, RUNNING);
    let id = m.on_transition_with(PayloadTag::I32);
    m.trigger_with(START, Payload::I32(-7)).unwrap();
    assert_eq!(m.invocations().len(), 1);
    let iv = &m.invocations()[0];
    assert_eq!(iv.callback, id);
    assert_eq!(iv.event, START);
    assert_eq!(iv.payload, Payload::I32(-7));
}
