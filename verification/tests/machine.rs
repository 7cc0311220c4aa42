use nanomachine::{Machine, MachineError, Payload, PayloadTag};

const IDLE: u64 = 1;
const RUNNING: u64 = 2;
const PAUSED: u64 = 3;
const STOPPED: u64 = 4;

const START: u64 = 10;
const PAUSE: u64 = 11;
const RESUME: u64 = 12;
const STOP: u64 = 13;

fn create_machine() -> Machine {
    let mut m = Machine::new(IDLE);

    m.when_iter(START, vec![(IDLE, RUNNING), (STOPPED, RUNNING)]);

    m.when(PAUSE, RUNNING, PAUSED);
    m.when(RESUME, PAUSED, RUNNING);
    m.when(STOP, RUNNING, STOPPED);

    m
}

/// How many invocations the machine has recorded for callback `id`.
fn times_fired(m: &Machine, id: usize) -> usize {
    m.invocations().iter().filter(|iv| iv.callback == id).count()
}

/// The payload of the last invocation recorded for callback `id`, if any.
fn last_payload(m: &Machine, id: usize) -> Option<Payload> {
    m.invocations()
        .iter()
        .filter(|iv| iv.callback == id)
        .last()
        .map(|iv| iv.payload.clone())
}

#[test]
fn initial_state() {
    let m = Machine::new(42);
    assert_eq!(m.state(), 42);
}

#[test]
fn valid_transition() {
    let mut m = create_machine();
    assert!(m.trigger(START).is_ok());
    assert_eq!(m.state(), RUNNING);
}

#[test]
fn invalid_transition() {
    let mut m = create_machine();
    assert_eq!(m.trigger(PAUSE).unwrap_err(), MachineError::StateInvalid);
    assert_eq!(m.state(), IDLE);
}

#[test]
fn state_specific_callback() {
    let mut m = create_machine();

    let id = m.on_enter_with(RUNNING, PayloadTag::Unit);

    m.trigger(START).unwrap();
    assert!(times_fired(&m, id) > 0);
}

#[test]
fn any_state_callback() {
    let mut m = create_machine();

    let id = m.on_transition();

    m.trigger(START).unwrap();
    m.trigger(PAUSE).unwrap();
    assert_eq!(times_fired(&m, id), 2);
}

#[test]
fn payload_handling() {
    let mut m = Machine::new(IDLE);

    m.when(START, IDLE, RUNNING);

    let id = m.on_enter_with(RUNNING, PayloadTag::Text);

    m.trigger_with(START, Payload::Text("test payload".to_string())).unwrap();
    assert_eq!(last_payload(&m, id), Some(Payload::Text("test payload".to_string())));
}

#[test]
fn state_enumeration() {
    let m = create_machine();
    let states: Vec<u64> = m.states();
    assert!(states.contains(&IDLE));
    assert!(states.contains(&RUNNING));
    assert!(states.contains(&PAUSED));
    assert!(states.contains(&STOPPED));
}

#[test]
fn event_enumeration() {
    let m = create_machine();
    let events: Vec<u64> = m.events();
    assert_eq!(events.len(), 4);
    assert!(events.contains(&START));
    assert!(events.contains(&PAUSE));
}

#[test]
fn triggerable_events() {
    let m = create_machine();
    let triggerable: Vec<u64> = m.triggerable_events();
    assert_eq!(triggerable.as_slice(), &[START]);
}

#[test]
fn overwrite_transition() {
    let mut m = Machine::new(IDLE);
    m.when(START, IDLE, RUNNING);
    m.when(START, IDLE, PAUSED);

    m.trigger(START).unwrap();
    assert_eq!(m.state(), PAUSED);
}

#[test]
fn multiple_callbacks() {
    let mut m = create_machine();

    let first = m.on_enter_with(RUNNING, PayloadTag::Unit);
    let second = m.on_enter_with(RUNNING, PayloadTag::Unit);

    m.trigger(START).unwrap();
    assert_eq!(times_fired(&m, first) + times_fired(&m, second), 2);
}

#[test]
fn no_payload_callback() {
    let mut m = create_machine();

    let id = m.on_enter_with(RUNNING, PayloadTag::Unit);

    m.trigger(START).unwrap();
    assert!(times_fired(&m, id) > 0);
}

#[test]
fn invalid_payload_type() {
    let mut m = Machine::new(IDLE);
    m.when(START, IDLE, RUNNING);

    let id = m.on_enter_with(RUNNING, PayloadTag::Text);

    // Trigger with wrong payload type.
    m.trigger_with(START, Payload::I32(42)).unwrap();
    assert!(times_fired(&m, id) == 0);
}

#[test]
fn on_no_payload_callback() {
    let mut m = create_machine();
    // Register a no-payload callback for entering Running.
    let id = m.on_enter(RUNNING);
    // Trigger Idle -> Running.
    m.trigger(START).unwrap();
    // Callback should have been called with Start event.
    let fired: Vec<u64> =
        m.invocations().iter().filter(|iv| iv.callback == id).map(|iv| iv.event).collect();
    assert_eq!(fired.as_slice(), &[START]);
}

#[test]
fn on_no_payload_not_called_in_other_state() {
    let mut m = create_machine();
    // Register callback for Paused, but machine will go to Running.
    let id = m.on_enter(PAUSED);
    // Trigger Idle -> Running.
    m.trigger(START).unwrap();
    // Callback for Paused should not fire.
    assert!(times_fired(&m, id) == 0);
}

#[test]
fn callback_with_payload_not_called_when_no_payload() {
    let mut m = create_machine();
    // Register a payload callback for entering Running.
    let id = m.on_enter_with(RUNNING, PayloadTag::USize);
    // Trigger Idle -> Running.
    m.trigger(START).unwrap();
    // The payload was the unit payload, so the callback is skipped.
    assert!(times_fired(&m, id) == 0);
}

#[test]
fn callback_with_no_payload_called_when_payload() {
    let mut m = create_machine();
    // Register a no-payload callback for entering Running.
    let id = m.on_enter(RUNNING);
    // Trigger Idle -> Running.
    m.trigger_with(START, Payload::USize(10)).unwrap();
    // Callback should have been called despite the non-unit payload.
    assert!(times_fired(&m, id) > 0);
}

#[test]
fn any_state_with_payload_callback() {
    let mut m = create_machine();

    // Register an any-state callback for u32 payloads.
    let id = m.on_transition_with(PayloadTag::U32);

    // Trigger with matching payloads.
    m.trigger_with(START, Payload::U32(5)).unwrap();
    m.trigger_with(PAUSE, Payload::U32(10)).unwrap();

    // The callback should have fired twice, and last payload should be 10.
    assert_eq!(times_fired(&m, id), 2);
    assert_eq!(last_payload(&m, id), Some(Payload::U32(10)));
}

#[test]
fn any_state_with_wrong_payload_not_called() {
    let mut m = create_machine();

    // Register an any-state callback expecting text payloads.
    let id = m.on_transition_with(PayloadTag::Text);

    // Trigger with a u32 payload instead.
    m.trigger_with(START, Payload::U32(5)).unwrap();

    // The callback should not fire for the wrong payload type.
    assert!(times_fired(&m, id) == 0);
}
