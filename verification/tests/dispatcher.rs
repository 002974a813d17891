use input_hooks::capability::Capability;
use input_hooks::dispatcher::EventDispatcher;
use input_hooks::event::{Event, EventCode, EventFlag, EventFlagSet};
use input_hooks::key::Key;
use input_hooks::range::Range;
use input_hooks::trigger::{Trigger, TriggerResponse};

const K1: EventCode = EventCode { ev_type: 1, code: 30 };
const K2: EventCode = EventCode { ev_type: 1, code: 48 };
const A: EventCode = EventCode { ev_type: 1, code: 100 };
const B: EventCode = EventCode { ev_type: 1, code: 101 };
const AXIS: EventCode = EventCode { ev_type: 3, code: 0 };

fn withholdable(code: EventCode, domain: u32, value: i32) -> Event {
    Event { code, domain, value, flags: EventFlagSet { withholdable: true } }
}

fn binary() -> Range {
    Range::new(Some(0), Some(1))
}

#[test]
fn activation_presses_the_send_keys_in_order() {
    let mut dispatcher = EventDispatcher::from_send_keys(vec![Key::from_code(A), Key::from_code(B)]);
    let mut out = Vec::new();
    let event = withholdable(K2, 7, 3);
    dispatcher.map_event(event, TriggerResponse::Activates, &mut out);
    assert_eq!(out, vec![event, Event::new(A, 7, 1), Event::new(B, 7, 1)]);
    assert_eq!(dispatcher.activating_event(), Some(event));
}

#[test]
fn release_lets_the_send_keys_go_in_reverse_order() {
    let mut dispatcher = EventDispatcher::from_send_keys(vec![Key::from_code(A), Key::from_code(B)]);
    let mut out = Vec::new();
    let pressed = withholdable(K2, 7, 1);
    let released = withholdable(K1, 8, 0);
    dispatcher.map_event(pressed, TriggerResponse::Activates, &mut out);
    out.clear();
    dispatcher.map_event(released, TriggerResponse::Releases, &mut out);
    // The releases stand in the place of the event that activated.
    assert_eq!(out, vec![Event::new(B, 7, 0), Event::new(A, 7, 0), released]);
    assert_eq!(dispatcher.activating_event(), Some(pressed));
}

#[test]
fn release_without_activation_on_record_uses_the_event_at_hand() {
    let mut dispatcher = EventDispatcher::from_send_keys(vec![Key::from_code(A), Key::from_code(B)]);
    let mut out = vec![Event::new(K1, 1, 1)];
    let released = withholdable(K1, 8, 0);
    dispatcher.map_event(released, TriggerResponse::Releases, &mut out);
    assert_eq!(
        out,
        vec![Event::new(K1, 1, 1), Event::new(B, 8, 0), Event::new(A, 8, 0), released]
    );
    assert_eq!(dispatcher.activating_event(), None);
}

#[test]
fn other_events_pass_unchanged() {
    let mut dispatcher = EventDispatcher::from_send_keys(vec![Key::from_code(A)]);
    let mut out = Vec::new();
    let first = withholdable(K1, 0, 1);
    let second = Event::new(K2, 0, 5);
    dispatcher.map_event(first, TriggerResponse::Matches, &mut out);
    dispatcher.map_event(second, TriggerResponse::Unrelated, &mut out);
    assert_eq!(out, vec![first, second]);
    assert_eq!(dispatcher.activating_event(), None);
}

#[test]
fn without_send_keys_only_the_event_leaves() {
    let mut dispatcher = EventDispatcher::from_send_keys(Vec::new());
    let mut out = Vec::new();
    dispatcher.map_event(Event::new(K1, 0, 1), TriggerResponse::Activates, &mut out);
    dispatcher.map_event(Event::new(K1, 0, 0), TriggerResponse::Releases, &mut out);
    assert_eq!(out, vec![Event::new(K1, 0, 1), Event::new(K1, 0, 0)]);
}

#[test]
fn send_key_with_a_domain_moves_the_event_there() {
    let mut dispatcher =
        EventDispatcher::from_send_keys(vec![Key::new(Some(A), Some(2), None)]);
    let mut out = Vec::new();
    dispatcher.map_event(Event::new(K1, 7, 1), TriggerResponse::Activates, &mut out);
    assert_eq!(out, vec![Event::new(K1, 7, 1), Event::new(A, 2, 1)]);
    assert!(!out[1].flags.get(EventFlag::Withholdable));
}

#[test]
fn latest_activation_is_the_one_on_record() {
    let mut dispatcher = EventDispatcher::from_send_keys(vec![Key::from_code(A)]);
    let mut out = Vec::new();
    dispatcher.map_event(Event::new(K1, 1, 1), TriggerResponse::Activates, &mut out);
    dispatcher.map_event(Event::new(K1, 1, 0), TriggerResponse::Releases, &mut out);
    dispatcher.map_event(Event::new(K2, 2, 1), TriggerResponse::Activates, &mut out);
    out.clear();
    dispatcher.map_event(Event::new(K1, 3, 0), TriggerResponse::Releases, &mut out);
    assert_eq!(out, vec![Event::new(A, 2, 0), Event::new(K1, 3, 0)]);
}

#[test]
fn additional_caps_come_only_from_matching_caps() {
    let trigger = Trigger::new(vec![Key::from_code(K1), Key::from_code(K2)], None, false);
    let dispatcher = EventDispatcher::from_send_keys(vec![Key::from_code(A), Key::from_code(B)]);
    let caps = [
        Capability::new(AXIS, 3, Range::new(Some(-100), Some(100))),
        Capability::new(K2, 4, Range::new(Some(0), Some(2))),
    ];
    let mut out = vec![Capability::new(AXIS, 0, binary())];
    dispatcher.generate_additional_caps(&trigger, &caps, &mut out);
    assert_eq!(
        out,
        vec![
            Capability::new(AXIS, 0, binary()),
            Capability::new(A, 4, binary()),
            Capability::new(B, 4, binary()),
        ]
    );
}

#[test]
fn no_matching_cap_no_additional_caps() {
    let trigger = Trigger::new(vec![Key::from_code(K1)], None, false);
    let dispatcher = EventDispatcher::from_send_keys(vec![Key::from_code(A)]);
    let caps = [Capability::new(K2, 0, binary()), Capability::new(AXIS, 0, binary())];
    let mut out = Vec::new();
    dispatcher.generate_additional_caps(&trigger, &caps, &mut out);
    assert!(out.is_empty());
}

#[test]
fn trigger_without_keys_adds_no_caps() {
    let trigger = Trigger::new(Vec::new(), None, false);
    let dispatcher = EventDispatcher::from_send_keys(vec![Key::from_code(A)]);
    let mut out = Vec::new();
    dispatcher.generate_additional_caps(&trigger, &[Capability::new(K1, 0, binary())], &mut out);
    assert!(out.is_empty());
}

#[test]
fn additional_caps_are_not_repeated() {
    let trigger = Trigger::new(vec![Key::from_code(K1), Key::from_code(K2)], None, false);
    let dispatcher = EventDispatcher::from_send_keys(vec![
        Key::from_code(A),
        Key::new(Some(B), Some(9), None),
        Key::from_code(A),
    ]);
    let caps = [
        Capability::new(K1, 4, Range::new(Some(0), Some(2))),
        Capability::new(K2, 4, Range::new(Some(0), Some(1))),
        Capability::new(K1, 5, Range::new(None, None)),
    ];
    let mut out = Vec::new();
    dispatcher.generate_additional_caps(&trigger, &caps, &mut out);
    assert_eq!(
        out,
        vec![
            Capability::new(A, 4, binary()),
            Capability::new(B, 9, binary()),
            Capability::new(A, 5, binary()),
        ]
    );
}

#[test]
fn additional_caps_are_binary_whatever_the_input_range() {
    let trigger = Trigger::new(vec![Key::new(None, None, None)], None, false);
    let dispatcher = EventDispatcher::from_send_keys(vec![Key::from_code(A)]);
    let caps = [Capability::new(AXIS, 1, Range::new(Some(-32768), Some(32767)))];
    let mut out = Vec::new();
    dispatcher.generate_additional_caps(&trigger, &caps, &mut out);
    assert_eq!(out.len(), 1);
    assert_eq!(out[0].value_range, binary());
    assert_eq!(out[0].code, A);
}

#[test]
fn dispatcher_clone_forgets_the_activation() {
    let mut dispatcher = EventDispatcher::from_send_keys(vec![Key::from_code(A), Key::from_code(B)]);
    let mut out = Vec::new();
    dispatcher.map_event(Event::new(K1, 1, 1), TriggerResponse::Activates, &mut out);
    let mut fresh = dispatcher.clone_empty();
    assert_eq!(fresh.activating_event(), None);
    out.clear();
    fresh.map_event(Event::new(K2, 2, 1), TriggerResponse::Activates, &mut out);
    assert_eq!(out, vec![Event::new(K2, 2, 1), Event::new(A, 2, 1), Event::new(B, 2, 1)]);
    assert_eq!(dispatcher.activating_event(), Some(Event::new(K1, 1, 1)));
}
