use input_hooks::capability::Capability;
use input_hooks::dispatcher::EventDispatcher;
use input_hooks::effect::{Command, Effect};
use input_hooks::event::{Event, EventCode, EventFlagSet};
use input_hooks::hook::Hook;
use input_hooks::key::Key;
use input_hooks::loopback::{Duration, LoopbackHandle, Token, Wakeup};
use input_hooks::range::Range;
use input_hooks::tracker::{ExpirationTime, TrackerState};
use input_hooks::trigger::Trigger;

const K1: EventCode = EventCode { ev_type: 1, code: 30 };
const K2: EventCode = EventCode { ev_type: 1, code: 48 };
const A: EventCode = EventCode { ev_type: 1, code: 100 };
const B: EventCode = EventCode { ev_type: 1, code: 101 };
const OTHER: EventCode = EventCode { ev_type: 1, code: 57 };

/// Writes down that it ran, or which command it was asked to launch.
#[derive(Clone, Debug, PartialEq)]
enum Note {
    Ran(u32),
    Launch(String, Vec<String>),
}

impl Effect<Vec<Note>> for Note {
    fn outcome(&self, before: Vec<Note>) -> Vec<Note> {
        let mut after = before;
        after.push(self.clone());
        after
    }

    fn apply(&self, state: &mut Vec<Note>) {
        state.push(self.clone());
    }
}

impl From<Command> for Note {
    fn from(command: Command) -> Note {
        Note::Launch(command.program, command.args)
    }
}

fn marked(code: EventCode, value: i32) -> Event {
    Event { code, domain: 0, value, flags: EventFlagSet { withholdable: true } }
}

fn plain(code: EventCode, value: i32) -> Event {
    Event::new(code, 0, value)
}

fn hook_of(
    keys: &[EventCode],
    send_keys: &[EventCode],
    period: Option<Duration>,
    sequential: bool,
    mark_withholdable: bool,
) -> Hook<Note> {
    Hook::new(
        Trigger::new(keys.iter().map(|code| Key::from_code(*code)).collect(), period, sequential),
        EventDispatcher::from_send_keys(send_keys.iter().map(|code| Key::from_code(*code)).collect()),
        mark_withholdable,
    )
}

#[test]
fn new_hook_has_no_effects() {
    let hook = hook_of(&[K1], &[A], None, false, false);
    assert!(hook.effects().is_empty());
    assert!(hook.release_effects().is_empty());
    assert_eq!(hook.trigger().keys(), vec![Key::from_code(K1)]);
    assert_eq!(hook.event_dispatcher().activating_event(), None);
}

#[test]
fn batch_output_is_each_events_output_in_order() {
    let mut hook = hook_of(&[K1, K2], &[A, B], None, false, false);
    let mut out = vec![plain(OTHER, 9)];
    let mut state = Vec::new();
    let mut timer = LoopbackHandle::new();
    let events = [plain(K1, 1), plain(OTHER, 1), plain(K2, 1), plain(K2, 2), plain(K1, 0), plain(K2, 0)];
    hook.apply_to_all(&events, &mut out, &mut state, &mut timer);
    assert_eq!(
        out,
        vec![
            plain(OTHER, 9),
            plain(K1, 1),
            plain(OTHER, 1),
            plain(K2, 1),
            plain(A, 1),
            plain(B, 1),
            plain(K2, 2),
            plain(B, 0),
            plain(A, 0),
            plain(K1, 0),
            plain(K2, 0),
        ]
    );
    assert!(state.is_empty());
    assert!(timer.take_scheduled().is_empty());
}

#[test]
fn empty_batch_does_nothing() {
    let mut hook = hook_of(&[K1], &[A], None, false, true);
    hook.add_effect(Note::Ran(1));
    let mut out = Vec::new();
    let mut state = Vec::new();
    let mut timer = LoopbackHandle::new();
    hook.apply_to_all(&[], &mut out, &mut state, &mut timer);
    assert!(out.is_empty());
    assert!(state.is_empty());
    assert!(!hook.trigger().is_active());
}

#[test]
fn withholding_hook_marks_what_concerns_it() {
    let mut hook = hook_of(&[K1, K2], &[A], None, false, true);
    let mut out = Vec::new();
    let mut state = Vec::new();
    let mut timer = LoopbackHandle::new();
    let events = [plain(K1, 1), plain(OTHER, 1), plain(K2, 1), plain(K1, 0)];
    hook.apply_to_all(&events, &mut out, &mut state, &mut timer);
    assert_eq!(
        out,
        vec![
            marked(K1, 1),
            plain(OTHER, 1),
            marked(K2, 1),
            plain(A, 1),
            plain(A, 0),
            marked(K1, 0),
        ]
    );
    // The activation on record is the event as it was passed on.
    assert_eq!(hook.event_dispatcher().activating_event(), Some(marked(K2, 1)));
}

#[test]
fn hook_that_does_not_withhold_leaves_the_marks_alone() {
    let mut hook = hook_of(&[K1], &[], None, false, false);
    let mut out = Vec::new();
    let mut state = Vec::new();
    let mut timer = LoopbackHandle::new();
    hook.apply_to_all(&[marked(K1, 1), plain(K1, 0)], &mut out, &mut state, &mut timer);
    assert_eq!(out, vec![marked(K1, 1), plain(K1, 0)]);
}

#[test]
fn effects_run_in_the_order_they_were_added() {
    let mut hook = hook_of(&[K1, K2], &[], None, false, false);
    hook.add_effect(Note::Ran(1));
    hook.add_effect(Note::Ran(2));
    hook.add_release_effect(Note::Ran(10));
    hook.add_effect(Note::Ran(3));
    hook.add_release_effect(Note::Ran(11));
    let mut out = Vec::new();
    let mut state = vec![Note::Ran(0)];
    let mut timer = LoopbackHandle::new();

    hook.apply_to_all(&[plain(K1, 1)], &mut out, &mut state, &mut timer);
    assert_eq!(state, vec![Note::Ran(0)]);
    hook.apply_to_all(&[plain(K2, 1)], &mut out, &mut state, &mut timer);
    assert_eq!(state, vec![Note::Ran(0), Note::Ran(1), Note::Ran(2), Note::Ran(3)]);
    hook.apply_to_all(&[plain(K2, 1), plain(OTHER, 0)], &mut out, &mut state, &mut timer);
    assert_eq!(state.len(), 4);
    hook.apply_to_all(&[plain(K1, 0), plain(K2, 0)], &mut out, &mut state, &mut timer);
    assert_eq!(
        state,
        vec![
            Note::Ran(0),
            Note::Ran(1),
            Note::Ran(2),
            Note::Ran(3),
            Note::Ran(10),
            Note::Ran(11)
        ]
    );
}

#[test]
fn effects_run_once_per_activation_within_a_batch() {
    let mut hook = hook_of(&[K1], &[], None, false, false);
    hook.add_effect(Note::Ran(1));
    hook.add_release_effect(Note::Ran(2));
    let mut out = Vec::new();
    let mut state = Vec::new();
    let mut timer = LoopbackHandle::new();
    let events = [plain(K1, 1), plain(K1, 1), plain(K1, 0), plain(K1, 0), plain(K1, 1)];
    hook.apply_to_all(&events, &mut out, &mut state, &mut timer);
    assert_eq!(state, vec![Note::Ran(1), Note::Ran(2), Note::Ran(1)]);
    assert_eq!(out, events.to_vec());
}

#[test]
fn single_event_goes_the_same_way_as_a_batch_of_one() {
    let mut one = hook_of(&[K1], &[A], None, false, true);
    let mut other = hook_of(&[K1], &[A], None, false, true);
    one.add_effect(Note::Ran(5));
    other.add_effect(Note::Ran(5));
    let (mut out_one, mut out_other) = (Vec::new(), Vec::new());
    let (mut state_one, mut state_other) = (Vec::new(), Vec::new());
    let mut timer = LoopbackHandle::new();
    one.apply(plain(K1, 1), &mut out_one, &mut state_one, &mut timer);
    other.apply_to_all(&[plain(K1, 1)], &mut out_other, &mut state_other, &mut timer);
    assert_eq!(out_one, vec![marked(K1, 1), plain(A, 1)]);
    assert_eq!(out_one, out_other);
    assert_eq!(state_one, vec![Note::Ran(5)]);
    assert_eq!(state_one, state_other);
}

#[test]
fn command_is_added_as_an_effect_of_its_own() {
    let mut hook = hook_of(&[K1], &[], None, false, false);
    hook.add_effect(Note::Ran(1));
    hook.add_command("notify".to_string(), vec!["-u".to_string(), "low".to_string()]);
    hook.add_effect(Note::Ran(2));
    let launch = Note::Launch("notify".to_string(), vec!["-u".to_string(), "low".to_string()]);
    assert_eq!(hook.effects(), &vec![Note::Ran(1), launch.clone(), Note::Ran(2)]);
    assert!(hook.release_effects().is_empty());

    let mut out = Vec::new();
    let mut state = Vec::new();
    let mut timer = LoopbackHandle::new();
    hook.apply_to_all(&[plain(K1, 1), plain(K1, 0)], &mut out, &mut state, &mut timer);
    assert_eq!(state, vec![Note::Ran(1), launch, Note::Ran(2)]);
}

#[test]
fn wakeup_reaches_the_trigger_and_runs_no_effect() {
    let period = Duration::from_millis(500);
    let mut hook = hook_of(&[K1, K2], &[A], Some(period), false, false);
    hook.add_effect(Note::Ran(1));
    hook.add_release_effect(Note::Ran(2));
    let mut out = Vec::new();
    let mut state = Vec::new();
    let mut timer = LoopbackHandle::new();
    hook.apply_to_all(&[plain(K1, 1)], &mut out, &mut state, &mut timer);
    assert_eq!(timer.take_scheduled(), vec![Wakeup { token: Token { id: 0 }, delay: period }]);

    hook.wakeup(&Token { id: 0 });
    assert_eq!(
        hook.trigger().tracker_states(),
        vec![TrackerState::Invalid, TrackerState::Inactive]
    );
    assert!(state.is_empty());

    hook.apply_to_all(&[plain(K2, 1)], &mut out, &mut state, &mut timer);
    assert!(state.is_empty());
    assert_eq!(out, vec![plain(K1, 1), plain(K2, 1)]);
    assert_eq!(
        hook.trigger().tracker_states(),
        vec![
            TrackerState::Invalid,
            TrackerState::Active(ExpirationTime::Until(Token { id: 1 }))
        ]
    );
}

#[test]
fn caps_are_passed_on_and_followed_by_the_additional_ones() {
    let hook = hook_of(&[K1], &[A, B], None, false, false);
    let caps = [
        Capability::new(K2, 1, Range::new(Some(0), Some(2))),
        Capability::new(K1, 1, Range::new(Some(0), Some(2))),
    ];
    let mut out = vec![Capability::new(OTHER, 0, Range::new(None, None))];
    hook.apply_to_all_caps(&caps, &mut out);
    assert_eq!(
        out,
        vec![
            Capability::new(OTHER, 0, Range::new(None, None)),
            caps[0],
            caps[1],
            Capability::new(A, 1, Range::new(Some(0), Some(1))),
            Capability::new(B, 1, Range::new(Some(0), Some(1))),
        ]
    );
}

#[test]
fn hook_clone_keeps_the_setup_and_drops_the_state() {
    let period = Some(Duration::from_millis(5));
    let mut hook = hook_of(&[K1, K2], &[A], period, true, true);
    hook.add_effect(Note::Ran(1));
    hook.add_release_effect(Note::Ran(2));
    let mut out = Vec::new();
    let mut state = Vec::new();
    let mut timer = LoopbackHandle::new();
    hook.apply_to_all(&[plain(K1, 1), plain(K2, 1)], &mut out, &mut state, &mut timer);
    assert!(hook.trigger().is_active());

    let mut fresh = hook.clone_empty();
    assert_eq!(fresh.effects(), &vec![Note::Ran(1)]);
    assert_eq!(fresh.release_effects(), &vec![Note::Ran(2)]);
    assert_eq!(fresh.trigger().keys(), hook.trigger().keys());
    assert_eq!(fresh.trigger().period(), period);
    assert!(fresh.trigger().is_sequential());
    assert!(!fresh.trigger().is_active());
    assert_eq!(
        fresh.trigger().tracker_states(),
        vec![TrackerState::Inactive, TrackerState::Inactive]
    );
    assert_eq!(fresh.event_dispatcher().activating_event(), None);

    out.clear();
    state.clear();
    fresh.apply_to_all(&[plain(K1, 1), plain(K2, 1)], &mut out, &mut state, &mut timer);
    assert_eq!(out, vec![marked(K1, 1), marked(K2, 1), plain(A, 1)]);
    assert_eq!(state, vec![Note::Ran(1)]);
}
