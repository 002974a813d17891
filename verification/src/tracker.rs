use vstd::prelude::*;
use crate::event::{Channel, Event};
use crate::key::Key;
use crate::loopback::Token;
use crate::range::Range;

verus! {

/// Until when an active tracker stays valid.
#[derive(Clone, Copy, Debug, PartialEq, Eq, Structural)]
pub enum ExpirationTime {
    /// The tracker does not expire.
    Never,
    /// The tracker expires when the wakeup with this token arrives.
    Until(Token),
}

#[derive(Clone, Copy, Debug, PartialEq, Eq, Structural)]
pub enum TrackerState {
    /// The tracked input is held within the activating range.
    Active(ExpirationTime),
    /// The tracked input is not held.
    Inactive,
    /// The input is held, but does not count: its time ran out, or it was pressed out of
    /// turn. The tracker has to become inactive before it can become active again.
    Invalid,
}

impl TrackerState {
    pub open spec fn spec_is_active(self) -> bool {
        self is Active
    }

    pub fn is_active(&self) -> (active: bool)
        ensures
            active == self.spec_is_active(),
    {
        match self {
            TrackerState::Active(_) => true,
            TrackerState::Inactive | TrackerState::Invalid => false,
        }
    }
}

/// Follows one input and tells whether it is held within its activating range.
#[derive(Debug)]
pub struct Tracker {
    pub key: Key,
    pub range: Range,
    pub state: TrackerState,
}

/// The values that activate a tracker whose key names none: one and above.
pub open spec fn default_range() -> Range {
    Range { min: Some(1i32), max: None }
}

impl Tracker {
    /// The tracker that `new` makes of `key`.
    pub open spec fn spec_new(key: Key) -> Tracker {
        Tracker {
            key: Key { value: None, ..key },
            range: match key.value {
                Some(range) => range,
                None => default_range(),
            },
            state: TrackerState::Inactive,
        }
    }

    pub open spec fn spec_matches(self, event: Event) -> bool {
        self.key.spec_matches(event)
    }

    pub open spec fn spec_matches_channel(self, channel: Channel) -> bool {
        self.key.spec_matches_channel(channel)
    }

    pub open spec fn spec_activates_by(self, event: Event) -> bool {
        self.range.spec_contains(event.value)
    }

    pub open spec fn spec_is_active(self) -> bool {
        self.state.spec_is_active()
    }

    /// This tracker in another state.
    pub open spec fn with_state(self, state: TrackerState) -> Tracker {
        Tracker { state, ..self }
    }

    pub open spec fn spec_clone_empty(self) -> Tracker {
        self.with_state(TrackerState::Inactive)
    }

    /// An inactive tracker for the input that `key` names. The values that `key` accepts
    /// become the activating range; events of any value then reach the tracker.
    pub fn new(key: Key) -> (tracker: Tracker)
        ensures
            tracker == Tracker::spec_new(key),
    {
        let mut key = key;
        let range = match key.pop_value() {
            Some(range) => range,
            None => Range::new(Some(1), None),
        };
        Tracker { key, range, state: TrackerState::Inactive }
    }

    /// Whether `event` concerns the tracked input.
    pub fn matches(&self, event: &Event) -> (matched: bool)
        ensures
            matched == self.spec_matches(*event),
    {
        self.key.matches(event)
    }

    /// Whether an event on `channel` could concern the tracked input.
    pub fn matches_channel(&self, channel: Channel) -> (matched: bool)
        ensures
            matched == self.spec_matches_channel(channel),
    {
        self.key.matches_channel(channel)
    }

    /// Whether `event` holds the input within the activating range. This is meant for events
    /// that match.
    pub fn activates_by(&self, event: Event) -> (activates: bool)
        ensures
            activates == self.spec_activates_by(event),
    {
        self.range.contains(event.value)
    }

    pub fn is_active(&self) -> (active: bool)
        ensures
            active == self.spec_is_active(),
    {
        match self.state {
            TrackerState::Active(_) => true,
            TrackerState::Invalid | TrackerState::Inactive => false,
        }
    }

    /// A tracker for the same input and range that starts out inactive.
    pub fn clone_empty(&self) -> (fresh: Tracker)
        ensures
            fresh == self.spec_clone_empty(),
            fresh.key == self.key,
            fresh.range == self.range,
            fresh.state == TrackerState::Inactive,
    {
        Tracker { key: self.key, range: self.range, state: TrackerState::Inactive }
    }
}

} // verus!
