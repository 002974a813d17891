use vstd::prelude::*;

verus! {

/// The identity of an input: the event type and the code within that type.
#[derive(Clone, Copy, Debug, PartialEq, Eq, Structural)]
pub struct EventCode {
    pub ev_type: u16,
    pub code: u16,
}

/// Names the device group an event travels in.
pub type Domain = u32;

/// Where an event comes from and what it reports; routing decisions are made per channel.
#[derive(Clone, Copy, Debug, PartialEq, Eq, Structural)]
pub struct Channel {
    pub code: EventCode,
    pub domain: Domain,
}

/// The markers an event can carry.
#[derive(Clone, Copy, Debug, PartialEq, Eq, Structural)]
pub enum EventFlag {
    /// The event is tied to a hook that has not resolved yet and may be held back.
    Withholdable,
}

/// The set of markers on one event.
#[derive(Clone, Copy, Debug, PartialEq, Eq, Structural)]
pub struct EventFlagSet {
    pub withholdable: bool,
}

impl EventFlagSet {
    pub open spec fn spec_get(self, flag: EventFlag) -> bool {
        match flag {
            EventFlag::Withholdable => self.withholdable,
        }
    }

    pub open spec fn spec_set(self, flag: EventFlag) -> EventFlagSet {
        match flag {
            EventFlag::Withholdable => EventFlagSet { withholdable: true },
        }
    }

    pub open spec fn spec_unset(self, flag: EventFlag) -> EventFlagSet {
        match flag {
            EventFlag::Withholdable => EventFlagSet { withholdable: false },
        }
    }

    pub fn empty() -> (flags: EventFlagSet)
        ensures
            flags == (EventFlagSet { withholdable: false }),
    {
        EventFlagSet { withholdable: false }
    }

    pub fn get(&self, flag: EventFlag) -> (present: bool)
        ensures
            present == self.spec_get(flag),
    {
        match flag {
            EventFlag::Withholdable => self.withholdable,
        }
    }

    pub fn set(&mut self, flag: EventFlag)
        ensures
            *final(self) == old(self).spec_set(flag),
    {
        match flag {
            EventFlag::Withholdable => {
                self.withholdable = true;
            },
        }
    }

    pub fn unset(&mut self, flag: EventFlag)
        ensures
            *final(self) == old(self).spec_unset(flag),
    {
        match flag {
            EventFlag::Withholdable => {
                self.withholdable = false;
            },
        }
    }
}

/// One input event: which input, in which domain, its new value, and its markers.
#[derive(Clone, Copy, Debug, PartialEq, Eq, Structural)]
pub struct Event {
    pub code: EventCode,
    pub domain: Domain,
    pub value: i32,
    pub flags: EventFlagSet,
}

impl Event {
    pub open spec fn spec_channel(self) -> Channel {
        Channel { code: self.code, domain: self.domain }
    }

    /// This event with `value` in place of its own.
    pub open spec fn with_value(self, value: i32) -> Event {
        Event { value, ..self }
    }

    /// This event with `flag` raised.
    pub open spec fn flagged(self, flag: EventFlag) -> Event {
        Event { flags: self.flags.spec_set(flag), ..self }
    }

    /// This event with `flag` cleared.
    pub open spec fn unflagged(self, flag: EventFlag) -> Event {
        Event { flags: self.flags.spec_unset(flag), ..self }
    }

    /// An event without markers.
    pub fn new(code: EventCode, domain: Domain, value: i32) -> (event: Event)
        ensures
            event == (Event { code, domain, value, flags: EventFlagSet { withholdable: false } }),
    {
        Event { code, domain, value, flags: EventFlagSet::empty() }
    }

    pub fn channel(&self) -> (channel: Channel)
        ensures
            channel == self.spec_channel(),
    {
        Channel { code: self.code, domain: self.domain }
    }
}

} // verus!
