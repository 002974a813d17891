use vstd::prelude::*;
use crate::capability::{CapMatch, Capability};
use crate::event::{Channel, Domain, Event, EventCode};
use crate::range::Range;

verus! {

/// Picks out the events of one input. A part that is left out matches anything.
#[derive(Clone, Copy, Debug, PartialEq, Eq)]
pub struct Key {
    /// The input that an event must report.
    pub code: Option<EventCode>,
    /// The domain that an event must travel in.
    pub domain: Option<Domain>,
    /// The values that an event may have.
    pub value: Option<Range>,
}

impl Key {
    pub open spec fn spec_matches_channel(self, channel: Channel) -> bool {
        &&& (self.code matches Some(code) ==> code == channel.code)
        &&& (self.domain matches Some(domain) ==> domain == channel.domain)
    }

    pub open spec fn spec_matches(self, event: Event) -> bool {
        &&& self.spec_matches_channel(event.spec_channel())
        &&& (self.value matches Some(range) ==> range.spec_contains(event.value))
    }

    /// `event`, addressed to the input and domain that this key names.
    pub open spec fn spec_merge(self, event: Event) -> Event {
        Event {
            code: match self.code {
                Some(code) => code,
                None => event.code,
            },
            domain: match self.domain {
                Some(domain) => domain,
                None => event.domain,
            },
            ..event
        }
    }

    /// How the named input compares with the one `cap` stands for.
    pub open spec fn code_match(self, cap: Capability) -> CapMatch {
        match self.code {
            Some(code) => if code == cap.code {
                CapMatch::Yes
            } else {
                CapMatch::No
            },
            None => CapMatch::Yes,
        }
    }

    /// How the named domain compares with the one `cap` lives in.
    pub open spec fn domain_match(self, cap: Capability) -> CapMatch {
        match self.domain {
            Some(domain) => if domain == cap.domain {
                CapMatch::Yes
            } else {
                CapMatch::No
            },
            None => CapMatch::Yes,
        }
    }

    /// How the accepted values compare with those `cap` can take.
    pub open spec fn value_match(self, cap: Capability) -> CapMatch {
        match self.value {
            Some(range) => if cap.value_range.spec_is_within(range) {
                CapMatch::Yes
            } else if cap.value_range.spec_overlaps(range) {
                CapMatch::Maybe
            } else {
                CapMatch::No
            },
            None => CapMatch::Yes,
        }
    }

    /// The least certain answer among the parts of the key.
    pub open spec fn spec_matches_cap(self, cap: Capability) -> CapMatch {
        self.code_match(cap).spec_weaker(self.domain_match(cap)).spec_weaker(self.value_match(cap))
    }

    /// `cap`, addressed to the input and domain that this key names.
    pub open spec fn spec_merge_cap(self, cap: Capability) -> Capability {
        Capability {
            code: match self.code {
                Some(code) => code,
                None => cap.code,
            },
            domain: match self.domain {
                Some(domain) => domain,
                None => cap.domain,
            },
            ..cap
        }
    }

    pub fn new(code: Option<EventCode>, domain: Option<Domain>, value: Option<Range>) -> (key: Key)
        ensures
            key == (Key { code, domain, value }),
    {
        Key { code, domain, value }
    }

    /// The key for one input in any domain, with any value.
    pub fn from_code(code: EventCode) -> (key: Key)
        ensures
            key == (Key { code: Some(code), domain: None, value: None }),
    {
        Key { code: Some(code), domain: None, value: None }
    }

    /// Whether an event on `channel` could match, whatever its value.
    pub fn matches_channel(&self, channel: Channel) -> (matched: bool)
        ensures
            matched == self.spec_matches_channel(channel),
    {
        let code_fits = match self.code {
            Some(code) => code == channel.code,
            None => true,
        };
        let domain_fits = match self.domain {
            Some(domain) => domain == channel.domain,
            None => true,
        };
        code_fits && domain_fits
    }

    pub fn matches(&self, event: &Event) -> (matched: bool)
        ensures
            matched == self.spec_matches(*event),
    {
        let value_fits = match self.value {
            Some(range) => range.contains(event.value),
            None => true,
        };
        self.matches_channel(event.channel()) && value_fits
    }

    pub fn merge(&self, event: Event) -> (merged: Event)
        ensures
            merged == self.spec_merge(event),
    {
        let code = match self.code {
            Some(code) => code,
            None => event.code,
        };
        let domain = match self.domain {
            Some(domain) => domain,
            None => event.domain,
        };
        Event { code, domain, value: event.value, flags: event.flags }
    }

    pub fn matches_cap(&self, cap: &Capability) -> (answer: CapMatch)
        ensures
            answer == self.spec_matches_cap(*cap),
    {
        let code_match = match self.code {
            Some(code) => if code == cap.code {
                CapMatch::Yes
            } else {
                CapMatch::No
            },
            None => CapMatch::Yes,
        };
        let domain_match = match self.domain {
            Some(domain) => if domain == cap.domain {
                CapMatch::Yes
            } else {
                CapMatch::No
            },
            None => CapMatch::Yes,
        };
        let value_match = match self.value {
            Some(range) => if cap.value_range.is_within(&range) {
                CapMatch::Yes
            } else if cap.value_range.overlaps(&range) {
                CapMatch::Maybe
            } else {
                CapMatch::No
            },
            None => CapMatch::Yes,
        };
        code_match.weaker(domain_match).weaker(value_match)
    }

    pub fn merge_cap(&self, cap: Capability) -> (merged: Capability)
        ensures
            merged == self.spec_merge_cap(cap),
    {
        let code = match self.code {
            Some(code) => code,
            None => cap.code,
        };
        let domain = match self.domain {
            Some(domain) => domain,
            None => cap.domain,
        };
        Capability { code, domain, value_range: cap.value_range }
    }

    /// Takes the accepted values out of the key, which then accepts any value.
    pub fn pop_value(&mut self) -> (value: Option<Range>)
        ensures
            value == old(self).value,
            *final(self) == (Key { value: None, ..*old(self) }),
    {
        let value = self.value;
        self.value = None;
        value
    }
}

} // verus!
