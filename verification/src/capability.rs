use vstd::prelude::*;
use crate::event::{Domain, EventCode};
use crate::range::Range;

verus! {

/// How sure a key is that it matches the events a capability stands for.
#[derive(Clone, Copy, Debug, PartialEq, Eq, Structural)]
pub enum CapMatch {
    /// Every such event matches.
    Yes,
    /// Some such events may match.
    Maybe,
    /// No such event matches.
    No,
}

impl CapMatch {
    /// The place in the order `No < Maybe < Yes`.
    pub open spec fn rank(self) -> int {
        match self {
            CapMatch::Yes => 2,
            CapMatch::Maybe => 1,
            CapMatch::No => 0,
        }
    }

    /// The more certain of two answers.
    pub open spec fn spec_stronger(self, other: CapMatch) -> CapMatch {
        if self.rank() >= other.rank() {
            self
        } else {
            other
        }
    }

    /// The less certain of two answers.
    pub open spec fn spec_weaker(self, other: CapMatch) -> CapMatch {
        if self.rank() <= other.rank() {
            self
        } else {
            other
        }
    }

    /// Whether the answer leaves room for a match.
    pub open spec fn spec_is_possible(self) -> bool {
        self != CapMatch::No
    }

    pub fn stronger(self, other: CapMatch) -> (best: CapMatch)
        ensures
            best == self.spec_stronger(other),
    {
        match (self, other) {
            (CapMatch::Yes, _) => CapMatch::Yes,
            (CapMatch::Maybe, CapMatch::Yes) => CapMatch::Yes,
            (CapMatch::Maybe, _) => CapMatch::Maybe,
            (CapMatch::No, _) => other,
        }
    }

    pub fn weaker(self, other: CapMatch) -> (least: CapMatch)
        ensures
            least == self.spec_weaker(other),
    {
        match (self, other) {
            (CapMatch::No, _) => CapMatch::No,
            (CapMatch::Maybe, CapMatch::No) => CapMatch::No,
            (CapMatch::Maybe, _) => CapMatch::Maybe,
            (CapMatch::Yes, _) => other,
        }
    }

    pub fn is_possible(self) -> (possible: bool)
        ensures
            possible == self.spec_is_possible(),
    {
        match self {
            CapMatch::Yes | CapMatch::Maybe => true,
            CapMatch::No => false,
        }
    }
}

/// What a device says it can produce: an input and the values it can take.
#[derive(Clone, Copy, Debug, PartialEq, Eq)]
pub struct Capability {
    pub code: EventCode,
    pub domain: Domain,
    pub value_range: Range,
}

impl Capability {
    /// This capability with `value_range` in place of its own.
    pub open spec fn with_range(self, value_range: Range) -> Capability {
        Capability { value_range, ..self }
    }

    pub fn new(code: EventCode, domain: Domain, value_range: Range) -> (cap: Capability)
        ensures
            cap == (Capability { code, domain, value_range }),
    {
        Capability { code, domain, value_range }
    }

    /// Whether both capabilities describe the same input with the same values.
    pub fn same_as(&self, other: &Capability) -> (same: bool)
        ensures
            same == (*self == *other),
    {
        self.code == other.code && self.domain == other.domain && self.value_range.same_as(
            &other.value_range,
        )
    }
}

} // verus!
