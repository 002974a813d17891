use vstd::prelude::*;

verus! {

/// A closed interval of event values. A missing bound leaves that side open.
#[derive(Clone, Copy, Debug, PartialEq, Eq)]
pub struct Range {
    pub min: Option<i32>,
    pub max: Option<i32>,
}

impl Range {
    /// The least value that could lie in the interval.
    pub open spec fn lower(self) -> int {
        match self.min {
            Some(min) => min as int,
            None => i32::MIN as int,
        }
    }

    /// The greatest value that could lie in the interval.
    pub open spec fn upper(self) -> int {
        match self.max {
            Some(max) => max as int,
            None => i32::MAX as int,
        }
    }

    /// Whether `value` lies in the interval.
    pub open spec fn spec_contains(self, value: i32) -> bool {
        self.lower() <= value <= self.upper()
    }

    /// Whether every value of this interval also lies in `outer`.
    pub open spec fn spec_is_within(self, outer: Range) -> bool {
        outer.lower() <= self.lower() && self.upper() <= outer.upper()
    }

    /// Whether some value lies in both intervals.
    pub open spec fn spec_overlaps(self, other: Range) -> bool {
        self.lower() <= other.upper() && other.lower() <= self.upper() && self.lower()
            <= self.upper() && other.lower() <= other.upper()
    }

    pub fn new(min: Option<i32>, max: Option<i32>) -> (range: Range)
        ensures
            range == (Range { min, max }),
    {
        Range { min, max }
    }

    fn lower_bound(&self) -> (bound: i32)
        ensures
            bound == self.lower(),
    {
        match self.min {
            Some(min) => min,
            None => i32::MIN,
        }
    }

    fn upper_bound(&self) -> (bound: i32)
        ensures
            bound == self.upper(),
    {
        match self.max {
            Some(max) => max,
            None => i32::MAX,
        }
    }

    pub fn contains(&self, value: i32) -> (inside: bool)
        ensures
            inside == self.spec_contains(value),
    {
        self.lower_bound() <= value && value <= self.upper_bound()
    }

    pub fn is_within(&self, outer: &Range) -> (within: bool)
        ensures
            within == self.spec_is_within(*outer),
    {
        outer.lower_bound() <= self.lower_bound() && self.upper_bound() <= outer.upper_bound()
    }

    pub fn overlaps(&self, other: &Range) -> (overlap: bool)
        ensures
            overlap == self.spec_overlaps(*other),
    {
        self.lower_bound() <= other.upper_bound() && other.lower_bound() <= self.upper_bound()
            && self.lower_bound() <= self.upper_bound() && other.lower_bound()
            <= other.upper_bound()
    }

    /// Whether both ranges have the same bounds.
    pub fn same_as(&self, other: &Range) -> (same: bool)
        ensures
            same == (*self == *other),
    {
        let same_min = match (self.min, other.min) {
            (Some(a), Some(b)) => a == b,
            (None, None) => true,
            _ => false,
        };
        let same_max = match (self.max, other.max) {
            (Some(a), Some(b)) => a == b,
            (None, None) => true,
            _ => false,
        };
        same_min && same_max
    }
}

/// A value lies in both of two intervals exactly when they overlap somewhere.
pub proof fn law_overlap_is_a_shared_value(a: Range, b: Range)
    ensures
        a.spec_overlaps(b) <==> exists|value: i32| a.spec_contains(value) && b.spec_contains(value),
{
    if a.spec_overlaps(b) {
        let low = if a.lower() >= b.lower() { a.lower() } else { b.lower() };
        let witness = low as i32;
        assert(a.spec_contains(witness) && b.spec_contains(witness));
    }
}

/// An interval lies within another exactly when the other holds each of its values.
pub proof fn law_within_is_inclusion(inner: Range, outer: Range)
    requires
        inner.lower() <= inner.upper(),
    ensures
        inner.spec_is_within(outer) <==> forall|value: i32|
            inner.spec_contains(value) ==> outer.spec_contains(value),
{
    if !inner.spec_is_within(outer) {
        if outer.lower() > inner.lower() {
            let witness = inner.lower() as i32;
            assert(inner.spec_contains(witness) && !outer.spec_contains(witness));
        } else {
            let witness = inner.upper() as i32;
            assert(inner.spec_contains(witness) && !outer.spec_contains(witness));
        }
    }
}

} // verus!
