//! Closed intervals of indices, and the comparison under which two intervals
//! that share an index count as equal.

use std::cmp::Ordering;
use vstd::prelude::*;

verus! {

/// A closed interval `[min, max]` of indices. It is empty when `min > max`.
#[derive(Copy, Clone, Debug)]
pub struct Range {
    pub min: usize,
    pub max: usize,
}

impl Range {
    /// `v` lies in the interval.
    pub open spec fn covers(self, v: int) -> bool {
        self.min <= v <= self.max
    }

    /// The interval holds no index.
    pub open spec fn is_empty(self) -> bool {
        self.min > self.max
    }

    /// The indices of the interval, as a set.
    pub open spec fn index_set(self) -> Set<int> {
        Set::new(|v: int| self.covers(v))
    }

    /// One of the two intervals holds an endpoint of the other: for non-empty
    /// intervals, they share an index.
    pub open spec fn overlaps(self, other: Range) -> bool {
        self.covers(other.min as int) || self.covers(other.max as int) || other.covers(
            self.min as int,
        ) || other.covers(self.max as int)
    }

    /// The comparison of two intervals: equal when they overlap, else by
    /// their lower ends.
    pub open spec fn order(self, other: Range) -> Ordering {
        if self.overlaps(other) || self.min == other.min {
            Ordering::Equal
        } else if self.min < other.min {
            Ordering::Less
        } else {
            Ordering::Greater
        }
    }

    /// The smallest interval that holds both.
    pub open spec fn hull(self, other: Range) -> Range {
        Range {
            min: if self.min <= other.min { self.min } else { other.min },
            max: if self.max >= other.max { self.max } else { other.max },
        }
    }

    /// The interval that holds `id` alone.
    #[inline]
    pub fn id(id: usize) -> (r: Range)
        ensures
            r == (Range { min: id, max: id }),
    {
        Range { min: id, max: id }
    }

    /// Whether the interval holds no index.
    #[inline]
    pub fn empty(self) -> (r: bool)
        ensures
            r == self.is_empty(),
    {
        self.min > self.max
    }

    /// The interval with its lower end moved down by one.
    #[inline]
    pub fn push_front(self) -> (r: Range)
        requires
            self.min > 0,
        ensures
            r == (Range { min: (self.min - 1) as usize, max: self.max }),
    {
        Range { min: self.min - 1, max: self.max }
    }

    /// The interval with its upper end moved up by one.
    #[inline]
    pub fn push_back(self) -> (r: Range)
        requires
            self.max < usize::MAX,
        ensures
            r == (Range { min: self.min, max: (self.max + 1) as usize }),
    {
        Range { min: self.min, max: self.max + 1 }
    }

    /// The interval without its lowest index.
    #[inline]
    pub fn pop_front(self) -> (r: Range)
        requires
            self.min < usize::MAX,
        ensures
            r == (Range { min: (self.min + 1) as usize, max: self.max }),
    {
        Range { min: self.min + 1, max: self.max }
    }

    /// The interval without its highest index.
    #[inline]
    pub fn pop_back(self) -> (r: Range)
        requires
            self.max > 0,
        ensures
            r == (Range { min: self.min, max: (self.max - 1) as usize }),
    {
        Range { min: self.min, max: self.max - 1 }
    }

    /// The smallest interval that holds both `self` and `other`.
    #[inline]
    pub fn merge(self, other: Range) -> (r: Range)
        ensures
            r == self.hull(other),
    {
        Range {
            min: if self.min <= other.min { self.min } else { other.min },
            max: if self.max >= other.max { self.max } else { other.max },
        }
    }

    /// Whether `value` lies in the interval.
    #[inline]
    pub fn contains(&self, value: usize) -> (r: bool)
        ensures
            r == self.covers(value as int),
    {
        value >= self.min && value <= self.max
    }

    /// Cuts `middle` out of the interval: what lies below it and what lies
    /// above it. A side with nothing left is an empty interval.
    #[inline]
    pub fn split(self, middle: usize) -> (r: (Range, Range))
        requires
            self.covers(middle as int),
        ensures
            r.0 == (if middle == 0 {
                Range { min: 1, max: 0 }
            } else {
                Range { min: self.min, max: (middle - 1) as usize }
            }),
            r.1 == (if middle == usize::MAX {
                Range { min: 1, max: 0 }
            } else {
                Range { min: (middle + 1) as usize, max: self.max }
            }),
            forall|v: int| self.covers(v) && v != middle <==> r.0.covers(v) || r.1.covers(v),
    {
        let left = if middle == 0 {
            Range { min: 1, max: 0 }
        } else {
            Range { min: self.min, max: middle - 1 }
        };
        let right = if middle == usize::MAX {
            Range { min: 1, max: 0 }
        } else {
            Range { min: middle + 1, max: self.max }
        };
        (left, right)
    }
}

impl Range {
    /// Compares two intervals: equal when they overlap, else by their lower
    /// ends. Among pairwise disjoint intervals this is a total order, and a
    /// one-index interval is equal to the interval that holds the index.
    #[inline]
    pub fn cmp(&self, other: &Range) -> (r: Ordering)
        ensures
            r == self.order(*other),
    {
        if self.contains(other.min) || self.contains(other.max) || other.contains(self.min)
            || other.contains(self.max) {
            return Ordering::Equal;
        }
        if self.min < other.min {
            Ordering::Less
        } else if self.min > other.min {
            Ordering::Greater
        } else {
            Ordering::Equal
        }
    }
}

impl PartialEq for Range {
    #[inline]
    fn eq(&self, other: &Self) -> (r: bool) {
        match self.cmp(other) {
            Ordering::Equal => true,
            _ => false,
        }
    }
}

impl vstd::std_specs::cmp::PartialEqSpecImpl for Range {
    open spec fn obeys_eq_spec() -> bool {
        true
    }

    open spec fn eq_spec(&self, other: &Self) -> bool {
        self.order(*other) == Ordering::Equal
    }
}

impl Eq for Range {

}

impl PartialOrd for Range {
    #[inline]
    fn partial_cmp(&self, other: &Self) -> (r: Option<Ordering>) {
        Some(self.cmp(other))
    }
}

impl vstd::std_specs::cmp::PartialOrdSpecImpl for Range {
    open spec fn obeys_partial_cmp_spec() -> bool {
        true
    }

    open spec fn partial_cmp_spec(&self, other: &Self) -> Option<Ordering> {
        Some(self.order(*other))
    }
}

} // verus!
