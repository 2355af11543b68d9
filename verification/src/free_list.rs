//! The set of free indices, held as a sorted list of maximal intervals.

use crate::laws::lemma_enclosed_iff_all_free;
use crate::model::{
    lemma_ascending, lemma_bounds, lemma_insert, lemma_remove, lemma_splice, lemma_unique,
    ranges_cover, ranges_enclose, ranges_set, ranges_wf,
};
use crate::range::Range;
use vstd::prelude::*;

verus! {

/// The free indices of a dense index space. Each run of free indices is kept
/// as one interval, as long as it can be: no two stored intervals overlap or
/// touch, and they stand in ascending order.
#[derive(Debug)]
pub struct FreeRanges {
    free_list: Vec<Range>,
}

impl Clone for FreeRanges {
    /// A second set with the same stored intervals.
    fn clone(&self) -> (r: FreeRanges)
        ensures
            r@ == self@,
    {
        FreeRanges { free_list: self.free_ranges() }
    }
}

impl Default for FreeRanges {
    /// A set with no index free.
    fn default() -> (r: FreeRanges)
        ensures
            r.wf(),
            r@ == Seq::<Range>::empty(),
            r.free_set() == Set::<int>::empty(),
    {
        FreeRanges::new()
    }
}

impl FreeRanges {
    /// The stored intervals, in ascending order.
    pub closed spec fn view(&self) -> Seq<Range> {
        self.free_list@
    }

    /// The stored intervals are non-empty, ascending, disjoint and never
    /// adjacent. Every constructor establishes this and every operation keeps
    /// it.
    pub open spec fn wf(&self) -> bool {
        ranges_wf(self@)
    }

    /// The free indices.
    pub open spec fn free_set(&self) -> Set<int> {
        ranges_set(self@)
    }

    /// The lowest free index, if there is one.
    pub open spec fn lowest(&self) -> Option<usize> {
        if self@.len() == 0 {
            None
        } else {
            Some(self@[0].min)
        }
    }

    /// The highest free index, if there is one.
    pub open spec fn highest(&self) -> Option<usize> {
        if self@.len() == 0 {
            None
        } else {
            Some(self@.last().max)
        }
    }

    /// A set with no index free.
    #[inline]
    pub fn new() -> (r: FreeRanges)
        ensures
            r.wf(),
            r@ == Seq::<Range>::empty(),
            r.free_set() == Set::<int>::empty(),
    {
        let r = FreeRanges { free_list: Vec::new() };
        assert(r.free_set() =~= Set::<int>::empty());
        r
    }

    /// A set with every index from 0 to `usize::MAX` free.
    #[inline]
    pub fn with_all_free() -> (r: FreeRanges)
        ensures
            r.wf(),
            r@ == seq![Range { min: 0, max: usize::MAX }],
            forall|v: int| r.free_set().contains(v) <==> 0 <= v <= usize::MAX,
    {
        FreeRanges::with_initial_range(Range { min: 0, max: usize::MAX })
    }

    /// A set in which exactly the indices of `range` are free.
    #[inline]
    pub fn with_initial_range(range: Range) -> (r: FreeRanges)
        requires
            range.min <= range.max,
        ensures
            r.wf(),
            r@ == seq![range],
            r.free_set() == range.index_set(),
    {
        let mut ranges = FreeRanges::new();
        ranges.free_list.push(range);
        proof {
            assert(ranges@ =~= seq![range]);
            assert forall|v: int| ranges_cover(ranges@, v) <==> range.covers(v) by {
                if range.covers(v) {
                    assert(ranges@[0].covers(v));
                }
            }
            assert(ranges.free_set() =~= range.index_set());
        }
        ranges
    }

    /// The number of stored intervals that compare less than the one-index
    /// interval of `v`: those that end below `v`. As the list is ascending,
    /// these are its first ones.
    fn count_ending_before(&self, v: usize) -> (k: usize)
        requires
            self.wf(),
        ensures
            k <= self@.len(),
            forall|i: int| 0 <= i < k ==> (#[trigger] self@[i]).max < v,
            forall|i: int| k <= i < self@.len() ==> (#[trigger] self@[i]).max >= v,
    {
        let key = Range::id(v);
        let mut lo: usize = 0;
        let mut hi: usize = self.free_list.len();
        while lo < hi
            invariant
                self.wf(),
                key == (Range { min: v, max: v }),
                lo <= hi <= self@.len(),
                forall|i: int| 0 <= i < lo ==> (#[trigger] self@[i]).max < v,
                forall|i: int| hi <= i < self@.len() ==> (#[trigger] self@[i]).max >= v,
            decreases hi - lo,
        {
            let mid: usize = lo + (hi - lo) / 2;
            proof {
                lemma_ascending(self@, mid as int);
            }
            if self.free_list[mid] < key {
                lo = mid + 1;
            } else {
                hi = mid;
            }
        }
        lo
    }

    /// The number of stored intervals that do not compare greater than the
    /// one-index interval of `v`: those that start at or below `v`. As the
    /// list is ascending, these are its first ones.
    fn count_starting_upto(&self, v: usize) -> (k: usize)
        requires
            self.wf(),
        ensures
            k <= self@.len(),
            forall|i: int| 0 <= i < k ==> (#[trigger] self@[i]).min <= v,
            forall|i: int| k <= i < self@.len() ==> (#[trigger] self@[i]).min > v,
    {
        let key = Range::id(v);
        let mut lo: usize = 0;
        let mut hi: usize = self.free_list.len();
        while lo < hi
            invariant
                self.wf(),
                key == (Range { min: v, max: v }),
                lo <= hi <= self@.len(),
                forall|i: int| 0 <= i < lo ==> (#[trigger] self@[i]).min <= v,
                forall|i: int| hi <= i < self@.len() ==> (#[trigger] self@[i]).min > v,
            decreases hi - lo,
        {
            let mid: usize = lo + (hi - lo) / 2;
            proof {
                lemma_ascending(self@, mid as int);
            }
            if self.free_list[mid] > key {
                hi = mid;
            } else {
                lo = mid + 1;
            }
        }
        lo
    }

    /// The place of the stored interval that holds `index`, if there is one:
    /// the one that compares equal to the one-index interval of `index`.
    fn find(&self, index: usize) -> (r: Option<usize>)
        requires
            self.wf(),
        ensures
            match r {
                Some(k) => k < self@.len() && self@[k as int].covers(index as int),
                None => !ranges_cover(self@, index as int),
            },
    {
        let key = Range::id(index);
        let k = self.count_ending_before(index);
        if k < self.free_list.len() && self.free_list[k] == key {
            Some(k)
        } else {
            proof {
                assert forall|i: int| 0 <= i < self@.len() implies !(#[trigger] self@[i]).covers(
                    index as int,
                ) by {
                    if k < i {
                        lemma_ascending(self@, k as int);
                    }
                }
            }
            None
        }
    }

    /// Whether `index` is free.
    #[inline]
    pub fn is_free(&self, index: usize) -> (r: bool)
        requires
            self.wf(),
        ensures
            r == self.free_set().contains(index as int),
    {
        self.find(index).is_some()
    }

    /// Marks `index` free. Returns false, and changes nothing, if it was free
    /// already.
    #[inline]
    pub fn set_free(&mut self, index: usize) -> (r: bool)
        requires
            old(self).wf(),
        ensures
            final(self).wf(),
            r == !old(self).free_set().contains(index as int),
            final(self).free_set() == old(self).free_set().insert(index as int),
            final(self).free_set().contains(index as int),
            !r ==> final(self)@ == old(self)@,
    {
        if self.find(index).is_some() {
            assert(self.free_set() =~= self.free_set().insert(index as int));
            return false;
        }
        let range = Range::id(index);
        self.do_set_free(range);
        assert(self.free_set() =~= old(self).free_set().insert(index as int));
        true
    }

    /// Marks every index of `range` free, those that were free already
    /// included. Returns false, and changes nothing, if one stored interval
    /// held all of `range` already.
    #[inline]
    pub fn set_range_free(&mut self, range: Range) -> (r: bool)
        requires
            old(self).wf(),
            range.min <= range.max,
        ensures
            final(self).wf(),
            r == !ranges_enclose(old(self)@, range),
            r == !range.index_set().subset_of(old(self).free_set()),
            final(self).free_set() == old(self).free_set().union(range.index_set()),
            !r ==> final(self)@ == old(self)@,
    {
        proof {
            lemma_enclosed_iff_all_free(*self, range);
        }
        let front_check = self.find(range.min);
        let back_check = self.find(range.max);
        match (front_check, back_check) {
            (Some(front_check), Some(back_check)) => {
                if front_check == back_check {
                    proof {
                        let k = front_check as int;
                        assert(self@[k].min <= range.min && range.max <= self@[k].max);
                        assert forall|v: int| range.covers(v) implies ranges_cover(self@, v) by {
                            assert(self@[k].covers(v));
                        }
                        assert(self.free_set() =~= self.free_set().union(range.index_set()));
                    }
                    return false;
                }
            },
            _ => (),
        }
        proof {
            if ranges_enclose(self@, range) {
                let i = choose|i: int|
                    0 <= i < self@.len() && (#[trigger] self@[i]).min <= range.min && range.max
                        <= self@[i].max;
                assert(self@[i].covers(range.min as int));
                assert(self@[i].covers(range.max as int));
                lemma_unique(self@, i, front_check.unwrap() as int, range.min as int);
                lemma_unique(self@, i, back_check.unwrap() as int, range.max as int);
            }
        }
        self.do_set_free(range);
        true
    }

    /// Frees the indices of `range` and joins it with every stored interval
    /// that it overlaps or touches, so that one maximal interval takes their
    /// place. The neighbour below is sought at `range.min - 1` unless
    /// `range.min` is 0, the neighbour above at `range.max + 1` unless
    /// `range.max` is `usize::MAX`.
    fn do_set_free(&mut self, range: Range)
        requires
            old(self).wf(),
            range.min <= range.max,
        ensures
            final(self).wf(),
            final(self).free_set() == old(self).free_set().union(range.index_set()),
    {
        let ghost s = self@;
        let (a, b) = self.touching_span(range);
        let combine_front = if a < b && self.free_list[a].min < range.min {
            Some(self.free_list[a])
        } else {
            None
        };
        let combine_back = if a < b && self.free_list[b - 1].max > range.max {
            Some(self.free_list[b - 1])
        } else {
            None
        };
        let combined = match (combine_front, combine_back) {
            (Some(front_range), Some(back_range)) => front_range.merge(range).merge(back_range),
            (Some(front_range), None) => front_range.merge(range),
            (None, Some(back_range)) => back_range.merge(range),
            (None, None) => range,
        };
        self.replace_span(a, b, combined);
        proof {
            lemma_splice(s, a as int, b as int, range, combined);
            assert(self.free_set() =~= old(self).free_set().union(range.index_set()));
        }
    }

    /// The stored intervals that `range` overlaps or touches stand at the
    /// places from `a` up to, not including, `b`.
    fn touching_span(&self, range: Range) -> (r: (usize, usize))
        requires
            self.wf(),
            range.min <= range.max,
        ensures
            r.0 <= r.1 <= self@.len(),
            forall|i: int| 0 <= i < r.0 ==> (#[trigger] self@[i]).max + 1 < range.min,
            forall|i: int|
                r.0 <= i < r.1 ==> (#[trigger] self@[i]).max + 1 >= range.min && self@[i].min
                    <= range.max + 1,
            forall|i: int| r.1 <= i < self@.len() ==> (#[trigger] self@[i]).min > range.max + 1,
    {
        let a: usize = if range.min > 0 {
            self.count_ending_before(range.min - 1)
        } else {
            0
        };
        let b: usize = if range.max < usize::MAX {
            self.count_starting_upto(range.max + 1)
        } else {
            self.free_list.len()
        };
        assert(a <= b) by {
            if b < a {
                assert(self@[b as int].min <= self@[b as int].max);
            }
        }
        (a, b)
    }

    /// Takes out the intervals at the places from `a` up to, not including,
    /// `b`, and puts `combined` where they stood.
    fn replace_span(&mut self, a: usize, b: usize, combined: Range)
        requires
            a <= b <= old(self)@.len(),
        ensures
            final(self)@ == old(self)@.subrange(0, a as int).push(combined) + old(self)@.subrange(
                b as int,
                old(self)@.len() as int,
            ),
    {
        let ghost s = self@;
        let mut k: usize = a;
        while k < b
            invariant
                a <= k <= b <= s.len(),
                self@ =~= s.subrange(0, a as int) + s.subrange(k as int, s.len() as int),
            decreases b - k,
        {
            self.free_list.remove(a);
            k += 1;
        }
        self.free_list.insert(a, combined);
        assert(self@ =~= s.subrange(0, a as int).push(combined) + s.subrange(
            b as int,
            s.len() as int,
        ));
    }

    /// Marks `index` used. Returns false, and changes nothing, if it was not
    /// free. The interval that held it gives way to what it held below
    /// `index` and what it held above.
    #[inline]
    pub fn set_used(&mut self, index: usize) -> (r: bool)
        requires
            old(self).wf(),
        ensures
            final(self).wf(),
            r == old(self).free_set().contains(index as int),
            final(self).free_set() == old(self).free_set().remove(index as int),
            !final(self).free_set().contains(index as int),
            !r ==> final(self)@ == old(self)@,
    {
        match self.find(index) {
            Some(k) => {
                let intersecting = self.free_list[k];
                proof {
                    lemma_remove(self@, k as int);
                }
                self.free_list.remove(k);
                let (left, right) = intersecting.split(index);
                let ghost s = old(self)@;
                if k > 0 {
                    assert(self@[k - 1] == s[k - 1]);
                    assert(s[k - 1].max + 1 < s[k as int].min);
                }
                if k < self.free_list.len() {
                    assert(self@[k as int] == s[k + 1]);
                    assert(s[k as int].max + 1 < s[k + 1].min);
                }
                if !right.empty() {
                    proof {
                        lemma_insert(self@, k as int, right);
                    }
                    self.free_list.insert(k, right);
                }
                if !left.empty() {
                    proof {
                        lemma_insert(self@, k as int, left);
                    }
                    self.free_list.insert(k, left);
                }
                assert(self.free_set() =~= old(self).free_set().remove(index as int));
                true
            },
            None => {
                assert(self.free_set() =~= self.free_set().remove(index as int));
                false
            },
        }
    }

    /// The lowest free index, if any index is free.
    #[inline]
    pub fn first(&self) -> (r: Option<usize>)
        requires
            self.wf(),
        ensures
            r == self.lowest(),
            match r {
                Some(v) => self.free_set().contains(v as int) && forall|j: int|
                    self.free_set().contains(j) ==> v <= j,
                None => self.free_set() == Set::<int>::empty(),
            },
    {
        if self.free_list.len() == 0 {
            assert(self.free_set() =~= Set::<int>::empty());
            None
        } else {
            proof {
                lemma_bounds(self@);
            }
            Some(self.free_list[0].min)
        }
    }

    /// Marks the lowest free index used and returns it. Returns `None`, and
    /// changes nothing, if no index is free.
    #[inline]
    pub fn set_first_used(&mut self) -> (r: Option<usize>)
        requires
            old(self).wf(),
        ensures
            final(self).wf(),
            r == old(self).lowest(),
            match r {
                Some(v) => old(self).free_set().contains(v as int) && (forall|j: int|
                    old(self).free_set().contains(j) ==> v <= j) && final(self).free_set() == old(
                    self,
                ).free_set().remove(v as int) && final(self)@ == (if old(self)@[0].min == old(
                    self,
                )@[0].max {
                    old(self)@.drop_first()
                } else {
                    old(self)@.update(0, Range { min: (v + 1) as usize, max: old(self)@[0].max })
                }),
                None => final(self)@ == old(self)@,
            },
    {
        if self.free_list.len() == 0 {
            return None;
        }
        let first = self.free_list[0];
        proof {
            lemma_bounds(self@);
            lemma_remove(self@, 0);
        }
        self.free_list.remove(0);
        if first.min < usize::MAX {
            let range = first.pop_front();
            if !range.empty() {
                proof {
                    if self@.len() > 0 {
                        assert(self@[0] == old(self)@[1]);
                        assert(old(self)@[0].max + 1 < old(self)@[1].min);
                    }
                    lemma_insert(self@, 0, range);
                }
                self.free_list.insert(0, range);
            }
        }
        assert(self.free_set() =~= old(self).free_set().remove(first.min as int));
        assert(self@ =~= (if first.min == first.max {
            old(self)@.drop_first()
        } else {
            old(self)@.update(0, Range { min: (first.min + 1) as usize, max: first.max })
        }));
        Some(first.min)
    }

    /// The highest free index, if any index is free.
    #[inline]
    pub fn last(&self) -> (r: Option<usize>)
        requires
            self.wf(),
        ensures
            r == self.highest(),
            match r {
                Some(v) => self.free_set().contains(v as int) && forall|j: int|
                    self.free_set().contains(j) ==> j <= v,
                None => self.free_set() == Set::<int>::empty(),
            },
    {
        let n = self.free_list.len();
        if n == 0 {
            assert(self.free_set() =~= Set::<int>::empty());
            None
        } else {
            proof {
                lemma_bounds(self@);
            }
            Some(self.free_list[n - 1].max)
        }
    }

    /// Marks the highest free index used and returns it. Returns `None`, and
    /// changes nothing, if no index is free.
    #[inline]
    pub fn set_last_used(&mut self) -> (r: Option<usize>)
        requires
            old(self).wf(),
        ensures
            final(self).wf(),
            r == old(self).highest(),
            match r {
                Some(v) => old(self).free_set().contains(v as int) && (forall|j: int|
                    old(self).free_set().contains(j) ==> j <= v) && final(self).free_set() == old(
                    self,
                ).free_set().remove(v as int) && final(self)@ == (if old(self)@.last().min == old(
                    self,
                )@.last().max {
                    old(self)@.drop_last()
                } else {
                    old(self)@.update(
                        old(self)@.len() - 1,
                        Range { min: old(self)@.last().min, max: (v - 1) as usize },
                    )
                }),
                None => final(self)@ == old(self)@,
            },
    {
        let n = self.free_list.len();
        if n == 0 {
            return None;
        }
        let last = self.free_list[n - 1];
        proof {
            lemma_bounds(self@);
            lemma_remove(self@, n - 1);
        }
        self.free_list.remove(n - 1);
        if last.max != 0 {
            let range = last.pop_back();
            if !range.empty() {
                proof {
                    if n > 1 {
                        assert(self@[n - 2] == old(self)@[n - 2]);
                        assert(old(self)@[n - 2].max + 1 < old(self)@[n - 1].min);
                    }
                    lemma_insert(self@, n - 1, range);
                }
                self.free_list.insert(n - 1, range);
            }
        }
        assert(self.free_set() =~= old(self).free_set().remove(last.max as int));
        assert(self@ =~= (if last.min == last.max {
            old(self)@.drop_last()
        } else {
            old(self)@.update(n - 1, Range { min: last.min, max: (last.max - 1) as usize })
        }));
        Some(last.max)
    }

    /// Marks the whole of the highest stored interval used. Changes nothing
    /// if no index is free.
    #[inline]
    pub fn remove_last_contiguous(&mut self)
        requires
            old(self).wf(),
        ensures
            final(self).wf(),
            final(self)@ == (if old(self)@.len() == 0 {
                old(self)@
            } else {
                old(self)@.drop_last()
            }),
            old(self)@.len() > 0 ==> final(self).free_set() == old(self).free_set().difference(
                old(self)@.last().index_set(),
            ),
    {
        if let Some(last) = self.last() {
            let n = self.free_list.len();
            proof {
                lemma_remove(self@, n - 1);
                assert(self@.remove(n - 1) =~= self@.drop_last());
            }
            self.free_list.remove(n - 1);
            assert(self.free_set() =~= old(self).free_set().difference(
                old(self)@.last().index_set(),
            ));
        }
    }

    /// Marks every index used.
    #[inline]
    pub fn clear(&mut self)
        ensures
            final(self).wf(),
            final(self)@ == Seq::<Range>::empty(),
            final(self).free_set() == Set::<int>::empty(),
    {
        self.free_list.clear();
        assert(self@ =~= Seq::<Range>::empty());
        assert(self.free_set() =~= Set::<int>::empty());
    }

    /// The stored intervals at the places from `from` up to, not including,
    /// `to`, in ascending order.
    fn copy_span(&self, from: usize, to: usize) -> (r: Vec<Range>)
        requires
            from <= to <= self@.len(),
        ensures
            r@ == self@.subrange(from as int, to as int),
    {
        let mut out: Vec<Range> = Vec::new();
        let mut i: usize = from;
        while i < to
            invariant
                from <= i <= to <= self@.len(),
                out@ =~= self@.subrange(from as int, i as int),
            decreases to - i,
        {
            out.push(self.free_list[i]);
            i += 1;
        }
        out
    }

    /// All stored intervals, in ascending order.
    #[inline]
    pub fn free_ranges(&self) -> (r: Vec<Range>)
        ensures
            r@ == self@,
    {
        let r = self.copy_span(0, self.free_list.len());
        assert(r@ =~= self@);
        r
    }

    /// The stored intervals that reach `start` or lie above it, in ascending
    /// order: the interval that holds `start`, if there is one, and all that
    /// follow.
    #[inline]
    pub fn free_ranges_after(&self, start: usize) -> (r: Vec<Range>)
        requires
            self.wf(),
        ensures
            r@.len() <= self@.len(),
            r@ == self@.subrange(self@.len() - r@.len(), self@.len() as int),
            forall|i: int| 0 <= i < self@.len() - r@.len() ==> (#[trigger] self@[i]).max < start,
            forall|i: int| 0 <= i < r@.len() ==> (#[trigger] r@[i]).max >= start,
    {
        let k = self.count_ending_before(start);
        self.copy_span(k, self.free_list.len())
    }

    /// The stored intervals that begin at `end` or below it, in ascending
    /// order: the interval that holds `end`, if there is one, and all that
    /// come before.
    #[inline]
    pub fn free_ranges_before(&self, end: usize) -> (r: Vec<Range>)
        requires
            self.wf(),
        ensures
            r@.len() <= self@.len(),
            r@ == self@.subrange(0, r@.len() as int),
            forall|i: int| 0 <= i < r@.len() ==> (#[trigger] r@[i]).min <= end,
            forall|i: int| r@.len() <= i < self@.len() ==> (#[trigger] self@[i]).min > end,
    {
        let k = self.count_starting_upto(end);
        self.copy_span(0, k)
    }
}

} // verus!
