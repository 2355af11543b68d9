//! What holds of the free list as a whole: that its intervals are determined
//! by the indices it holds, and how freeing and using an index undo each
//! other.

use crate::free_list::FreeRanges;
use crate::model::{
    lemma_bounds, lemma_remove, ranges_cover, ranges_enclose, ranges_set, ranges_wf,
};
use crate::range::Range;
use std::cmp::Ordering;
use vstd::prelude::*;

verus! {

/// Two well-formed lists that hold the same indices are the same list: a set
/// of indices has one representation by maximal intervals.
pub proof fn lemma_canonical(a: Seq<Range>, b: Seq<Range>)
    requires
        ranges_wf(a),
        ranges_wf(b),
        ranges_set(a) == ranges_set(b),
    ensures
        a == b,
    decreases a.len(),
{
    assert forall|v: int| ranges_cover(a, v) <==> ranges_cover(b, v) by {
        assert(ranges_set(a).contains(v) <==> ranges_cover(a, v));
        assert(ranges_set(b).contains(v) <==> ranges_cover(b, v));
    }
    if a.len() == 0 {
        if b.len() > 0 {
            lemma_bounds(b);
            assert(ranges_cover(a, b[0].min as int));
        }
        assert(a =~= b);
    } else if b.len() == 0 {
        lemma_bounds(a);
        assert(ranges_cover(b, a[0].min as int));
    } else {
        lemma_bounds(a);
        lemma_bounds(b);
        assert(a[0].min == b[0].min);
        lemma_first_end(a, b);
        lemma_first_end(b, a);
        assert(a[0] == b[0]);
        lemma_remove(a, 0);
        lemma_remove(b, 0);
        assert forall|v: int|
            ranges_set(a.remove(0)).contains(v) <==> ranges_set(b.remove(0)).contains(v) by {
            assert(ranges_cover(a.remove(0), v) <==> ranges_cover(a, v) && !a[0].covers(v));
            assert(ranges_cover(b.remove(0), v) <==> ranges_cover(b, v) && !b[0].covers(v));
        }
        assert(ranges_set(a.remove(0)) =~= ranges_set(b.remove(0)));
        lemma_canonical(a.remove(0), b.remove(0));
        assert forall|i: int| 0 <= i < a.len() implies a[i] == b[i] by {
            if i > 0 {
                assert(a[i] == a.remove(0)[i - 1]);
                assert(b[i] == b.remove(0)[i - 1]);
            }
        }
        assert(a.len() == a.remove(0).len() + 1);
        assert(b.len() == b.remove(0).len() + 1);
        assert(a =~= b);
    }
}

/// If two well-formed lists hold the same indices and their first intervals
/// begin together, the first interval of the one does not end after that of
/// the other.
proof fn lemma_first_end(a: Seq<Range>, b: Seq<Range>)
    requires
        ranges_wf(a),
        ranges_wf(b),
        a.len() > 0,
        b.len() > 0,
        a[0].min == b[0].min,
        forall|v: int| ranges_cover(a, v) <==> ranges_cover(b, v),
    ensures
        b[0].max <= a[0].max,
{
    if a[0].max < b[0].max {
        let v = a[0].max + 1;
        assert(b[0].covers(v));
        assert(ranges_cover(a, v));
        let i = choose|i: int| 0 <= i < a.len() && (#[trigger] a[i]).covers(v);
        if i > 0 {
            assert(a[0].max + 1 < a[i].min);
        }
    }
}

/// A free list is determined by its free indices: two well-formed free lists
/// with the same free indices store the same intervals.
pub proof fn lemma_same_indices_same_ranges(a: FreeRanges, b: FreeRanges)
    requires
        a.wf(),
        b.wf(),
        a.free_set() == b.free_set(),
    ensures
        a@ == b@,
{
    lemma_canonical(a@, b@);
}

/// Freeing an index that was not free and then using it again gives back the
/// intervals that were stored before.
pub proof fn lemma_free_then_used_restores(
    before: FreeRanges,
    freed: FreeRanges,
    after: FreeRanges,
    index: usize,
)
    requires
        before.wf(),
        !before.free_set().contains(index as int),
        freed.wf(),
        freed.free_set() == before.free_set().insert(index as int),
        after.wf(),
        after.free_set() == freed.free_set().remove(index as int),
    ensures
        after@ == before@,
{
    assert(after.free_set() =~= before.free_set());
    lemma_canonical(after@, before@);
}

/// One stored interval holds all of `range` exactly when every index of
/// `range` is free.
pub proof fn lemma_enclosed_iff_all_free(s: FreeRanges, range: Range)
    requires
        s.wf(),
        range.min <= range.max,
    ensures
        ranges_enclose(s@, range) <==> range.index_set().subset_of(s.free_set()),
{
    let a = s@;
    if ranges_enclose(a, range) {
        let k = choose|k: int|
            0 <= k < a.len() && (#[trigger] a[k]).min <= range.min && range.max <= a[k].max;
        assert forall|v: int| range.index_set().contains(v) implies s.free_set().contains(v) by {
            assert(a[k].covers(v));
        }
    }
    if range.index_set().subset_of(s.free_set()) {
        assert(range.index_set().contains(range.min as int));
        assert(range.index_set().contains(range.max as int));
        assert(s.free_set().contains(range.min as int));
        assert(s.free_set().contains(range.max as int));
        let i = choose|i: int| 0 <= i < a.len() && (#[trigger] a[i]).covers(range.min as int);
        let j = choose|j: int| 0 <= j < a.len() && (#[trigger] a[j]).covers(range.max as int);
        if i < j {
            let v = a[i].max + 1;
            assert(a[i].max + 1 < a[j].min);
            assert(range.index_set().contains(v));
            assert(s.free_set().contains(v));
            let m = choose|m: int| 0 <= m < a.len() && (#[trigger] a[m]).covers(v);
            if m < i {
                assert(a[m].max + 1 < a[i].min);
            }
            if m > i {
                assert(a[i].max + 1 < a[m].min);
            }
            assert(false);
        }
        if j < i {
            assert(a[j].max + 1 < a[i].min);
            assert(false);
        }
        assert(a[i].min <= range.min && range.max <= a[i].max);
    }
}

/// Among the intervals of a well-formed list the comparison is a strict
/// order that follows their places: an earlier interval is less than a later
/// one, and only an interval itself is equal to it.
pub proof fn lemma_order_follows_places(s: Seq<Range>, i: int, j: int)
    requires
        ranges_wf(s),
        0 <= i < s.len(),
        0 <= j < s.len(),
    ensures
        i < j <==> s[i].order(s[j]) == Ordering::Less,
        i == j <==> s[i].order(s[j]) == Ordering::Equal,
        i > j <==> s[i].order(s[j]) == Ordering::Greater,
{
    if i < j {
        assert(s[i].max + 1 < s[j].min);
    }
    if j < i {
        assert(s[j].max + 1 < s[i].min);
    }
}

/// A non-empty interval is equal to the one-index interval of `v` exactly
/// when it holds `v`, less when it ends below `v`, greater when it starts
/// above `v`.
pub proof fn lemma_order_against_index(r: Range, v: usize)
    requires
        r.min <= r.max,
    ensures
        r.order(Range { min: v, max: v }) == Ordering::Equal <==> r.min <= v <= r.max,
        r.order(Range { min: v, max: v }) == Ordering::Less <==> r.max < v,
        r.order(Range { min: v, max: v }) == Ordering::Greater <==> v < r.min,
{
}

} // verus!
