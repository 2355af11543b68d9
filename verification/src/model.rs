//! The mathematical model of a free list: a sequence of intervals, what makes
//! it well formed, and which indices it holds.

use crate::range::Range;
use vstd::prelude::*;

verus! {

/// Every interval is non-empty, and each lies wholly below the next with at
/// least one index between them: the intervals are ascending, disjoint and
/// never adjacent.
pub open spec fn ranges_wf(s: Seq<Range>) -> bool {
    &&& forall|i: int| 0 <= i < s.len() ==> (#[trigger] s[i]).min <= s[i].max
    &&& forall|i: int, j: int|
        0 <= i < j < s.len() ==> (#[trigger] s[i]).max + 1 < (#[trigger] s[j]).min
}

/// Some interval of `s` holds `v`.
pub open spec fn ranges_cover(s: Seq<Range>, v: int) -> bool {
    exists|i: int| 0 <= i < s.len() && (#[trigger] s[i]).covers(v)
}

/// Some single interval of `s` holds all of `r`.
pub open spec fn ranges_enclose(s: Seq<Range>, r: Range) -> bool {
    exists|i: int| 0 <= i < s.len() && (#[trigger] s[i]).min <= r.min && r.max <= s[i].max
}

/// The indices that the intervals of `s` hold.
pub open spec fn ranges_set(s: Seq<Range>) -> Set<int> {
    Set::new(|v: int| ranges_cover(s, v))
}

/// In a well-formed list every interval before the one at `k` ends below its
/// start, and every interval after it starts above its end.
pub proof fn lemma_ascending(s: Seq<Range>, k: int)
    requires
        ranges_wf(s),
        0 <= k < s.len(),
    ensures
        s[k].min <= s[k].max,
        forall|i: int| 0 <= i < k ==> (#[trigger] s[i]).max + 1 < s[k].min,
        forall|i: int| k < i < s.len() ==> s[k].max + 1 < (#[trigger] s[i]).min,
{
}

/// Taking one interval out of a well-formed list leaves a well-formed list
/// that holds what it held, but for the indices of that interval.
pub proof fn lemma_remove(s: Seq<Range>, k: int)
    requires
        ranges_wf(s),
        0 <= k < s.len(),
    ensures
        ranges_wf(s.remove(k)),
        forall|v: int| ranges_cover(s.remove(k), v) <==> ranges_cover(s, v) && !s[k].covers(v),
{
    let t = s.remove(k);
    assert forall|v: int| ranges_cover(t, v) <==> ranges_cover(s, v) && !s[k].covers(
        v,
    ) by {
        if ranges_cover(t, v) {
            let i = choose|i: int| 0 <= i < t.len() && (#[trigger] t[i]).covers(v);
            let j = if i < k { i } else { i + 1 };
            assert(s[j].covers(v));
            if j < k {
                assert(s[j].max + 1 < s[k].min);
            } else {
                assert(s[k].max + 1 < s[j].min);
            }
        }
        if ranges_cover(s, v) && !s[k].covers(v) {
            let j = choose|j: int| 0 <= j < s.len() && (#[trigger] s[j]).covers(v);
            let i = if j < k { j } else { j - 1 };
            assert(t[i].covers(v));
        }
    }
}

/// Putting a non-empty interval into a gap of a well-formed list, clear of
/// both neighbours by at least one index, gives a well-formed list that holds
/// the indices of the interval as well.
pub proof fn lemma_insert(s: Seq<Range>, k: int, r: Range)
    requires
        ranges_wf(s),
        0 <= k <= s.len(),
        r.min <= r.max,
        k > 0 ==> s[k - 1].max + 1 < r.min,
        k < s.len() ==> r.max + 1 < s[k].min,
    ensures
        ranges_wf(s.insert(k, r)),
        forall|v: int| ranges_cover(s.insert(k, r), v) <==> ranges_cover(s, v) || r.covers(v),
{
    let t = s.insert(k, r);
    assert forall|i: int, j: int| 0 <= i < j < t.len() implies (#[trigger] t[i]).max + 1 < (
    #[trigger] t[j]).min by {
        if i < k && j > k {
            assert(s[i].max <= s[k - 1].max) by {
                if i < k - 1 {
                    assert(s[i].max + 1 < s[k - 1].min);
                }
            }
            assert(s[k].min <= s[j - 1].min) by {
                if k < j - 1 {
                    assert(s[k].max + 1 < s[j - 1].min);
                }
            }
        } else if i < k && j == k {
            if i < k - 1 {
                assert(s[i].max + 1 < s[k - 1].min);
            }
        } else if i == k {
            if k < j - 1 {
                assert(s[k].max + 1 < s[j - 1].min);
            }
        } else if j < k {
            assert(t[i] == s[i] && t[j] == s[j]);
        } else {
            assert(t[i] == s[i - 1] && t[j] == s[j - 1]);
        }
    }
    assert forall|v: int| ranges_cover(t, v) <==> ranges_cover(s, v) || r.covers(v) by {
        if ranges_cover(t, v) && !r.covers(v) {
            let i = choose|i: int| 0 <= i < t.len() && (#[trigger] t[i]).covers(v);
            let j = if i < k { i } else { i - 1 };
            assert(s[j].covers(v));
        }
        if ranges_cover(s, v) {
            let j = choose|j: int| 0 <= j < s.len() && (#[trigger] s[j]).covers(v);
            let i = if j < k { j } else { j + 1 };
            assert(t[i].covers(v));
        }
        if r.covers(v) {
            assert(t[k].covers(v));
        }
    }
}

/// In a well-formed list at most one interval holds a given index.
pub proof fn lemma_unique(s: Seq<Range>, i: int, j: int, v: int)
    requires
        ranges_wf(s),
        0 <= i < s.len(),
        0 <= j < s.len(),
        s[i].covers(v),
        s[j].covers(v),
    ensures
        i == j,
{
    if i < j {
        assert(s[i].max + 1 < s[j].min);
    }
    if j < i {
        assert(s[j].max + 1 < s[i].min);
    }
}

/// The intervals `s[a..b]` are those that `r` overlaps or touches, and `c` is
/// the smallest interval that holds them and `r`. Putting `c` in their place
/// gives a well-formed list that holds the indices of `r` as well.
pub proof fn lemma_splice(s: Seq<Range>, a: int, b: int, r: Range, c: Range)
    requires
        ranges_wf(s),
        0 <= a <= b <= s.len(),
        r.min <= r.max,
        forall|i: int| 0 <= i < a ==> (#[trigger] s[i]).max + 1 < r.min,
        forall|i: int| a <= i < b ==> (#[trigger] s[i]).max + 1 >= r.min && s[i].min <= r.max + 1,
        forall|i: int| b <= i < s.len() ==> (#[trigger] s[i]).min > r.max + 1,
        c.min == (if a < b && s[a].min < r.min { s[a].min } else { r.min }),
        c.max == (if a < b && s[b - 1].max > r.max { s[b - 1].max } else { r.max }),
    ensures
        ranges_wf(s.subrange(0, a).push(c) + s.subrange(b, s.len() as int)),
        forall|v: int|
            ranges_cover(s.subrange(0, a).push(c) + s.subrange(b, s.len() as int), v)
                <==> ranges_cover(s, v) || r.covers(v),
{
    let t = s.subrange(0, a).push(c) + s.subrange(b, s.len() as int);
    let d = b - a - 1;
    assert(t.len() == s.len() - d);
    assert forall|i: int| 0 <= i < a implies #[trigger] t[i] == s[i] by {}
    assert(t[a] == c);
    assert forall|i: int| a < i < t.len() implies #[trigger] t[i] == s[i + d] by {}
    assert forall|i: int| a <= i < b implies c.min <= (#[trigger] s[i]).min && s[i].max
        <= c.max by {
        if a < i {
            assert(s[a].max + 1 < s[i].min);
        }
        if i < b - 1 {
            assert(s[i].max + 1 < s[b - 1].min);
        }
    }
    assert(a > 0 ==> s[a - 1].max + 1 < c.min) by {
        if a > 0 && a < b {
            assert(s[a - 1].max + 1 < s[a].min);
        }
    }
    assert(b < s.len() ==> c.max + 1 < s[b].min) by {
        if b < s.len() && a < b {
            assert(s[b - 1].max + 1 < s[b].min);
        }
    }
    assert forall|i: int| 0 <= i < t.len() implies (#[trigger] t[i]).min <= t[i].max by {
        if i < a {
            assert(t[i] == s[i]);
        } else if i > a {
            assert(t[i] == s[i + d]);
        }
    }
    assert forall|i: int, j: int| 0 <= i < j < t.len() implies (#[trigger] t[i]).max + 1 < (
    #[trigger] t[j]).min by {
        if j < a {
            assert(t[i] == s[i] && t[j] == s[j]);
        } else if j == a {
            assert(t[i] == s[i]);
            if i < a - 1 {
                assert(s[i].max + 1 < s[a - 1].min);
            }
        } else if i < a {
            assert(t[i] == s[i] && t[j] == s[j + d]);
            assert(s[i].max + 1 < r.min);
            assert(s[j + d].min > r.max + 1);
        } else if i == a {
            assert(t[j] == s[j + d]);
            if b < j + d {
                assert(s[b].max + 1 < s[j + d].min);
            }
        } else {
            assert(t[i] == s[i + d] && t[j] == s[j + d]);
        }
    }
    assert forall|v: int| ranges_cover(t, v) <==> ranges_cover(s, v) || r.covers(v) by {
        if ranges_cover(t, v) && !r.covers(v) {
            let i = choose|i: int| 0 <= i < t.len() && (#[trigger] t[i]).covers(v);
            if i < a {
                assert(s[i].covers(v));
            } else if i > a {
                assert(s[i + d].covers(v));
            } else if v < r.min {
                assert(s[a].covers(v));
            } else {
                assert(s[b - 1].covers(v));
            }
        }
        if ranges_cover(s, v) {
            let j = choose|j: int| 0 <= j < s.len() && (#[trigger] s[j]).covers(v);
            if j < a {
                assert(t[j].covers(v));
            } else if j >= b {
                assert(t[j - d].covers(v));
            } else {
                assert(t[a].covers(v));
            }
        }
        if r.covers(v) {
            assert(t[a].covers(v));
        }
    }
}

/// A well-formed list holds the lower end of its first interval and the
/// upper end of its last, and nothing below the one or above the other.
pub proof fn lemma_bounds(s: Seq<Range>)
    requires
        ranges_wf(s),
        s.len() > 0,
    ensures
        ranges_cover(s, s[0].min as int),
        ranges_cover(s, s.last().max as int),
        forall|v: int| ranges_cover(s, v) ==> s[0].min <= v <= s.last().max,
{
    assert(s[0].covers(s[0].min as int));
    assert(s[s.len() - 1].covers(s.last().max as int));
    assert forall|v: int| ranges_cover(s, v) implies s[0].min <= v <= s.last().max by {
        let i = choose|i: int| 0 <= i < s.len() && (#[trigger] s[i]).covers(v);
        if 0 < i {
            assert(s[0].max + 1 < s[i].min);
        }
        if i < s.len() - 1 {
            assert(s[i].max + 1 < s[s.len() - 1].min);
        }
    }
}

} // verus!
