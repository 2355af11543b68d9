use free_ranges::{FreeRanges, Range};

fn pairs(set: &FreeRanges) -> Vec<(usize, usize)> {
    let mut out: Vec<(usize, usize)> = Vec::new();
    for r in set.free_ranges() {
        out.push((r.min, r.max));
    }
    out
}

fn pairs_of(ranges: Vec<Range>) -> Vec<(usize, usize)> {
    let mut out: Vec<(usize, usize)> = Vec::new();
    for r in ranges {
        out.push((r.min, r.max));
    }
    out
}

fn well_formed(set: &FreeRanges) -> bool {
    let p = pairs(set);
    for r in p.iter() {
        if r.0 > r.1 {
            return false;
        }
    }
    for w in p.windows(2) {
        if w[0].1 == usize::MAX || w[0].1 + 1 >= w[1].0 {
            return false;
        }
    }
    true
}

fn sample() -> FreeRanges {
    let mut set = FreeRanges::new();
    assert!(set.set_range_free(Range { min: 2, max: 4 }));
    assert!(set.set_range_free(Range { min: 8, max: 8 }));
    assert!(set.set_range_free(Range { min: 12, max: 20 }));
    set
}

#[test]
fn new_is_empty() {
    let set = FreeRanges::new();
    assert_eq!(pairs(&set), vec![]);
    assert_eq!(set.first(), None);
    assert_eq!(set.last(), None);
    assert!(!set.is_free(0));
}

#[test]
fn default_is_empty() {
    let set = FreeRanges::default();
    assert_eq!(pairs(&set), vec![]);
}

#[test]
fn with_all_free_holds_every_index() {
    let set = FreeRanges::with_all_free();
    assert_eq!(pairs(&set), vec![(0, usize::MAX)]);
    assert!(set.is_free(0));
    assert!(set.is_free(12345));
    assert!(set.is_free(usize::MAX));
    assert_eq!(set.first(), Some(0));
    assert_eq!(set.last(), Some(usize::MAX));
}

#[test]
fn with_initial_range_holds_the_range() {
    let set = FreeRanges::with_initial_range(Range { min: 10, max: 20 });
    assert_eq!(pairs(&set), vec![(10, 20)]);
    assert!(!set.is_free(9));
    assert!(set.is_free(10));
    assert!(set.is_free(20));
    assert!(!set.is_free(21));
}

#[test]
fn free_single_index_into_empty() {
    let mut set = FreeRanges::new();
    assert!(set.set_free(5));
    assert_eq!(pairs(&set), vec![(5, 5)]);
}

#[test]
fn free_index_above_merges() {
    let mut set = FreeRanges::new();
    assert!(set.set_free(5));
    assert!(set.set_free(6));
    assert_eq!(pairs(&set), vec![(5, 6)]);
}

#[test]
fn free_index_below_merges() {
    let mut set = FreeRanges::new();
    assert!(set.set_free(5));
    assert!(set.set_free(6));
    assert!(set.set_free(4));
    assert_eq!(pairs(&set), vec![(4, 6)]);
}

#[test]
fn use_middle_index_splits() {
    let mut set = FreeRanges::new();
    assert!(set.set_free(5));
    assert!(set.set_free(6));
    assert!(set.set_free(4));
    assert!(set.set_used(5));
    assert_eq!(pairs(&set), vec![(4, 4), (6, 6)]);
}

#[test]
fn free_index_between_joins_both_neighbours() {
    let mut set = FreeRanges::new();
    assert!(set.set_free(4));
    assert!(set.set_free(6));
    assert_eq!(pairs(&set), vec![(4, 4), (6, 6)]);
    assert!(set.set_free(5));
    assert_eq!(pairs(&set), vec![(4, 6)]);
}

#[test]
fn free_index_apart_stays_apart() {
    let mut set = FreeRanges::new();
    assert!(set.set_free(9));
    assert!(set.set_free(3));
    assert!(set.set_free(6));
    assert_eq!(pairs(&set), vec![(3, 3), (6, 6), (9, 9)]);
}

#[test]
fn first_two_of_all_free() {
    let mut set = FreeRanges::with_all_free();
    assert_eq!(set.set_first_used(), Some(0));
    assert_eq!(set.set_first_used(), Some(1));
    assert_eq!(pairs(&set), vec![(2, usize::MAX)]);
}

#[test]
fn free_range_over_the_end_of_another() {
    let mut set = FreeRanges::with_initial_range(Range { min: 10, max: 20 });
    assert!(set.set_range_free(Range { min: 15, max: 25 }));
    assert_eq!(pairs(&set), vec![(10, 25)]);
}

#[test]
fn free_range_inside_another_changes_nothing() {
    let mut set = FreeRanges::with_initial_range(Range { min: 10, max: 20 });
    assert!(!set.set_range_free(Range { min: 12, max: 18 }));
    assert!(!set.set_range_free(Range { min: 10, max: 20 }));
    assert_eq!(pairs(&set), vec![(10, 20)]);
}

#[test]
fn free_range_absorbs_all_it_overlaps() {
    let mut set = sample();
    assert_eq!(pairs(&set), vec![(2, 4), (8, 8), (12, 20)]);
    assert!(set.set_range_free(Range { min: 3, max: 15 }));
    assert_eq!(pairs(&set), vec![(2, 20)]);
}

#[test]
fn free_range_swallows_smaller_ranges() {
    let mut set = sample();
    assert!(set.set_range_free(Range { min: 0, max: 30 }));
    assert_eq!(pairs(&set), vec![(0, 30)]);
}

#[test]
fn free_range_touching_both_sides() {
    let mut set = sample();
    assert!(set.set_range_free(Range { min: 5, max: 7 }));
    assert_eq!(pairs(&set), vec![(2, 8), (12, 20)]);
    assert!(set.set_range_free(Range { min: 9, max: 11 }));
    assert_eq!(pairs(&set), vec![(2, 20)]);
}

#[test]
fn free_range_between_others() {
    let mut set = sample();
    assert!(set.set_range_free(Range { min: 10, max: 10 }));
    assert_eq!(pairs(&set), vec![(2, 4), (8, 8), (10, 10), (12, 20)]);
}

#[test]
fn free_range_with_endpoints_in_different_ranges() {
    let mut set = sample();
    assert!(set.set_range_free(Range { min: 4, max: 12 }));
    assert_eq!(pairs(&set), vec![(2, 20)]);
}

#[test]
fn use_index_that_is_not_free() {
    let mut set = sample();
    assert!(!set.set_used(5));
    assert!(!set.set_used(0));
    assert!(!set.set_used(21));
    assert_eq!(pairs(&set), vec![(2, 4), (8, 8), (12, 20)]);
}

#[test]
fn free_index_that_is_free() {
    let mut set = sample();
    assert!(!set.set_free(3));
    assert!(!set.set_free(8));
    assert!(!set.set_free(20));
    assert_eq!(pairs(&set), vec![(2, 4), (8, 8), (12, 20)]);
}

#[test]
fn free_then_use_restores() {
    let mut set = sample();
    let before = pairs(&set);
    for i in [0usize, 1, 5, 6, 7, 9, 10, 11, 21, 100, usize::MAX] {
        assert!(set.set_free(i));
        assert!(set.is_free(i));
        assert!(set.set_used(i));
        assert!(!set.is_free(i));
        assert_eq!(pairs(&set), before);
    }
}

#[test]
fn use_at_the_ends_of_a_range() {
    let mut set = sample();
    assert!(set.set_used(2));
    assert_eq!(pairs(&set), vec![(3, 4), (8, 8), (12, 20)]);
    assert!(set.set_used(20));
    assert_eq!(pairs(&set), vec![(3, 4), (8, 8), (12, 19)]);
    assert!(set.set_used(8));
    assert_eq!(pairs(&set), vec![(3, 4), (12, 19)]);
    assert!(set.set_used(15));
    assert_eq!(pairs(&set), vec![(3, 4), (12, 14), (16, 19)]);
}

#[test]
fn lowest_index_does_not_underflow() {
    let mut set = FreeRanges::new();
    assert!(set.set_free(0));
    assert_eq!(pairs(&set), vec![(0, 0)]);
    assert!(set.set_free(1));
    assert_eq!(pairs(&set), vec![(0, 1)]);
    assert!(set.set_used(0));
    assert_eq!(pairs(&set), vec![(1, 1)]);
    assert!(set.set_free(0));
    assert_eq!(set.set_last_used(), Some(1));
    assert_eq!(set.set_last_used(), Some(0));
    assert_eq!(set.set_last_used(), None);
    assert_eq!(pairs(&set), vec![]);
}

#[test]
fn highest_index_does_not_overflow() {
    let mut set = FreeRanges::new();
    assert!(set.set_free(usize::MAX));
    assert_eq!(pairs(&set), vec![(usize::MAX, usize::MAX)]);
    assert!(set.is_free(usize::MAX));
    assert!(set.set_free(usize::MAX - 1));
    assert_eq!(pairs(&set), vec![(usize::MAX - 1, usize::MAX)]);
    assert!(set.set_used(usize::MAX));
    assert_eq!(pairs(&set), vec![(usize::MAX - 1, usize::MAX - 1)]);
    assert!(set.set_free(usize::MAX));
    assert_eq!(set.set_first_used(), Some(usize::MAX - 1));
    assert_eq!(set.set_first_used(), Some(usize::MAX));
    assert_eq!(set.set_first_used(), None);
    assert!(set.set_range_free(Range { min: 0, max: usize::MAX }));
    assert_eq!(pairs(&set), vec![(0, usize::MAX)]);
    assert!(!set.set_range_free(Range { min: 7, max: usize::MAX }));
}

#[test]
fn first_and_last() {
    let set = sample();
    assert_eq!(set.first(), Some(2));
    assert_eq!(set.last(), Some(20));
    let mut one = FreeRanges::new();
    assert_eq!(one.first(), None);
    assert_eq!(one.last(), None);
    assert!(one.set_free(7));
    assert_eq!(one.first(), Some(7));
    assert_eq!(one.last(), Some(7));
}

#[test]
fn set_first_used_walks_upwards() {
    let mut set = sample();
    assert_eq!(set.set_first_used(), Some(2));
    assert_eq!(set.set_first_used(), Some(3));
    assert_eq!(set.set_first_used(), Some(4));
    assert_eq!(pairs(&set), vec![(8, 8), (12, 20)]);
    assert_eq!(set.set_first_used(), Some(8));
    assert_eq!(set.set_first_used(), Some(12));
    assert_eq!(pairs(&set), vec![(13, 20)]);
}

#[test]
fn set_last_used_walks_downwards() {
    let mut set = sample();
    assert_eq!(set.set_last_used(), Some(20));
    assert_eq!(set.set_last_used(), Some(19));
    assert_eq!(pairs(&set), vec![(2, 4), (8, 8), (12, 18)]);
    let mut small = FreeRanges::with_initial_range(Range { min: 8, max: 9 });
    assert_eq!(small.set_last_used(), Some(9));
    assert_eq!(small.set_last_used(), Some(8));
    assert_eq!(small.set_last_used(), None);
}

#[test]
fn set_first_used_on_empty() {
    let mut set = FreeRanges::new();
    assert_eq!(set.set_first_used(), None);
    assert_eq!(set.set_last_used(), None);
    assert_eq!(pairs(&set), vec![]);
}

#[test]
fn remove_last_contiguous_drops_whole_range() {
    let mut set = sample();
    set.remove_last_contiguous();
    assert_eq!(pairs(&set), vec![(2, 4), (8, 8)]);
    set.remove_last_contiguous();
    assert_eq!(pairs(&set), vec![(2, 4)]);
    set.remove_last_contiguous();
    assert_eq!(pairs(&set), vec![]);
    set.remove_last_contiguous();
    assert_eq!(pairs(&set), vec![]);
}

#[test]
fn is_free_at_edges() {
    let set = sample();
    let free: Vec<usize> = (0usize..25).filter(|i| set.is_free(*i)).collect();
    assert_eq!(free, vec![2, 3, 4, 8, 12, 13, 14, 15, 16, 17, 18, 19, 20]);
}

#[test]
fn clear_empties() {
    let mut set = sample();
    set.clear();
    assert_eq!(pairs(&set), vec![]);
    assert_eq!(set.first(), None);
    assert!(!set.is_free(3));
    assert!(set.set_free(3));
    assert_eq!(pairs(&set), vec![(3, 3)]);
}

#[test]
fn free_ranges_after_includes_straddling_range() {
    let set = sample();
    assert_eq!(pairs_of(set.free_ranges_after(0)), vec![(2, 4), (8, 8), (12, 20)]);
    assert_eq!(pairs_of(set.free_ranges_after(3)), vec![(2, 4), (8, 8), (12, 20)]);
    assert_eq!(pairs_of(set.free_ranges_after(4)), vec![(2, 4), (8, 8), (12, 20)]);
    assert_eq!(pairs_of(set.free_ranges_after(5)), vec![(8, 8), (12, 20)]);
    assert_eq!(pairs_of(set.free_ranges_after(9)), vec![(12, 20)]);
    assert_eq!(pairs_of(set.free_ranges_after(20)), vec![(12, 20)]);
    assert_eq!(pairs_of(set.free_ranges_after(21)), vec![]);
}

#[test]
fn free_ranges_before_includes_straddling_range() {
    let set = sample();
    assert_eq!(pairs_of(set.free_ranges_before(0)), vec![]);
    assert_eq!(pairs_of(set.free_ranges_before(1)), vec![]);
    assert_eq!(pairs_of(set.free_ranges_before(2)), vec![(2, 4)]);
    assert_eq!(pairs_of(set.free_ranges_before(7)), vec![(2, 4)]);
    assert_eq!(pairs_of(set.free_ranges_before(8)), vec![(2, 4), (8, 8)]);
    assert_eq!(pairs_of(set.free_ranges_before(15)), vec![(2, 4), (8, 8), (12, 20)]);
    assert_eq!(pairs_of(set.free_ranges_before(usize::MAX)), vec![(2, 4), (8, 8), (12, 20)]);
}

#[test]
fn clone_is_independent() {
    let mut set = sample();
    let copy = set.clone();
    assert!(set.set_used(3));
    assert_eq!(pairs(&copy), vec![(2, 4), (8, 8), (12, 20)]);
    assert_eq!(pairs(&set), vec![(2, 2), (4, 4), (8, 8), (12, 20)]);
}

#[test]
fn mixed_operations_agree_with_a_bitmap() {
    let size: usize = 64;
    let mut model: Vec<bool> = vec![false; size];
    let mut set = FreeRanges::new();
    let mut state: u64 = 0x2545F4914F6CDD1D;
    for _ in 0..4000 {
        state ^= state << 13;
        state ^= state >> 7;
        state ^= state << 17;
        let op: u64 = (state >> 8) % 6;
        let i: usize = ((state >> 16) % 64) as usize;
        let len: usize = ((state >> 32) % 9) as usize;
        match op {
            0 => {
                let was = model[i];
                assert_eq!(set.set_free(i), !was);
                model[i] = true;
            }
            1 => {
                let was = model[i];
                assert_eq!(set.set_used(i), was);
                model[i] = false;
            }
            2 => {
                let hi = if i + len < size { i + len } else { size - 1 };
                let all = (i..=hi).all(|j| model[j]);
                assert_eq!(set.set_range_free(Range { min: i, max: hi }), !all);
                for j in i..=hi {
                    model[j] = true;
                }
            }
            3 => {
                let want = (0..size).find(|j| model[*j]);
                assert_eq!(set.first(), want);
                assert_eq!(set.set_first_used(), want);
                if let Some(j) = want {
                    model[j] = false;
                }
            }
            4 => {
                let want = (0..size).rev().find(|j| model[*j]);
                assert_eq!(set.last(), want);
                assert_eq!(set.set_last_used(), want);
                if let Some(j) = want {
                    model[j] = false;
                }
            }
            _ => {
                assert_eq!(set.is_free(i), model[i]);
            }
        }
        assert!(well_formed(&set));
        let mut seen: Vec<bool> = vec![false; size];
        for (lo, hi) in pairs(&set) {
            for j in lo..=hi {
                seen[j] = true;
            }
        }
        assert_eq!(seen, model);
    }
}
