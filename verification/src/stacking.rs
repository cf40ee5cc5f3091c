//! Checks on the four answer bars: equal sizes, one column, stacked rows.

use vstd::prelude::*;
use vstd::seq_lib::{to_multiset_build, to_multiset_contains};
use crate::rect::Rect;

verus! {

/// Widths and left edges of the answer bars differ by no more than this many
/// pixels, and the gap between the first two is smaller than it.
pub const TOLERANCE: i64 = 3;

/// No two of `values` differ by more than `threshold`.
pub open spec fn spread_within(values: Seq<i64>, threshold: int) -> bool {
    forall|i: int, j: int|
        0 <= i < values.len() && 0 <= j < values.len() ==> #[trigger] values[i]
            - #[trigger] values[j] <= threshold
}

/// The widths of `rects`, in their order.
pub open spec fn widths_of(rects: Seq<Rect>) -> Seq<i64> {
    rects.map_values(|r: Rect| r.width as i64)
}

/// The left edges of `rects`, in their order.
pub open spec fn lefts_of(rects: Seq<Rect>) -> Seq<i64> {
    rects.map_values(|r: Rect| r.left as i64)
}

/// The distance from the right edge of the first rectangle to the left edge
/// of the second, negative where the second begins before the first ends.
pub open spec fn first_gap(rects: Seq<Rect>) -> int {
    rects[1].left - rects[0].spec_right()
}

/// The rectangles are equally wide, begin at the same column, each within
/// `TOLERANCE` pixels, and the gap between the first two, in the order given,
/// is smaller than `TOLERANCE` in either direction.
pub open spec fn spec_is_consistent(rects: Seq<Rect>) -> bool {
    &&& spread_within(widths_of(rects), TOLERANCE as int)
    &&& spread_within(lefts_of(rects), TOLERANCE as int)
    &&& -TOLERANCE < first_gap(rects) < TOLERANCE
}

/// Each rectangle begins at or below the top of the one before it.
pub open spec fn is_ordered_by_top(rects: Seq<Rect>) -> bool {
    forall|i: int, j: int| 0 <= i <= j < rects.len() ==> rects[i].top <= rects[j].top
}

/// Each rectangle begins below the last row of the one before it.
pub open spec fn spec_is_stacked(rects: Seq<Rect>) -> bool {
    forall|i: int| 1 <= i < rects.len() ==> rects[i - 1].spec_bottom() < (#[trigger] rects[i]).top
}

/// `sorted` with `r` put in behind the last rectangle that does not begin
/// below it.
pub open spec fn insert_by_top(sorted: Seq<Rect>, r: Rect) -> Seq<Rect>
    decreases sorted.len(),
{
    if sorted.len() == 0 {
        seq![r]
    } else if sorted.last().top <= r.top {
        sorted.push(r)
    } else {
        insert_by_top(sorted.drop_last(), r).push(sorted.last())
    }
}

/// The rectangles in the order of their tops, topmost first. Rectangles with
/// the same top keep the order they had.
pub open spec fn sorted_by_top(rects: Seq<Rect>) -> Seq<Rect>
    decreases rects.len(),
{
    if rects.len() == 0 {
        rects
    } else {
        insert_by_top(sorted_by_top(rects.drop_last()), rects.last())
    }
}

/// Putting a rectangle in is inserting it at the place behind which all
/// begin below it and before which the nearest does not.
pub proof fn lemma_insert_at(sorted: Seq<Rect>, r: Rect, pos: int)
    requires
        0 <= pos <= sorted.len(),
        forall|j: int| pos <= j < sorted.len() ==> (#[trigger] sorted[j]).top > r.top,
        pos > 0 ==> sorted[pos - 1].top <= r.top,
    ensures
        insert_by_top(sorted, r) == sorted.insert(pos, r),
    decreases sorted.len(),
{
    if sorted.len() == 0 {
        assert(seq![r] =~= sorted.insert(pos, r));
    } else if pos == sorted.len() {
        assert(sorted.push(r) =~= sorted.insert(pos, r));
    } else {
        let init = sorted.drop_last();
        assert(sorted[sorted.len() - 1].top > r.top);
        assert forall|j: int| pos <= j < init.len() implies (#[trigger] init[j]).top > r.top by {
            assert(init[j] == sorted[j]);
        }
        if pos > 0 {
            assert(init[pos - 1] == sorted[pos - 1]);
        }
        lemma_insert_at(init, r, pos);
        assert(init.insert(pos, r).push(sorted.last()) =~= sorted.insert(pos, r));
    }
}

/// Putting a rectangle into an ordered sequence leaves it ordered, and adds
/// that rectangle and no other.
pub proof fn lemma_insert_by_top(sorted: Seq<Rect>, r: Rect)
    requires
        is_ordered_by_top(sorted),
    ensures
        is_ordered_by_top(insert_by_top(sorted, r)),
        insert_by_top(sorted, r).to_multiset() == sorted.to_multiset().insert(r),
        insert_by_top(sorted, r).len() == sorted.len() + 1,
    decreases sorted.len(),
{
    broadcast use to_multiset_build;

    if sorted.len() == 0 {
        assert(seq![r] =~= sorted.push(r));
    } else if sorted.last().top <= r.top {
        let out = sorted.push(r);
        assert forall|i: int, j: int| 0 <= i <= j < out.len() implies out[i].top
            <= out[j].top by {
            if j == sorted.len() && i < sorted.len() {
                assert(sorted[i].top <= sorted[sorted.len() - 1].top);
            }
        }
    } else {
        let init = sorted.drop_last();
        let last = sorted.last();
        assert forall|i: int, j: int| 0 <= i <= j < init.len() implies init[i].top
            <= init[j].top by {
            assert(init[i] == sorted[i] && init[j] == sorted[j]);
        }
        lemma_insert_by_top(init, r);
        let mid = insert_by_top(init, r);
        let out = mid.push(last);
        assert forall|k: int| 0 <= k < mid.len() implies (#[trigger] mid[k]).top <= last.top by {
            to_multiset_contains(mid, mid[k]);
            assert(mid.contains(mid[k]));
            assert(init.to_multiset().insert(r).count(mid[k]) > 0);
            if mid[k] != r {
                to_multiset_contains(init, mid[k]);
                let t = choose|t: int| 0 <= t < init.len() && init[t] == mid[k];
                assert(sorted[t].top <= sorted[sorted.len() - 1].top);
            }
        }
        assert forall|i: int, j: int| 0 <= i <= j < out.len() implies out[i].top
            <= out[j].top by {
            if j == mid.len() && i < mid.len() {
                assert(out[i] == mid[i]);
            }
        }
        assert(sorted =~= init.push(last));
        assert(out.to_multiset() =~= sorted.to_multiset().insert(r));
    }
}

/// The sorted sequence is ordered by top and holds the same rectangles, each
/// as often as before.
pub proof fn sorted_by_top_is_a_sort(rects: Seq<Rect>)
    ensures
        is_ordered_by_top(sorted_by_top(rects)),
        sorted_by_top(rects).to_multiset() == rects.to_multiset(),
        sorted_by_top(rects).len() == rects.len(),
    decreases rects.len(),
{
    broadcast use to_multiset_build;

    if rects.len() > 0 {
        let init = rects.drop_last();
        sorted_by_top_is_a_sort(init);
        lemma_insert_by_top(sorted_by_top(init), rects.last());
        assert(rects =~= init.push(rects.last()));
    }
}

/// Sorting leaves a sequence that is ordered by top as it is.
pub proof fn sorted_by_top_keeps_ordered(rects: Seq<Rect>)
    requires
        is_ordered_by_top(rects),
    ensures
        sorted_by_top(rects) == rects,
    decreases rects.len(),
{
    if rects.len() > 0 {
        let init = rects.drop_last();
        assert forall|i: int, j: int| 0 <= i <= j < init.len() implies init[i].top
            <= init[j].top by {
            assert(init[i] == rects[i] && init[j] == rects[j]);
        }
        sorted_by_top_keeps_ordered(init);
        if init.len() > 0 {
            assert(init.last() == rects[rects.len() - 2]);
            assert(rects[rects.len() - 2].top <= rects[rects.len() - 1].top);
        }
        assert(insert_by_top(init, rects.last()) =~= rects);
    }
}

/// Rectangles whose left edges are more than `TOLERANCE` columns apart are
/// not consistent.
pub proof fn shifted_left_edge_is_inconsistent(rects: Seq<Rect>, i: int, j: int)
    requires
        0 <= i < rects.len(),
        0 <= j < rects.len(),
        rects[i].left - rects[j].left > TOLERANCE,
    ensures
        !spec_is_consistent(rects),
{
    let lefts = lefts_of(rects);
    assert(lefts[i] - lefts[j] > TOLERANCE);
}

/// Among consistent rectangles the first, in the order given, is less than
/// `2 * TOLERANCE + 1` pixels wide: the second begins within `TOLERANCE`
/// columns of the left edge of the first, and within less than `TOLERANCE`
/// columns of its right edge.
pub proof fn consistent_first_is_narrow(rects: Seq<Rect>)
    requires
        rects.len() >= 2,
        spec_is_consistent(rects),
    ensures
        rects[0].width < 2 * TOLERANCE + 1,
{
    let lefts = lefts_of(rects);
    assert(lefts[1] - lefts[0] <= TOLERANCE);
}

/// Whether no two of `data` differ by more than `threshold`. An empty list
/// has no two that differ.
pub fn is_difference_small(data: &Vec<i64>, threshold: i64) -> (small: bool)
    ensures
        small == spread_within(data@, threshold as int),
{
    let n = data.len();
    if n == 0 {
        return true;
    }
    let mut lo: i64 = data[0];
    let mut hi: i64 = data[0];
    let ghost mut lo_at: int = 0;
    let ghost mut hi_at: int = 0;
    let mut i: usize = 1;
    while i < n
        invariant
            1 <= i <= n,
            n == data@.len(),
            0 <= lo_at < i,
            0 <= hi_at < i,
            lo == data@[lo_at],
            hi == data@[hi_at],
            forall|k: int| 0 <= k < i ==> lo <= #[trigger] data@[k] <= hi,
        decreases n - i,
    {
        let val = data[i];
        if val < lo {
            lo = val;
            proof {
                lo_at = i as int;
            }
        }
        if val > hi {
            hi = val;
            proof {
                hi_at = i as int;
            }
        }
        i += 1;
    }
    let small = hi as i128 - lo as i128 <= threshold as i128;
    proof {
        if small {
            assert forall|a: int, b: int|
                0 <= a < data@.len() && 0 <= b < data@.len() implies #[trigger] data@[a]
                - #[trigger] data@[b] <= threshold by {
                assert(data@[a] <= hi && lo <= data@[b]);
            }
        } else {
            assert(data@[hi_at] - data@[lo_at] > threshold);
        }
    }
    small
}

/// Whether the rectangles are equally wide, begin at the same column, and
/// the first two, in the order given, meet edge to edge.
pub fn is_consistent(rects: &Vec<Rect>) -> (ok: bool)
    requires
        rects@.len() >= 2,
    ensures
        ok == spec_is_consistent(rects@),
{
    let n = rects.len();
    let mut widths: Vec<i64> = Vec::new();
    let mut lefts: Vec<i64> = Vec::new();
    let mut i: usize = 0;
    while i < n
        invariant
            i <= n,
            n == rects@.len(),
            widths@ == widths_of(rects@.take(i as int)),
            lefts@ == lefts_of(rects@.take(i as int)),
        decreases n - i,
    {
        let r = rects[i];
        proof {
            assert(rects@.take(i + 1) =~= rects@.take(i as int).push(r));
            assert(widths_of(rects@.take(i + 1)) =~= widths@.push(r.width as i64));
            assert(lefts_of(rects@.take(i + 1)) =~= lefts@.push(r.left as i64));
        }
        widths.push(r.width as i64);
        lefts.push(r.left as i64);
        i += 1;
    }
    proof {
        assert(rects@.take(n as int) == rects@);
    }
    let same_w = is_difference_small(&widths, TOLERANCE);
    let same_l = is_difference_small(&lefts, TOLERANCE);
    let gap: i64 = rects[1].left as i64 - rects[0].right();
    let same_lr_pad = -TOLERANCE < gap && gap < TOLERANCE;
    same_w && same_l && same_lr_pad
}

/// The rectangles in the order of their tops, topmost first; rectangles with
/// the same top keep the order they had.
pub fn sort_by_top(rects: &Vec<Rect>) -> (sorted: Vec<Rect>)
    ensures
        sorted@ == sorted_by_top(rects@),
        is_ordered_by_top(sorted@),
        sorted@.len() == rects@.len(),
        sorted@.to_multiset() == rects@.to_multiset(),
        forall|i: int| 0 <= i < sorted@.len() ==> rects@.contains(#[trigger] sorted@[i]),
{
    let mut sorted: Vec<Rect> = Vec::new();
    let n = rects.len();
    let mut i: usize = 0;
    assert(rects@.take(0) =~= Seq::<Rect>::empty());
    while i < n
        invariant
            i <= n,
            n == rects@.len(),
            sorted@ == sorted_by_top(rects@.take(i as int)),
        decreases n - i,
    {
        let r = rects[i];
        let mut pos: usize = sorted.len();
        while pos > 0 && sorted[pos - 1].top > r.top
            invariant
                pos <= sorted@.len(),
                forall|j: int| pos <= j < sorted@.len() ==> (#[trigger] sorted@[j]).top > r.top,
            decreases pos,
        {
            pos -= 1;
        }
        proof {
            let next = rects@.take(i + 1);
            assert(next.drop_last() == rects@.take(i as int));
            assert(next.last() == r);
            lemma_insert_at(sorted@, r, pos as int);
        }
        sorted.insert(pos, r);
        i += 1;
    }
    proof {
        assert(rects@.take(n as int) == rects@);
        sorted_by_top_is_a_sort(rects@);
        assert forall|k: int| 0 <= k < sorted@.len() implies rects@.contains(
            #[trigger] sorted@[k],
        ) by {
            assert(sorted@.contains(sorted@[k]));
            to_multiset_contains(sorted@, sorted@[k]);
            to_multiset_contains(rects@, sorted@[k]);
        }
    }
    sorted
}

/// Whether each rectangle begins below the last row of the one before it.
pub fn is_stacked(rects: &Vec<Rect>) -> (ok: bool)
    ensures
        ok == spec_is_stacked(rects@),
{
    let n = rects.len();
    let mut i: usize = 1;
    while i < n
        invariant
            1 <= i,
            n == rects@.len(),
            forall|k: int| 1 <= k < i && k < n ==> rects@[k - 1].spec_bottom() < (
            #[trigger] rects@[k]).top,
        decreases n - i,
    {
        if rects[i - 1].bottom() >= rects[i].top as i64 {
            return false;
        }
        i += 1;
    }
    true
}

} // verus!
