//! Greedy suppression of overlapping rectangles.

use vstd::prelude::*;
use crate::rect::{Rect, iou_is_symmetric};

verus! {

/// Two rectangles are duplicates of each other where their intersection over
/// union is above `DUPLICATE_NUM / DUPLICATE_DEN`, that is above 0.6.
pub const DUPLICATE_NUM: u32 = 3;

pub const DUPLICATE_DEN: u32 = 5;

/// The intersection over union of `a` and `b` is above 0.6.
pub open spec fn is_duplicate(a: Rect, b: Rect) -> bool {
    a.spec_iou(b).spec_exceeds(DUPLICATE_NUM as int, DUPLICATE_DEN as int)
}

/// The index of the first rectangle in `accepted` of which `cand` is a
/// duplicate, or `accepted.len()` where there is none.
pub open spec fn first_duplicate(accepted: Seq<Rect>, cand: Rect) -> int
    decreases accepted.len(),
{
    if accepted.len() == 0 {
        0
    } else {
        let k = first_duplicate(accepted.drop_last(), cand);
        if k < accepted.len() - 1 {
            k
        } else if is_duplicate(cand, accepted.last()) {
            accepted.len() - 1
        } else {
            accepted.len() as int
        }
    }
}

/// The accepted list after `cand` has been considered. Where `cand` is no
/// duplicate it is added at the end. Where it is, only the first rectangle
/// that it duplicates is looked at: `cand` takes its place if `cand` covers
/// strictly more pixels, and is dropped otherwise.
pub open spec fn nms_step(accepted: Seq<Rect>, cand: Rect) -> Seq<Rect> {
    let k = first_duplicate(accepted, cand);
    if k == accepted.len() {
        accepted.push(cand)
    } else if cand.spec_area() > accepted[k].spec_area() {
        accepted.update(k, cand)
    } else {
        accepted
    }
}

/// The rectangles that are left after one pass over `rects` in order,
/// starting from an empty accepted list.
pub open spec fn nms_spec(rects: Seq<Rect>) -> Seq<Rect>
    decreases rects.len(),
{
    if rects.len() == 0 {
        Seq::empty()
    } else {
        nms_step(nms_spec(rects.drop_last()), rects.last())
    }
}

/// `first_duplicate` is the least index at which `cand` is a duplicate.
pub proof fn lemma_first_duplicate(accepted: Seq<Rect>, cand: Rect)
    ensures
        0 <= first_duplicate(accepted, cand) <= accepted.len(),
        forall|j: int|
            0 <= j < first_duplicate(accepted, cand) ==> !is_duplicate(
                cand,
                #[trigger] accepted[j],
            ),
        first_duplicate(accepted, cand) < accepted.len() ==> is_duplicate(
            cand,
            accepted[first_duplicate(accepted, cand)],
        ),
    decreases accepted.len(),
{
    if accepted.len() > 0 {
        let init = accepted.drop_last();
        lemma_first_duplicate(init, cand);
        assert forall|j: int| 0 <= j < first_duplicate(accepted, cand) implies !is_duplicate(
            cand,
            #[trigger] accepted[j],
        ) by {
            if j < init.len() {
                assert(accepted[j] == init[j]);
            }
        }
        let k = first_duplicate(init, cand);
        if k < init.len() {
            assert(accepted[k] == init[k]);
        }
    }
}

/// An index with a duplicate before which there is none is the first.
pub proof fn lemma_first_duplicate_is(accepted: Seq<Rect>, cand: Rect, k: int)
    requires
        0 <= k <= accepted.len(),
        forall|j: int| 0 <= j < k ==> !is_duplicate(cand, #[trigger] accepted[j]),
        k < accepted.len() ==> is_duplicate(cand, accepted[k]),
    ensures
        first_duplicate(accepted, cand) == k,
{
    lemma_first_duplicate(accepted, cand);
    let f = first_duplicate(accepted, cand);
    if f < k {
        assert(!is_duplicate(cand, accepted[f]));
    }
}

/// One pass never lengthens the list, and leaves only rectangles that were
/// put in.
pub proof fn nms_keeps_inputs(rects: Seq<Rect>)
    ensures
        nms_spec(rects).len() <= rects.len(),
        rects.len() > 0 ==> nms_spec(rects).len() > 0,
        forall|i: int|
            0 <= i < nms_spec(rects).len() ==> rects.contains(#[trigger] nms_spec(rects)[i]),
    decreases rects.len(),
{
    if rects.len() > 0 {
        let init = rects.drop_last();
        let prev = nms_spec(init);
        let cand = rects.last();
        nms_keeps_inputs(init);
        lemma_first_duplicate(prev, cand);
        let out = nms_spec(rects);
        assert forall|i: int| 0 <= i < out.len() implies rects.contains(#[trigger] out[i]) by {
            if out[i] == cand {
                assert(rects[rects.len() - 1] == cand);
            } else {
                assert(out[i] == prev[i]);
                assert(init.contains(prev[i]));
                let j = choose|j: int| 0 <= j < init.len() && init[j] == prev[i];
                assert(rects[j] == prev[i]);
            }
        }
    }
}

/// Rectangles of which no two share a pixel pass through unchanged, in their
/// order.
pub proof fn nms_of_disjoint_is_identity(rects: Seq<Rect>)
    requires
        forall|i: int, j: int|
            0 <= i < j < rects.len() ==> (#[trigger] rects[i]).spec_iou(
                #[trigger] rects[j],
            ).intersection == 0,
    ensures
        nms_spec(rects) == rects,
    decreases rects.len(),
{
    if rects.len() > 0 {
        let init = rects.drop_last();
        let cand = rects.last();
        assert forall|i: int, j: int| 0 <= i < j < init.len() implies (#[trigger] init[i]).spec_iou(
            #[trigger] init[j],
        ).intersection == 0 by {
            assert(init[i] == rects[i] && init[j] == rects[j]);
        }
        nms_of_disjoint_is_identity(init);
        assert forall|j: int| 0 <= j < init.len() implies !is_duplicate(
            cand,
            #[trigger] init[j],
        ) by {
            assert(init[j] == rects[j]);
            assert(rects[j].spec_iou(rects[rects.len() - 1]).intersection == 0);
            iou_is_symmetric(cand, init[j]);
        }
        lemma_first_duplicate_is(init, cand, init.len() as int);
        assert(init.push(cand) =~= rects);
    }
}

/// Of two rectangles whose intersection over union is above 0.6 exactly one
/// is left: the second where it covers strictly more pixels, the first
/// otherwise.
pub proof fn nms_of_duplicates_keeps_larger(a: Rect, b: Rect)
    requires
        is_duplicate(a, b),
    ensures
        nms_spec(seq![a, b]) == if b.spec_area() > a.spec_area() {
            seq![b]
        } else {
            seq![a]
        },
{
    let pair = seq![a, b];
    let one = seq![a];
    assert(pair.drop_last() =~= one);
    assert(one.drop_last() =~= Seq::<Rect>::empty());
    assert(nms_spec(Seq::<Rect>::empty()) =~= Seq::<Rect>::empty());
    assert(first_duplicate(Seq::<Rect>::empty(), a) == 0);
    assert(nms_spec(one) =~= one) by {
        assert(nms_spec(one) == nms_step(nms_spec(one.drop_last()), one.last()));
        assert(Seq::<Rect>::empty().push(a) =~= one);
    }
    iou_is_symmetric(a, b);
    lemma_first_duplicate_is(one, b, 0);
    assert(nms_spec(pair) == nms_step(nms_spec(pair.drop_last()), pair.last()));
    assert(one.update(0, b) =~= seq![b]);
}

/// Greedy non-maximum suppression in one pass over `rects`, in their order.
/// Each rectangle is compared with those accepted so far, first to last, and
/// only the first of which it is a duplicate decides: the newcomer replaces
/// that rectangle in place if it covers strictly more pixels and is dropped
/// otherwise. A rectangle that duplicates none is accepted at the end.
pub fn nms(rects: &Vec<Rect>) -> (res: Vec<Rect>)
    ensures
        res@ == nms_spec(rects@),
        res@.len() <= rects@.len(),
        forall|i: int| 0 <= i < res@.len() ==> rects@.contains(#[trigger] res@[i]),
{
    let mut res: Vec<Rect> = Vec::new();
    let n = rects.len();
    let mut idx: usize = 0;
    assert(rects@.take(0) =~= Seq::<Rect>::empty());
    while idx < n
        invariant
            idx <= n,
            n == rects@.len(),
            res@ == nms_spec(rects@.take(idx as int)),
        decreases n - idx,
    {
        let src = rects[idx];
        let m = res.len();
        let mut j: usize = 0;
        let mut found = false;
        while j < m
            invariant_except_break
                !found,
            invariant
                j <= m,
                m == res@.len(),
                forall|t: int| 0 <= t < j ==> !is_duplicate(src, #[trigger] res@[t]),
                found ==> j < m && is_duplicate(src, res@[j as int]),
            ensures
                found || j == m,
            decreases m - j,
        {
            let overlap = src.iou(&res[j]);
            if overlap.exceeds(DUPLICATE_NUM, DUPLICATE_DEN) {
                found = true;
                break ;
            }
            j += 1;
        }
        proof {
            let prefix = rects@.take(idx as int);
            let next = rects@.take(idx + 1);
            assert(next.drop_last() == prefix);
            assert(next.last() == src);
            lemma_first_duplicate_is(res@, src, j as int);
        }
        if found {
            if src.area() > res[j].area() {
                res.set(j, src);
            }
        } else {
            res.push(src);
        }
        idx += 1;
    }
    proof {
        assert(rects@.take(n as int) == rects@);
        nms_keeps_inputs(rects@);
    }
    res
}

} // verus!
