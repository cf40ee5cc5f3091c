//! Contours and their bounding rectangles.

use vstd::prelude::*;
use crate::rect::{Point, Rect, spec_max, spec_min};

verus! {

/// A traced edge: the pixels of one boundary, in tracing order.
#[derive(Debug)]
pub struct Contour {
    pub points: Vec<Point>,
}

impl View for Contour {
    type V = Seq<Point>;

    open spec fn view(&self) -> Seq<Point> {
        self.points@
    }
}

/// The points of each contour of a list.
pub open spec fn contours_view(contours: Seq<Contour>) -> Seq<Seq<Point>> {
    contours.map_values(|c: Contour| c@)
}

/// The smallest `x` among `points`; defined for a non-empty sequence.
pub open spec fn min_x(points: Seq<Point>) -> int
    decreases points.len(),
{
    if points.len() <= 1 {
        points[0].x as int
    } else {
        spec_min(min_x(points.drop_last()), points.last().x as int)
    }
}

/// The largest `x` among `points`; defined for a non-empty sequence.
pub open spec fn max_x(points: Seq<Point>) -> int
    decreases points.len(),
{
    if points.len() <= 1 {
        points[0].x as int
    } else {
        spec_max(max_x(points.drop_last()), points.last().x as int)
    }
}

/// The smallest `y` among `points`; defined for a non-empty sequence.
pub open spec fn min_y(points: Seq<Point>) -> int
    decreases points.len(),
{
    if points.len() <= 1 {
        points[0].y as int
    } else {
        spec_min(min_y(points.drop_last()), points.last().y as int)
    }
}

/// The largest `y` among `points`; defined for a non-empty sequence.
pub open spec fn max_y(points: Seq<Point>) -> int
    decreases points.len(),
{
    if points.len() <= 1 {
        points[0].y as int
    } else {
        spec_max(max_y(points.drop_last()), points.last().y as int)
    }
}

/// The horizontal and the vertical extent of `points` each fit in 32 bits.
/// This fails only where the points reach from one end of the `i32` range to
/// the other.
pub open spec fn extent_fits(points: Seq<Point>) -> bool {
    &&& max_x(points) - min_x(points) < u32::MAX
    &&& max_y(points) - min_y(points) < u32::MAX
}

/// The smallest rectangle that covers every point of a non-empty sequence.
pub open spec fn spec_bounding_rect(points: Seq<Point>) -> Rect {
    Rect {
        left: min_x(points) as i32,
        top: min_y(points) as i32,
        width: (max_x(points) - min_x(points) + 1) as u32,
        height: (max_y(points) - min_y(points) + 1) as u32,
    }
}

/// `r` covers every point, and on each of its four sides lies a point.
pub open spec fn is_tight(points: Seq<Point>, r: Rect) -> bool {
    &&& forall|i: int| 0 <= i < points.len() ==> r.spec_contains(#[trigger] points[i])
    &&& exists|i: int| 0 <= i < points.len() && (#[trigger] points[i]).x == r.left
    &&& exists|i: int| 0 <= i < points.len() && (#[trigger] points[i]).x == r.spec_right()
    &&& exists|i: int| 0 <= i < points.len() && (#[trigger] points[i]).y == r.top
    &&& exists|i: int| 0 <= i < points.len() && (#[trigger] points[i]).y == r.spec_bottom()
}

/// Each extreme coordinate bounds every point and is reached by one of them.
pub proof fn lemma_extremes(points: Seq<Point>)
    requires
        points.len() > 0,
    ensures
        forall|i: int|
            0 <= i < points.len() ==> min_x(points) <= (#[trigger] points[i]).x <= max_x(points),
        forall|i: int|
            0 <= i < points.len() ==> min_y(points) <= (#[trigger] points[i]).y <= max_y(points),
        exists|i: int| 0 <= i < points.len() && (#[trigger] points[i]).x == min_x(points),
        exists|i: int| 0 <= i < points.len() && (#[trigger] points[i]).x == max_x(points),
        exists|i: int| 0 <= i < points.len() && (#[trigger] points[i]).y == min_y(points),
        exists|i: int| 0 <= i < points.len() && (#[trigger] points[i]).y == max_y(points),
    decreases points.len(),
{
    if points.len() == 1 {
        assert(points[0].x == min_x(points));
        assert(points[0].x == max_x(points));
        assert(points[0].y == min_y(points));
        assert(points[0].y == max_y(points));
    } else {
        let init = points.drop_last();
        let n = points.len() - 1;
        lemma_extremes(init);
        assert forall|i: int| 0 <= i < points.len() implies min_x(points) <= (
        #[trigger] points[i]).x <= max_x(points) && min_y(points) <= points[i].y <= max_y(
            points,
        ) by {
            if i < n {
                assert(points[i] == init[i]);
            }
        }
        let a = choose|i: int| 0 <= i < init.len() && (#[trigger] init[i]).x == min_x(init);
        let b = choose|i: int| 0 <= i < init.len() && (#[trigger] init[i]).x == max_x(init);
        let c = choose|i: int| 0 <= i < init.len() && (#[trigger] init[i]).y == min_y(init);
        let d = choose|i: int| 0 <= i < init.len() && (#[trigger] init[i]).y == max_y(init);
        assert(points[a] == init[a] && points[b] == init[b]);
        assert(points[c] == init[c] && points[d] == init[d]);
        assert(points[a].x == min_x(points) || points[n].x == min_x(points));
        assert(points[b].x == max_x(points) || points[n].x == max_x(points));
        assert(points[c].y == min_y(points) || points[n].y == min_y(points));
        assert(points[d].y == max_y(points) || points[n].y == max_y(points));
    }
}

/// The bounding rectangle of a non-empty contour covers each of its points
/// and has a point on each of its four sides.
pub proof fn bounding_rect_is_tight(points: Seq<Point>)
    requires
        points.len() > 0,
        extent_fits(points),
    ensures
        is_tight(points, spec_bounding_rect(points)),
{
    lemma_extremes(points);
    let r = spec_bounding_rect(points);
    let a = choose|i: int| 0 <= i < points.len() && (#[trigger] points[i]).x == min_x(points);
    let c = choose|i: int| 0 <= i < points.len() && (#[trigger] points[i]).y == min_y(points);
    assert(r.left == min_x(points));
    assert(r.top == min_y(points));
    assert(r.spec_right() == max_x(points));
    assert(r.spec_bottom() == max_y(points));
}

/// A rectangle that is tight around a non-empty sequence of points is its
/// bounding rectangle: there is no other.
pub proof fn tight_rect_is_unique(points: Seq<Point>, r: Rect)
    requires
        points.len() > 0,
        is_tight(points, r),
    ensures
        extent_fits(points),
        r == spec_bounding_rect(points),
{
    lemma_extremes(points);
    let a = choose|i: int| 0 <= i < points.len() && (#[trigger] points[i]).x == r.left;
    let b = choose|i: int| 0 <= i < points.len() && (#[trigger] points[i]).x == r.spec_right();
    let c = choose|i: int| 0 <= i < points.len() && (#[trigger] points[i]).y == r.top;
    let d = choose|i: int| 0 <= i < points.len() && (#[trigger] points[i]).y == r.spec_bottom();
    let a2 = choose|i: int| 0 <= i < points.len() && (#[trigger] points[i]).x == min_x(points);
    let b2 = choose|i: int| 0 <= i < points.len() && (#[trigger] points[i]).x == max_x(points);
    let c2 = choose|i: int| 0 <= i < points.len() && (#[trigger] points[i]).y == min_y(points);
    let d2 = choose|i: int| 0 <= i < points.len() && (#[trigger] points[i]).y == max_y(points);
    assert(r.spec_contains(points[a2]) && r.spec_contains(points[b2]));
    assert(r.spec_contains(points[c2]) && r.spec_contains(points[d2]));
    assert(points[a].x >= min_x(points) && points[b].x <= max_x(points));
    assert(points[c].y >= min_y(points) && points[d].y <= max_y(points));
}

/// The bounding rectangle of a non-empty contour: it spans the columns from
/// the smallest to the largest `x` and the rows from the smallest to the
/// largest `y`, both ends included.
pub fn bounding_rect(contour: &Contour) -> (r: Rect)
    requires
        contour@.len() > 0,
        extent_fits(contour@),
    ensures
        r == spec_bounding_rect(contour@),
        is_tight(contour@, r),
{
    let first = contour.points[0];
    let mut lo_x: i32 = first.x;
    let mut lo_y: i32 = first.y;
    let mut hi_x: i32 = first.x;
    let mut hi_y: i32 = first.y;
    let n = contour.points.len();
    let mut i: usize = 1;
    assert(contour@.take(1).len() == 1);
    while i < n
        invariant
            1 <= i <= n,
            n == contour@.len(),
            lo_x == min_x(contour@.take(i as int)),
            lo_y == min_y(contour@.take(i as int)),
            hi_x == max_x(contour@.take(i as int)),
            hi_y == max_y(contour@.take(i as int)),
        decreases n - i,
    {
        let point = contour.points[i];
        proof {
            let next = contour@.take(i + 1);
            assert(next.drop_last() == contour@.take(i as int));
            assert(next.last() == point);
        }
        if point.x < lo_x {
            lo_x = point.x;
        }
        if point.y < lo_y {
            lo_y = point.y;
        }
        if point.x > hi_x {
            hi_x = point.x;
        }
        if point.y > hi_y {
            hi_y = point.y;
        }
        i += 1;
    }
    proof {
        assert(contour@.take(n as int) == contour@);
        bounding_rect_is_tight(contour@);
    }
    let width: i64 = hi_x as i64 - lo_x as i64 + 1;
    let height: i64 = hi_y as i64 - lo_y as i64 + 1;
    Rect { left: lo_x, top: lo_y, width: width as u32, height: height as u32 }
}

} // verus!
