//! Choosing the rectangles that may be answer bars.

use vstd::prelude::*;
use crate::contour::{
    Contour, bounding_rect, contours_view, extent_fits, lemma_extremes, max_x, max_y, min_x,
    min_y, spec_bounding_rect,
};
use crate::rect::{Point, Rect};

verus! {

/// An answer bar is at least this many times as wide as it is high.
pub const ASPECT_MIN: u32 = 5;

/// An answer bar is at most this many times as wide as it is high.
pub const ASPECT_MAX: u32 = 8;

/// Every point lies on a pixel of an image of `width` by `height` pixels.
pub open spec fn contours_within(contours: Seq<Seq<Point>>, width: int, height: int) -> bool {
    forall|c: int, p: int|
        0 <= c < contours.len() && 0 <= p < contours[c].len() ==> {
            &&& 0 <= (#[trigger] contours[c][p]).x < width
            &&& 0 <= contours[c][p].y < height
        }
}

/// `r` lies within an image of `width` by `height` pixels and covers a pixel.
pub open spec fn rect_within(r: Rect, width: int, height: int) -> bool {
    &&& 0 <= r.left
    &&& 0 <= r.top
    &&& r.width > 0
    &&& r.height > 0
    &&& r.left + r.width <= width
    &&& r.top + r.height <= height
}

/// A contour is a candidate where it has at least as many points as the
/// image is wide and its bounding rectangle spans at least half the image
/// width, rounded down. A contour without points is none.
pub open spec fn is_candidate(points: Seq<Point>, img_w: int) -> bool {
    &&& points.len() > 0
    &&& points.len() >= img_w
    &&& spec_bounding_rect(points).width >= img_w / 2
}

/// The bounding rectangles of the candidates among `contours`, in their
/// order.
pub open spec fn spec_candidate_rects(contours: Seq<Seq<Point>>, img_w: int) -> Seq<Rect> {
    contours.filter(|points: Seq<Point>| is_candidate(points, img_w)).map_values(
        |points: Seq<Point>| spec_bounding_rect(points),
    )
}

/// `r` has the shape of an answer bar: its width is between `ASPECT_MIN` and
/// `ASPECT_MAX` times its height, both included. A rectangle without height
/// has no such shape.
pub open spec fn is_bar_shaped(r: Rect) -> bool {
    &&& r.height > 0
    &&& ASPECT_MIN * r.height <= r.width <= ASPECT_MAX * r.height
}

/// The rectangles of `rects` that have the shape of an answer bar, in their
/// order.
pub open spec fn spec_bar_shaped(rects: Seq<Rect>) -> Seq<Rect> {
    rects.filter(|r: Rect| is_bar_shaped(r))
}

/// The bounding rectangle of points within an image lies within the image.
pub proof fn lemma_bounding_rect_within(points: Seq<Point>, width: int, height: int)
    requires
        points.len() > 0,
        width <= u32::MAX,
        height <= u32::MAX,
        forall|p: int|
            0 <= p < points.len() ==> 0 <= (#[trigger] points[p]).x < width && 0 <= points[p].y
                < height,
    ensures
        extent_fits(points),
        rect_within(spec_bounding_rect(points), width, height),
{
    lemma_extremes(points);
    let a = choose|i: int| 0 <= i < points.len() && (#[trigger] points[i]).x == min_x(points);
    let b = choose|i: int| 0 <= i < points.len() && (#[trigger] points[i]).x == max_x(points);
    let c = choose|i: int| 0 <= i < points.len() && (#[trigger] points[i]).y == min_y(points);
    let d = choose|i: int| 0 <= i < points.len() && (#[trigger] points[i]).y == max_y(points);
    assert(0 <= points[a].x && points[b].x < width);
    assert(0 <= points[c].y && points[d].y < height);
    assert(points[a].x <= points[b].x);
    assert(points[c].y <= points[d].y);
}

/// The candidates of one more contour.
proof fn lemma_candidates_push(contours: Seq<Seq<Point>>, points: Seq<Point>, img_w: int)
    ensures
        spec_candidate_rects(contours.push(points), img_w) == if is_candidate(points, img_w) {
            spec_candidate_rects(contours, img_w).push(spec_bounding_rect(points))
        } else {
            spec_candidate_rects(contours, img_w)
        },
{
    let pred = |points: Seq<Point>| is_candidate(points, img_w);
    contours.lemma_filter_push(points, pred);
    if is_candidate(points, img_w) {
        assert(spec_candidate_rects(contours.push(points), img_w) =~= spec_candidate_rects(
            contours,
            img_w,
        ).push(spec_bounding_rect(points)));
    }
}

/// Keeps the contours that may outline an answer bar and gives their
/// bounding rectangles, in the order of the contours.
pub fn candidate_rects(contours: &Vec<Contour>, width: u32, height: u32) -> (rects: Vec<Rect>)
    requires
        contours_within(contours_view(contours@), width as int, height as int),
    ensures
        rects@ == spec_candidate_rects(contours_view(contours@), width as int),
        forall|i: int|
            0 <= i < rects@.len() ==> rect_within(#[trigger] rects@[i], width as int, height as int),
{
    let mut rects: Vec<Rect> = Vec::new();
    let ghost cv = contours_view(contours@);
    let n = contours.len();
    let mut c: usize = 0;
    proof {
        assert(cv.take(0) =~= Seq::<Seq<Point>>::empty());
        reveal(Seq::filter);
        assert(spec_candidate_rects(cv.take(0), width as int) =~= Seq::<Rect>::empty());
    }
    while c < n
        invariant
            c <= n,
            n == contours@.len(),
            cv == contours_view(contours@),
            contours_within(cv, width as int, height as int),
            rects@ == spec_candidate_rects(cv.take(c as int), width as int),
            forall|i: int|
                0 <= i < rects@.len() ==> rect_within(
                    #[trigger] rects@[i],
                    width as int,
                    height as int,
                ),
        decreases n - c,
    {
        let contour = &contours[c];
        let count = contour.points.len();
        proof {
            assert(contour@ == cv[c as int]);
            assert(cv.take(c + 1) =~= cv.take(c as int).push(contour@));
            lemma_candidates_push(cv.take(c as int), contour@, width as int);
            if count > 0 {
                assert forall|p: int| 0 <= p < contour@.len() implies 0 <= (
                #[trigger] contour@[p]).x < width && 0 <= contour@[p].y < height by {
                    assert(contour@[p] == cv[c as int][p]);
                }
                lemma_bounding_rect_within(contour@, width as int, height as int);
            }
        }
        if count > 0 && count as u64 >= width as u64 {
            let rect = bounding_rect(contour);
            if rect.width >= width / 2 {
                rects.push(rect);
            }
        }
        c += 1;
    }
    proof {
        assert(cv.take(n as int) == cv);
    }
    rects
}

/// Keeps the rectangles that have the shape of an answer bar, in their order.
pub fn keep_bar_shaped(rects: &Vec<Rect>) -> (kept: Vec<Rect>)
    ensures
        kept@ == spec_bar_shaped(rects@),
        forall|i: int|
            0 <= i < kept@.len() ==> rects@.contains(#[trigger] kept@[i]) && is_bar_shaped(
                kept@[i],
            ),
{
    let mut kept: Vec<Rect> = Vec::new();
    let n = rects.len();
    let mut i: usize = 0;
    proof {
        assert(rects@.take(0) =~= Seq::<Rect>::empty());
        reveal(Seq::filter);
        assert(spec_bar_shaped(rects@.take(0)) =~= Seq::<Rect>::empty());
    }
    while i < n
        invariant
            i <= n,
            n == rects@.len(),
            kept@ == spec_bar_shaped(rects@.take(i as int)),
            forall|k: int|
                0 <= k < kept@.len() ==> rects@.contains(#[trigger] kept@[k]) && is_bar_shaped(
                    kept@[k],
                ),
        decreases n - i,
    {
        let r = rects[i];
        proof {
            assert(rects@.take(i + 1) =~= rects@.take(i as int).push(r));
            rects@.take(i as int).lemma_filter_push(r, |r: Rect| is_bar_shaped(r));
            assert(rects@.contains(r));
        }
        let w = r.width as u64;
        let h = r.height as u64;
        if h > 0 && ASPECT_MIN as u64 * h <= w && w <= ASPECT_MAX as u64 * h {
            kept.push(r);
        }
        i += 1;
    }
    proof {
        assert(rects@.take(n as int) == rects@);
    }
    kept
}

} // verus!
