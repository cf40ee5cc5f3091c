//! Locating the question region from the density of contour points per row.

use vstd::prelude::*;
use vstd::arithmetic::div_mod::lemma_mod_multiples_basic;
use crate::contour::{Contour, contours_view};
use crate::rect::{Point, Rect};

verus! {

/// A row counts as content where it holds at least this many contour points.
pub const DENSITY_THRESHOLD: u32 = 42;

/// The height of the question region is a multiple of this many rows.
pub const ALIGN: usize = 28;

/// The largest row below the first answer bar for which the top of the
/// question region, after alignment, still fits in an `i32`.
pub const MAX_CENTER: usize = 0x7fff_ffd6;

/// The number of `points` that lie on row `y`.
pub open spec fn points_on_row(points: Seq<Point>, y: int) -> nat
    decreases points.len(),
{
    if points.len() == 0 {
        0
    } else {
        points_on_row(points.drop_last(), y) + if points.last().y == y {
            1nat
        } else {
            0nat
        }
    }
}

/// The number of points of all `contours` that lie on row `y`.
pub open spec fn row_count(contours: Seq<Seq<Point>>, y: int) -> nat
    decreases contours.len(),
{
    if contours.len() == 0 {
        0
    } else {
        row_count(contours.drop_last(), y) + points_on_row(contours.last(), y)
    }
}

/// A count as the histogram holds it: counts above `u32::MAX` are held as
/// `u32::MAX`.
pub open spec fn saturated(count: nat) -> u32 {
    if count >= u32::MAX {
        u32::MAX
    } else {
        count as u32
    }
}

/// For each of the `img_h` rows the number of contour points on it.
pub open spec fn spec_histogram(contours: Seq<Seq<Point>>, img_h: int) -> Seq<u32> {
    Seq::new(img_h as nat, |y: int| saturated(row_count(contours, y)))
}

/// Every point lies on one of the rows `0 .. img_h`.
pub open spec fn rows_within(contours: Seq<Seq<Point>>, img_h: int) -> bool {
    forall|c: int, p: int|
        0 <= c < contours.len() && 0 <= p < contours[c].len() ==> 0 <= (
        #[trigger] contours[c][p]).y < img_h
}

/// Row `y` of the histogram is content.
pub open spec fn is_dense(hist: Seq<u32>, y: int) -> bool {
    hist[y] >= DENSITY_THRESHOLD
}

/// Three quarters of the bar height, rounded down.
pub open spec fn top_padding(box_h: int) -> int {
    3 * box_h / 4
}

/// The top row for a content band that begins at row `begin`: three quarters
/// of a bar height above it, and no less than zero.
pub open spec fn padded_top(begin: int, box_h: int) -> int {
    if begin >= top_padding(box_h) {
        begin - top_padding(box_h)
    } else {
        0
    }
}

/// The bottom row for a content band whose last row is `begin`: half a bar
/// height below it, and no more than the image height.
pub open spec fn padded_bottom(begin: int, box_h: int, img_h: int) -> int {
    if begin + box_h / 2 <= img_h {
        begin + box_h / 2
    } else {
        img_h
    }
}

/// The upward scan over the rows `i - 1, i - 2, .., 0`, where `begin` is the
/// last content row seen. Rows that are no content are passed over. A content
/// row more than `box_h + 1` rows above `begin` ends the scan with the padded
/// top of `begin`; any other content row becomes `begin`. A scan that runs
/// out of rows gives 0.
pub open spec fn scan_up(hist: Seq<u32>, i: int, begin: int, box_h: int) -> int
    decreases i,
{
    if i <= 0 {
        0
    } else if !is_dense(hist, i - 1) {
        scan_up(hist, i - 1, begin, box_h)
    } else if begin - (i - 1) > box_h + 1 {
        padded_top(begin, box_h)
    } else {
        scan_up(hist, i - 1, i - 1, box_h)
    }
}

/// The downward scan over the rows `i, i + 1, .., hist.len() - 1`, where
/// `begin` is the last content row seen. Rows that are no content are
/// passed over. A content row more than `box_h + 1` rows below `begin` ends
/// the scan with the padded bottom of `begin`; any other content row becomes
/// `begin`. A scan that runs out of rows gives the image height.
pub open spec fn scan_down(hist: Seq<u32>, i: int, begin: int, box_h: int) -> int
    decreases hist.len() - i,
{
    if i >= hist.len() {
        hist.len() as int
    } else if !is_dense(hist, i) {
        scan_down(hist, i + 1, begin, box_h)
    } else if i - begin > box_h + 1 {
        padded_bottom(begin, box_h, hist.len() as int)
    } else {
        scan_down(hist, i + 1, i, box_h)
    }
}

/// The first row of the question content, found upwards from `center`.
pub open spec fn content_top(hist: Seq<u32>, center: int, box_h: int) -> int {
    scan_up(hist, center, center, box_h)
}

/// The row after the question content, found downwards from `center`.
pub open spec fn content_bottom(hist: Seq<u32>, center: int, box_h: int) -> int {
    scan_down(hist, center, center, box_h)
}

/// The largest multiple of `ALIGN` that is not above `v`.
pub open spec fn align_down(v: int) -> int {
    v / (ALIGN as int) * (ALIGN as int)
}

/// The smallest multiple of `ALIGN` that is not below `v`.
pub open spec fn align_up(v: int) -> int {
    (v + ALIGN - 1) / (ALIGN as int) * (ALIGN as int)
}

/// The question region for a content band from row `top` to row `bottom`,
/// or the band's height where that is not above `ALIGN`. The height is the
/// band's, cut down to a multiple of `ALIGN`. The top is `top` raised to a
/// multiple of `ALIGN`, and half an `ALIGN` more where the band, measured
/// between its raised ends, is higher than the region.
pub open spec fn aligned_core(top: int, bottom: int, img_w: int) -> Result<Rect, int> {
    let span = bottom - top;
    if span <= ALIGN {
        Err(span)
    } else {
        let height = align_down(span);
        let slack = align_up(bottom) - align_up(top) > height;
        let shift = if slack {
            ALIGN as int / 2
        } else {
            0
        };
        Ok(
            Rect {
                left: 0,
                top: (align_up(top) + shift) as i32,
                width: img_w as u32,
                height: height as u32,
            },
        )
    }
}

/// The question region read from a histogram of `hist.len()` rows.
pub open spec fn spec_core_from_histogram(
    hist: Seq<u32>,
    center: int,
    box_h: int,
    img_w: int,
) -> Result<Rect, int> {
    aligned_core(content_top(hist, center, box_h), content_bottom(hist, center, box_h), img_w)
}

/// The question region of an image of `img_h` rows with the given contours.
pub open spec fn spec_location_core(
    contours: Seq<Seq<Point>>,
    center: int,
    box_h: int,
    img_w: int,
    img_h: int,
) -> Result<Rect, int> {
    spec_core_from_histogram(spec_histogram(contours, img_h), center, box_h, img_w)
}

/// The upward scan ends between row 0 and the last content row seen.
pub proof fn lemma_scan_up_bounds(hist: Seq<u32>, i: int, begin: int, box_h: int)
    requires
        0 <= i <= begin,
        0 <= box_h,
    ensures
        0 <= scan_up(hist, i, begin, box_h) <= begin,
    decreases i,
{
    if i > 0 {
        if !is_dense(hist, i - 1) {
            lemma_scan_up_bounds(hist, i - 1, begin, box_h);
        } else if begin - (i - 1) > box_h + 1 {
        } else {
            lemma_scan_up_bounds(hist, i - 1, i - 1, box_h);
        }
    }
}

/// The downward scan ends between the last content row seen and the image
/// height.
pub proof fn lemma_scan_down_bounds(hist: Seq<u32>, i: int, begin: int, box_h: int)
    requires
        0 <= begin <= i <= hist.len(),
        0 <= box_h,
    ensures
        begin <= scan_down(hist, i, begin, box_h) <= hist.len(),
    decreases hist.len() - i,
{
    if i < hist.len() {
        if !is_dense(hist, i) {
            lemma_scan_down_bounds(hist, i + 1, begin, box_h);
        } else if i - begin > box_h + 1 {
        } else {
            lemma_scan_down_bounds(hist, i + 1, i, box_h);
        }
    }
}

/// One of the rows `lo .. hi` is content.
pub open spec fn has_content(hist: Seq<u32>, lo: int, hi: int) -> bool {
    exists|z: int| lo <= z < hi && 0 <= z < hist.len() && #[trigger] is_dense(hist, z)
}

/// Row `y` is one that a scan from `center` goes on from: `center` itself,
/// or a content row.
pub open spec fn is_step(hist: Seq<u32>, center: int, y: int) -> bool {
    y == center || is_dense(hist, y)
}

/// From `center` up to row `b` the content hangs together: above `center`,
/// and above each content row below `b`, the next content row is no more
/// than `box_h + 1` rows away.
pub open spec fn linked_up(hist: Seq<u32>, b: int, center: int, box_h: int) -> bool {
    forall|y: int|
        b < y <= center && #[trigger] is_step(hist, center, y) ==> has_content(
            hist,
            y - box_h - 1,
            y,
        )
}

/// Row `b` is the first row of the content band that reaches down to
/// `center`: it is `center` or a content row, the content hangs together
/// from `center` up to it, and above it there is content, but none within
/// `box_h + 1` rows.
pub open spec fn is_band_top(hist: Seq<u32>, center: int, box_h: int, b: int) -> bool {
    &&& 0 <= b <= center
    &&& is_step(hist, center, b)
    &&& linked_up(hist, b, center, box_h)
    &&& !has_content(hist, b - box_h - 1, b)
    &&& has_content(hist, 0, b - box_h - 1)
}

/// From `center` down to row `b` the content hangs together: below `center`,
/// and below each content row above `b`, the next content row is no more
/// than `box_h + 1` rows away.
pub open spec fn linked_down(hist: Seq<u32>, b: int, center: int, box_h: int) -> bool {
    forall|y: int|
        center <= y < b && #[trigger] is_step(hist, center, y) ==> has_content(
            hist,
            y + 1,
            y + box_h + 2,
        )
}

/// Row `b` is the last row of the content band that reaches up to `center`:
/// it is `center` or a content row, the content hangs together from `center`
/// down to it, and below it there is content, but none within `box_h + 1`
/// rows.
pub open spec fn is_band_bottom(hist: Seq<u32>, center: int, box_h: int, b: int) -> bool {
    &&& center <= b <= hist.len()
    &&& is_step(hist, center, b)
    &&& linked_down(hist, b, center, box_h)
    &&& !has_content(hist, b + 1, b + box_h + 2)
    &&& has_content(hist, b + box_h + 2, hist.len() as int)
}

/// The upward scan that has come to row `i` with `begin` the last content
/// row seen ends at the padded top of the band top `b` above it.
proof fn lemma_scan_up_reaches(
    hist: Seq<u32>,
    i: int,
    begin: int,
    center: int,
    box_h: int,
    b: int,
)
    requires
        0 <= box_h,
        0 <= i <= begin <= center <= hist.len(),
        b <= begin,
        begin > b ==> i > b,
        is_step(hist, center, begin),
        forall|y: int| i <= y < begin ==> !is_dense(hist, y),
        is_band_top(hist, center, box_h, b),
    ensures
        scan_up(hist, i, begin, box_h) == padded_top(b, box_h),
    decreases i,
{
    if i == 0 {
        // all rows above `begin` are no content, so `begin` is `b`, above which there is content
        let z = choose|z: int|
            0 <= z < b - box_h - 1 && 0 <= z < hist.len() && #[trigger] is_dense(hist, z);
        assert(false);
    } else if !is_dense(hist, i - 1) {
        lemma_scan_up_reaches(hist, i - 1, begin, center, box_h, b);
    } else if begin > b {
        // the content hangs together at `begin`: row `i - 1` is near enough
        assert(has_content(hist, begin - box_h - 1, begin));
        let z = choose|z: int|
            begin - box_h - 1 <= z < begin && 0 <= z < hist.len() && #[trigger] is_dense(hist, z);
        assert(z <= i - 1);
        lemma_scan_up_reaches(hist, i - 1, i - 1, center, box_h, b);
    } else {
        // `begin` is `b`: row `i - 1` lies beyond the gap
        if begin - (i - 1) <= box_h + 1 {
            assert(has_content(hist, b - box_h - 1, b));
        }
    }
}

/// The upward scan that has come to row `i` with `begin` the last content
/// row seen gives 0 unless there is a band top.
proof fn lemma_scan_up_finds(hist: Seq<u32>, i: int, begin: int, center: int, box_h: int)
    requires
        0 <= box_h,
        0 <= i <= begin <= center <= hist.len(),
        is_step(hist, center, begin),
        forall|y: int| i <= y < begin ==> !is_dense(hist, y),
        linked_up(hist, begin, center, box_h),
    ensures
        scan_up(hist, i, begin, box_h) != 0 ==> exists|b: int|
            is_band_top(hist, center, box_h, b),
    decreases i,
{
    if i == 0 {
    } else if !is_dense(hist, i - 1) {
        lemma_scan_up_finds(hist, i - 1, begin, center, box_h);
    } else if begin - (i - 1) > box_h + 1 {
        assert(has_content(hist, 0, begin - box_h - 1));
        assert(is_band_top(hist, center, box_h, begin));
    } else {
        assert(is_dense(hist, i - 1));
        assert(has_content(hist, begin - box_h - 1, begin));
        assert forall|y: int| i - 1 < y <= center && #[trigger] is_step(hist, center, y) implies has_content(
            hist,
            y - box_h - 1,
            y,
        ) by {
            if y < begin {
                assert(!is_dense(hist, y));
            }
        }
        lemma_scan_up_finds(hist, i - 1, i - 1, center, box_h);
    }
}

/// The downward scan that has come to row `i` with `begin` the last content
/// row seen ends at the padded bottom of the band bottom `b` below it.
proof fn lemma_scan_down_reaches(
    hist: Seq<u32>,
    i: int,
    begin: int,
    center: int,
    box_h: int,
    b: int,
)
    requires
        0 <= box_h,
        0 <= center <= begin <= i <= hist.len(),
        begin <= b,
        begin < b ==> i <= b,
        is_step(hist, center, begin),
        forall|y: int| begin < y < i ==> !is_dense(hist, y),
        i == begin ==> begin == center,
        is_band_bottom(hist, center, box_h, b),
    ensures
        scan_down(hist, i, begin, box_h) == padded_bottom(b, box_h, hist.len() as int),
    decreases hist.len() - i,
{
    if i >= hist.len() {
        let z = choose|z: int|
            b + box_h + 2 <= z < hist.len() && 0 <= z < hist.len() && #[trigger] is_dense(hist, z);
        if begin < b {
            assert(is_dense(hist, b));
        }
        assert(false);
    } else if !is_dense(hist, i) {
        lemma_scan_down_reaches(hist, i + 1, begin, center, box_h, b);
    } else if begin < b {
        if i > begin {
            assert(has_content(hist, begin + 1, begin + box_h + 2));
            let z = choose|z: int|
                begin + 1 <= z < begin + box_h + 2 && 0 <= z < hist.len() && #[trigger] is_dense(
                    hist,
                    z,
                );
            assert(z >= i);
        }
        lemma_scan_down_reaches(hist, i + 1, i, center, box_h, b);
    } else {
        if i - begin <= box_h + 1 {
            if i > begin {
                assert(has_content(hist, b + 1, b + box_h + 2));
            } else {
                lemma_scan_down_reaches(hist, i + 1, i, center, box_h, b);
            }
        }
    }
}

/// The downward scan that has come to row `i` with `begin` the last content
/// row seen gives the image height unless there is a band bottom.
proof fn lemma_scan_down_finds(hist: Seq<u32>, i: int, begin: int, center: int, box_h: int)
    requires
        0 <= box_h,
        0 <= center <= begin <= i <= hist.len(),
        is_step(hist, center, begin),
        forall|y: int| begin < y < i ==> !is_dense(hist, y),
        i == begin ==> begin == center,
        linked_down(hist, begin, center, box_h),
    ensures
        scan_down(hist, i, begin, box_h) != hist.len() ==> exists|b: int|
            is_band_bottom(hist, center, box_h, b),
    decreases hist.len() - i,
{
    if i >= hist.len() {
    } else if !is_dense(hist, i) {
        lemma_scan_down_finds(hist, i + 1, begin, center, box_h);
    } else if i - begin > box_h + 1 {
        assert(has_content(hist, begin + box_h + 2, hist.len() as int));
        assert(is_band_bottom(hist, center, box_h, begin));
    } else {
        assert(is_dense(hist, i));
        if i > begin {
            assert(has_content(hist, begin + 1, begin + box_h + 2));
        }
        assert forall|y: int| center <= y < i && #[trigger] is_step(hist, center, y) implies has_content(
            hist,
            y + 1,
            y + box_h + 2,
        ) by {
            if y > begin {
                assert(!is_dense(hist, y));
            }
        }
        lemma_scan_down_finds(hist, i + 1, i, center, box_h);
    }
}

/// The content begins at the padded top of the band top, where there is one.
pub proof fn content_top_of_band(hist: Seq<u32>, center: int, box_h: int, b: int)
    requires
        0 <= box_h,
        0 <= center <= hist.len(),
        is_band_top(hist, center, box_h, b),
    ensures
        content_top(hist, center, box_h) == padded_top(b, box_h),
        content_top(hist, center, box_h) > 0,
{
    lemma_scan_up_reaches(hist, center, center, center, box_h, b);
    let z = choose|z: int|
        0 <= z < b - box_h - 1 && 0 <= z < hist.len() && #[trigger] is_dense(hist, z);
    assert(3 * box_h / 4 <= box_h);
}

/// The content begins at row 0 where there is no band top.
pub proof fn content_top_without_band(hist: Seq<u32>, center: int, box_h: int)
    requires
        0 <= box_h,
        0 <= center <= hist.len(),
        forall|b: int| !is_band_top(hist, center, box_h, b),
    ensures
        content_top(hist, center, box_h) == 0,
{
    lemma_scan_up_finds(hist, center, center, center, box_h);
}

/// The content ends at the padded bottom of the band bottom, where there is
/// one.
pub proof fn content_bottom_of_band(hist: Seq<u32>, center: int, box_h: int, b: int)
    requires
        0 <= box_h,
        0 <= center <= hist.len(),
        is_band_bottom(hist, center, box_h, b),
    ensures
        content_bottom(hist, center, box_h) == padded_bottom(b, box_h, hist.len() as int),
        content_bottom(hist, center, box_h) == b + box_h / 2,
        content_bottom(hist, center, box_h) < hist.len(),
{
    lemma_scan_down_reaches(hist, center, center, center, box_h, b);
    let z = choose|z: int|
        b + box_h + 2 <= z < hist.len() && 0 <= z < hist.len() && #[trigger] is_dense(hist, z);
}

/// The content ends at the image height where there is no band bottom.
pub proof fn content_bottom_without_band(hist: Seq<u32>, center: int, box_h: int)
    requires
        0 <= box_h,
        0 <= center <= hist.len(),
        forall|b: int| !is_band_bottom(hist, center, box_h, b),
    ensures
        content_bottom(hist, center, box_h) == hist.len(),
{
    lemma_scan_down_finds(hist, center, center, center, box_h);
}

/// Without a content row the upward scan runs out at row 0.
pub proof fn scan_up_without_content(hist: Seq<u32>, i: int, begin: int, box_h: int)
    requires
        0 <= i <= hist.len(),
        forall|y: int| 0 <= y < i ==> !is_dense(hist, y),
    ensures
        scan_up(hist, i, begin, box_h) == 0,
    decreases i,
{
    if i > 0 {
        scan_up_without_content(hist, i - 1, begin, box_h);
    }
}

/// Without a content row the downward scan runs out at the image height.
pub proof fn scan_down_without_content(hist: Seq<u32>, i: int, begin: int, box_h: int)
    requires
        0 <= i <= hist.len(),
        forall|y: int| i <= y < hist.len() ==> !is_dense(hist, y),
    ensures
        scan_down(hist, i, begin, box_h) == hist.len(),
    decreases hist.len() - i,
{
    if i < hist.len() {
        scan_down_without_content(hist, i + 1, begin, box_h);
    }
}

/// The question region, where there is one, is at least `ALIGN` rows high,
/// its height is a multiple of `ALIGN`, and its top is a multiple of `ALIGN`
/// or half an `ALIGN` above one.
pub proof fn core_is_aligned(top: int, bottom: int, img_w: int)
    requires
        0 <= top <= bottom <= u32::MAX,
        top <= MAX_CENTER,
        0 <= img_w <= u32::MAX,
    ensures
        aligned_core(top, bottom, img_w) is Err <==> bottom - top <= ALIGN,
        aligned_core(top, bottom, img_w) matches Ok(core) ==> {
            &&& core.left == 0
            &&& core.width == img_w
            &&& core.height >= ALIGN
            &&& core.height as int % (ALIGN as int) == 0
            &&& bottom - top - ALIGN < core.height <= bottom - top
            &&& (core.top as int % (ALIGN as int) == 0 || core.top as int % (ALIGN as int)
                == ALIGN as int / 2)
            &&& top <= core.top < top + ALIGN + ALIGN / 2
        },
{
    let a = ALIGN as int;
    lemma_mod_multiples_basic((bottom - top) / a, a);
    lemma_mod_multiples_basic((top + a - 1) / a, a);
    lemma_mod_multiples_basic((bottom + a - 1) / a, a);
}

/// Counts, for each of the `img_h` rows, the contour points that lie on it.
pub fn point_histogram(contours: &Vec<Contour>, img_h: usize) -> (hist: Vec<u32>)
    requires
        rows_within(contours_view(contours@), img_h as int),
    ensures
        hist@ == spec_histogram(contours_view(contours@), img_h as int),
{
    let mut hist: Vec<u32> = vec![0u32; img_h];
    let ghost cv = contours_view(contours@);
    let n = contours.len();
    let mut c: usize = 0;
    assert(cv.take(0) =~= Seq::<Seq<Point>>::empty());
    while c < n
        invariant
            c <= n,
            n == contours@.len(),
            cv == contours_view(contours@),
            rows_within(cv, img_h as int),
            hist@.len() == img_h,
            forall|y: int|
                0 <= y < img_h ==> #[trigger] hist@[y] == saturated(
                    row_count(cv.take(c as int), y),
                ),
        decreases n - c,
    {
        let contour = &contours[c];
        let m = contour.points.len();
        let mut p: usize = 0;
        assert(contour@ == cv[c as int]);
        assert(contour@.take(0) =~= Seq::<Point>::empty());
        while p < m
            invariant
                p <= m,
                m == contour@.len(),
                c < n,
                n == contours@.len(),
                cv == contours_view(contours@),
                contour@ == cv[c as int],
                rows_within(cv, img_h as int),
                hist@.len() == img_h,
                forall|y: int|
                    0 <= y < img_h ==> #[trigger] hist@[y] == saturated(
                        row_count(cv.take(c as int), y) + points_on_row(
                            contour@.take(p as int),
                            y,
                        ),
                    ),
            decreases m - p,
        {
            let point = contour.points[p];
            proof {
                assert(cv[c as int][p as int] == point);
                let next = contour@.take(p + 1);
                assert(next.drop_last() == contour@.take(p as int));
                assert(next.last() == point);
            }
            let y = point.y as usize;
            let count = hist[y];
            if count < u32::MAX {
                hist.set(y, count + 1);
            }
            p += 1;
        }
        proof {
            assert(contour@.take(m as int) == contour@);
            let next = cv.take(c + 1);
            assert(next.drop_last() == cv.take(c as int));
            assert(next.last() == contour@);
        }
        c += 1;
    }
    proof {
        assert(cv.take(n as int) == cv);
        assert(hist@ =~= spec_histogram(cv, img_h as int));
    }
    hist
}

/// The question region read from a histogram with one entry per image row.
///
/// `center` is the row just below the first answer bar and `box_h` the height
/// of that bar. The content band is looked for upwards and downwards from
/// `center`; a band of `ALIGN` rows or fewer gives `Err` with its height.
pub fn core_from_histogram(hist: &Vec<u32>, center: usize, box_h: usize, img_w: usize) -> (res:
    Result<Rect, usize>)
    requires
        center <= hist@.len() <= u32::MAX,
        center <= MAX_CENTER,
        img_w <= u32::MAX,
    ensures
        match res {
            Ok(core) => spec_core_from_histogram(hist@, center as int, box_h as int, img_w as int)
                == Ok::<Rect, int>(core),
            Err(span) => spec_core_from_histogram(hist@, center as int, box_h as int, img_w as int)
                == Err::<Rect, int>(span as int),
        },
        res matches Ok(core) ==> core.height as int % (ALIGN as int) == 0 && core.height >= ALIGN
            && (core.top as int % (ALIGN as int) == 0 || core.top as int % (ALIGN as int) == ALIGN
            as int / 2),
{
    let img_h = hist.len();
    let top_y = scan_towards_top(hist, center, box_h);
    let bottom_y = scan_towards_bottom(hist, center, box_h);
    proof {
        lemma_scan_up_bounds(hist@, center as int, center as int, box_h as int);
        lemma_scan_down_bounds(hist@, center as int, center as int, box_h as int);
        core_is_aligned(top_y as int, bottom_y as int, img_w as int);
    }
    let span = bottom_y - top_y;
    if span <= ALIGN {
        return Err(span);
    }
    let align = ALIGN as u64;
    let height: u64 = span as u64 / align * align;
    let top: u64 = (top_y as u64 + (align - 1)) / align * align;
    let bottom: u64 = (bottom_y as u64 + (align - 1)) / align * align;
    let top: u64 = if bottom - top > height {
        top + align / 2
    } else {
        top
    };
    Ok(Rect { left: 0, top: top as i32, width: img_w as u32, height: height as u32 })
}

/// The upward scan from `center`: the first row of the content band.
fn scan_towards_top(hist: &Vec<u32>, center: usize, box_h: usize) -> (top_y: usize)
    requires
        center <= hist@.len(),
    ensures
        top_y == content_top(hist@, center as int, box_h as int),
{
    let mut begin = center;
    let mut i = center;
    while i > 0
        invariant
            i <= begin <= center <= hist@.len(),
            scan_up(hist@, i as int, begin as int, box_h as int) == content_top(
                hist@,
                center as int,
                box_h as int,
            ),
        decreases i,
    {
        let row = i - 1;
        if hist[row] >= DENSITY_THRESHOLD {
            if begin - row - 1 > box_h {
                let pad = (3 * (box_h as u128) / 4) as usize;
                return if begin >= pad {
                    begin - pad
                } else {
                    0
                };
            }
            begin = row;
        }
        i = row;
    }
    0
}

/// The downward scan from `center`: the row after the content band.
fn scan_towards_bottom(hist: &Vec<u32>, center: usize, box_h: usize) -> (bottom_y: usize)
    requires
        center <= hist@.len(),
    ensures
        bottom_y == content_bottom(hist@, center as int, box_h as int),
{
    let img_h = hist.len();
    let mut begin = center;
    let mut i = center;
    while i < img_h
        invariant
            center <= begin <= i <= img_h,
            img_h == hist@.len(),
            scan_down(hist@, i as int, begin as int, box_h as int) == content_bottom(
                hist@,
                center as int,
                box_h as int,
            ),
        decreases img_h - i,
    {
        if hist[i] >= DENSITY_THRESHOLD {
            if i - begin > 0 && i - begin - 1 > box_h {
                let half = box_h / 2;
                return if half <= img_h - begin {
                    begin + half
                } else {
                    img_h
                };
            }
            begin = i;
        }
        i += 1;
    }
    img_h
}

/// The question region above the first answer bar.
///
/// The rows are weighed by the number of points that the contours put on
/// them, all contours counted. `center` is the row just below the first
/// answer bar and `box_h` that bar's height. A content band of `ALIGN` rows
/// or fewer is no region: its height comes back as `Err`.
pub fn location_core(
    contours: &Vec<Contour>,
    center: usize,
    box_h: usize,
    img_w: usize,
    img_h: usize,
) -> (res: Result<Rect, usize>)
    requires
        rows_within(contours_view(contours@), img_h as int),
        center <= img_h <= u32::MAX,
        center <= MAX_CENTER,
        img_w <= u32::MAX,
    ensures
        match res {
            Ok(core) => spec_location_core(
                contours_view(contours@),
                center as int,
                box_h as int,
                img_w as int,
                img_h as int,
            ) == Ok::<Rect, int>(core),
            Err(span) => spec_location_core(
                contours_view(contours@),
                center as int,
                box_h as int,
                img_w as int,
                img_h as int,
            ) == Err::<Rect, int>(span as int),
        },
        res matches Ok(core) ==> core.height as int % (ALIGN as int) == 0 && core.height >= ALIGN
            && (core.top as int % (ALIGN as int) == 0 || core.top as int % (ALIGN as int) == ALIGN
            as int / 2),
{
    let hist = point_histogram(contours, img_h);
    core_from_histogram(&hist, center, box_h, img_w)
}

} // verus!
