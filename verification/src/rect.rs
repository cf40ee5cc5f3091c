//! Points, axis-aligned rectangles and their overlap.

use vstd::prelude::*;

verus! {

/// A pixel position.
#[derive(Clone, Copy, Debug, PartialEq, Eq, Structural)]
pub struct Point {
    pub x: i32,
    pub y: i32,
}

impl Point {
    pub fn new(x: i32, y: i32) -> (p: Point)
        ensures
            p == (Point { x, y }),
    {
        Point { x, y }
    }
}

/// An axis-aligned rectangle covering the pixel columns `left ..= right()`
/// and the pixel rows `top ..= bottom()`. A rectangle of zero width or height
/// covers no pixel.
#[derive(Clone, Copy, Debug, PartialEq, Eq, Structural)]
pub struct Rect {
    pub left: i32,
    pub top: i32,
    pub width: u32,
    pub height: u32,
}

/// The overlap of two rectangles as a pair of pixel counts. The ratio
/// `intersection / union` is their intersection over union; it is taken to be
/// zero where `intersection` is zero.
#[derive(Clone, Copy, Debug, PartialEq, Eq, Structural)]
pub struct Iou {
    /// Pixels covered by both rectangles.
    pub intersection: u64,
    /// Pixels covered by at least one of them.
    pub union: u128,
}

pub open spec fn spec_max(a: int, b: int) -> int {
    if a >= b {
        a
    } else {
        b
    }
}

pub open spec fn spec_min(a: int, b: int) -> int {
    if a <= b {
        a
    } else {
        b
    }
}

/// The number of integers in `lo ..= hi`, zero where `lo > hi`.
pub open spec fn spec_span(lo: int, hi: int) -> int {
    if lo > hi {
        0
    } else {
        hi - lo + 1
    }
}

impl Iou {
    /// The ratio is strictly greater than `num / den`.
    pub open spec fn spec_exceeds(self, num: int, den: int) -> bool {
        self.intersection * den > self.union * num
    }

    /// The ratio is at least `num / den`.
    pub open spec fn spec_reaches(self, num: int, den: int) -> bool {
        self.intersection * den >= self.union * num
    }

    /// Whether the ratio is strictly greater than `num / den`.
    pub fn exceeds(&self, num: u32, den: u32) -> (b: bool)
        ensures
            b == self.spec_exceeds(num as int, den as int),
    {
        proof {
            assert(self.intersection * den <= 0xffff_ffff_ffff_ffff * 0xffff_ffff)
                by (nonlinear_arith)
                requires
                    self.intersection <= 0xffff_ffff_ffff_ffff,
                    den <= 0xffff_ffff,
            ;
        }
        let shared: u128 = self.intersection as u128 * den as u128;
        match self.union.checked_mul(num as u128) {
            Some(covered) => shared > covered,
            None => false,
        }
    }
}

impl Rect {
    /// The last column covered, `left + width - 1`.
    pub open spec fn spec_right(self) -> int {
        self.left + self.width - 1
    }

    /// The last row covered, `top + height - 1`.
    pub open spec fn spec_bottom(self) -> int {
        self.top + self.height - 1
    }

    /// The number of pixels covered.
    pub open spec fn spec_area(self) -> int {
        self.width * self.height
    }

    /// The position `(left + width / 2, top + height / 2)`.
    pub open spec fn spec_center(self) -> (int, int) {
        (self.left + self.width / 2, self.top + self.height / 2)
    }

    /// The pixel `p` is covered.
    pub open spec fn spec_contains(self, p: Point) -> bool {
        &&& self.left <= p.x <= self.spec_right()
        &&& self.top <= p.y <= self.spec_bottom()
    }

    /// The number of columns covered by both rectangles.
    pub open spec fn spec_overlap_width(self, other: Rect) -> int {
        spec_span(
            spec_max(self.left as int, other.left as int),
            spec_min(self.spec_right(), other.spec_right()),
        )
    }

    /// The number of rows covered by both rectangles.
    pub open spec fn spec_overlap_height(self, other: Rect) -> int {
        spec_span(
            spec_max(self.top as int, other.top as int),
            spec_min(self.spec_bottom(), other.spec_bottom()),
        )
    }

    /// Some pixel is covered by both rectangles.
    pub open spec fn spec_intersects(self, other: Rect) -> bool {
        self.spec_overlap_width(other) > 0 && self.spec_overlap_height(other) > 0
    }

    /// The number of pixels covered by both rectangles.
    pub open spec fn spec_intersection_area(self, other: Rect) -> int {
        self.spec_overlap_width(other) * self.spec_overlap_height(other)
    }

    /// The number of pixels covered by at least one of the rectangles.
    pub open spec fn spec_union_area(self, other: Rect) -> int {
        self.spec_area() + other.spec_area() - self.spec_intersection_area(other)
    }

    /// Intersection over union, as the two pixel counts.
    pub open spec fn spec_iou(self, other: Rect) -> Iou {
        Iou {
            intersection: self.spec_intersection_area(other) as u64,
            union: self.spec_union_area(other) as u128,
        }
    }

    pub fn new(x: i32, y: i32, width: u32, height: u32) -> (r: Rect)
        ensures
            r == (Rect { left: x, top: y, width, height }),
    {
        Rect { left: x, top: y, width, height }
    }

    pub fn left(&self) -> (v: i32)
        ensures
            v == self.left,
    {
        self.left
    }

    pub fn top(&self) -> (v: i32)
        ensures
            v == self.top,
    {
        self.top
    }

    pub fn width(&self) -> (v: u32)
        ensures
            v == self.width,
    {
        self.width
    }

    pub fn height(&self) -> (v: u32)
        ensures
            v == self.height,
    {
        self.height
    }

    pub fn right(&self) -> (v: i64)
        ensures
            v == self.spec_right(),
    {
        self.left as i64 + self.width as i64 - 1
    }

    pub fn bottom(&self) -> (v: i64)
        ensures
            v == self.spec_bottom(),
    {
        self.top as i64 + self.height as i64 - 1
    }

    pub fn area(&self) -> (a: u64)
        ensures
            a == self.spec_area(),
    {
        proof {
            lemma_product_bound(self.width as int, self.height as int);
        }
        self.width as u64 * self.height as u64
    }

    /// The middle pixel, rounded towards the top left.
    pub fn center(&self) -> (p: Point)
        requires
            self.left + self.width / 2 <= i32::MAX,
            self.top + self.height / 2 <= i32::MAX,
        ensures
            (p.x as int, p.y as int) == self.spec_center(),
    {
        let x: i64 = self.left as i64 + (self.width / 2) as i64;
        let y: i64 = self.top as i64 + (self.height / 2) as i64;
        Point { x: x as i32, y: y as i32 }
    }

    pub fn contains(&self, point: Point) -> (b: bool)
        ensures
            b == self.spec_contains(point),
    {
        point.x >= self.left && point.x as i64 <= self.right() && point.y >= self.top
            && point.y as i64 <= self.bottom()
    }

    /// Intersection over union with `other`. Both counts are exact, so that
    /// `0 <= intersection <= union`, and `intersection` is zero exactly where
    /// the rectangles share no pixel.
    pub fn iou(&self, other: &Rect) -> (v: Iou)
        ensures
            v == self.spec_iou(*other),
            v.intersection == self.spec_intersection_area(*other),
            v.union == self.spec_union_area(*other),
            v.intersection <= v.union,
            v.union <= 0x1_ffff_fffc_0000_0002,
            v.intersection == 0 <==> !self.spec_intersects(*other),
    {
        let x1: i64 = if self.left >= other.left {
            self.left as i64
        } else {
            other.left as i64
        };
        let y1: i64 = if self.top >= other.top {
            self.top as i64
        } else {
            other.top as i64
        };
        let x2: i64 = if self.right() <= other.right() {
            self.right()
        } else {
            other.right()
        };
        let y2: i64 = if self.bottom() <= other.bottom() {
            self.bottom()
        } else {
            other.bottom()
        };
        proof {
            lemma_overlap_bounds(*self, *other);
            lemma_product_bound(self.width as int, self.height as int);
            lemma_product_bound(other.width as int, other.height as int);
        }
        let total: u128 = self.area() as u128 + other.area() as u128;
        if x1 > x2 || y1 > y2 {
            Iou { intersection: 0, union: total }
        } else {
            let w: u64 = (x2 - x1 + 1) as u64;
            let h: u64 = (y2 - y1 + 1) as u64;
            proof {
                lemma_product_bound(w as int, h as int);
                lemma_product_positive(w as int, h as int);
            }
            let inter: u64 = w * h;
            Iou { intersection: inter, union: total - inter as u128 }
        }
    }
}

/// The product of two 32-bit sizes fits in 64 bits.
pub proof fn lemma_product_bound(w: int, h: int)
    requires
        0 <= w <= 0xffff_ffff,
        0 <= h <= 0xffff_ffff,
    ensures
        0 <= w * h <= 0xffff_fffe_0000_0001,
{
    assert(0 <= w * h <= 0xffff_ffff * 0xffff_ffff) by (nonlinear_arith)
        requires
            0 <= w <= 0xffff_ffff,
            0 <= h <= 0xffff_ffff,
    ;
}

proof fn lemma_product_positive(w: int, h: int)
    requires
        w > 0,
        h > 0,
    ensures
        w * h > 0,
{
    assert(w * h > 0) by (nonlinear_arith)
        requires
            w > 0,
            h > 0,
    ;
}

/// The shared part of two rectangles is no larger than either of them.
pub proof fn lemma_overlap_bounds(a: Rect, b: Rect)
    ensures
        0 <= a.spec_overlap_width(b) <= a.width,
        0 <= a.spec_overlap_width(b) <= b.width,
        0 <= a.spec_overlap_height(b) <= a.height,
        0 <= a.spec_overlap_height(b) <= b.height,
        0 <= a.spec_intersection_area(b) <= a.spec_area(),
        0 <= a.spec_intersection_area(b) <= b.spec_area(),
        a.spec_intersection_area(b) <= a.spec_union_area(b),
        a.spec_intersection_area(b) == 0 <==> !a.spec_intersects(b),
{
    let ow = a.spec_overlap_width(b);
    let oh = a.spec_overlap_height(b);
    assert(0 <= ow * oh <= (a.width as int) * (a.height as int)) by (nonlinear_arith)
        requires
            0 <= ow <= a.width,
            0 <= oh <= a.height,
    ;
    assert(ow * oh <= (b.width as int) * (b.height as int)) by (nonlinear_arith)
        requires
            0 <= ow <= b.width,
            0 <= oh <= b.height,
    ;
    assert(ow * oh == 0 <==> (ow == 0 || oh == 0)) by (nonlinear_arith)
        requires
            0 <= ow,
            0 <= oh,
    ;
}

/// Intersection over union does not depend on the order of the rectangles.
pub proof fn iou_is_symmetric(a: Rect, b: Rect)
    ensures
        a.spec_iou(b) == b.spec_iou(a),
{
    let ow = a.spec_overlap_width(b);
    let oh = a.spec_overlap_height(b);
    assert(ow == b.spec_overlap_width(a));
    assert(oh == b.spec_overlap_height(a));
}

/// A rectangle that covers a pixel has an intersection over union of one with
/// itself: both counts are its area.
pub proof fn iou_with_itself_is_one(a: Rect)
    requires
        a.width > 0,
        a.height > 0,
    ensures
        a.spec_iou(a).intersection == a.spec_area(),
        a.spec_iou(a).union == a.spec_area(),
        a.spec_iou(a).intersection == a.spec_iou(a).union,
        a.spec_iou(a).union > 0,
{
    lemma_product_bound(a.width as int, a.height as int);
    lemma_product_positive(a.width as int, a.height as int);
    assert(a.spec_overlap_width(a) == a.width);
    assert(a.spec_overlap_height(a) == a.height);
}

/// Rectangles without a common pixel have an intersection over union of zero.
pub proof fn iou_of_disjoint_is_zero(a: Rect, b: Rect)
    requires
        forall|p: Point| !(a.spec_contains(p) && b.spec_contains(p)),
    ensures
        a.spec_iou(b).intersection == 0,
        !a.spec_iou(b).spec_exceeds(0, 1),
{
    lemma_overlap_bounds(a, b);
    if a.spec_intersects(b) {
        let x = spec_max(a.left as int, b.left as int);
        let y = spec_max(a.top as int, b.top as int);
        let p = Point { x: x as i32, y: y as i32 };
        assert(a.spec_contains(p) && b.spec_contains(p));
    }
}

/// Intersection over union lies between zero and one: the shared pixels are
/// among those covered, and the ratio exceeds no bound of one or more.
pub proof fn iou_is_between_zero_and_one(a: Rect, b: Rect)
    ensures
        0 <= a.spec_iou(b).intersection <= a.spec_iou(b).union,
        !a.spec_iou(b).spec_exceeds(1, 1),
        a.spec_iou(b).spec_reaches(0, 1),
{
    lemma_overlap_bounds(a, b);
    lemma_product_bound(a.width as int, a.height as int);
    lemma_product_bound(b.width as int, b.height as int);
}

} // verus!
