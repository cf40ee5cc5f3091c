use quiz_layout::contour::{bounding_rect, Contour};
use quiz_layout::rect::{Iou, Point, Rect};

fn contour_of(points: &[(i32, i32)]) -> Contour {
    Contour { points: points.iter().map(|&(x, y)| Point::new(x, y)).collect() }
}

fn ratio(v: Iou) -> f64 {
    if v.intersection == 0 {
        0.0
    } else {
        v.intersection as f64 / v.union as f64
    }
}

#[test]
fn rect_reports_its_edges() {
    let r = Rect::new(4, 5, 6, 7);
    assert_eq!(r.left(), 4);
    assert_eq!(r.top(), 5);
    assert_eq!(r.width(), 6);
    assert_eq!(r.height(), 7);
    assert_eq!(r.right(), 9);
    assert_eq!(r.bottom(), 11);
    assert_eq!(r.area(), 42);
}

#[test]
fn empty_rect_ends_before_it_begins() {
    let r = Rect::new(3, 8, 0, 0);
    assert_eq!(r.right(), 2);
    assert_eq!(r.bottom(), 7);
    assert_eq!(r.area(), 0);
    assert!(!r.contains(Point::new(3, 8)));
}

#[test]
fn area_of_the_largest_rect_fits() {
    let r = Rect::new(i32::MIN, i32::MIN, u32::MAX, u32::MAX);
    assert_eq!(r.area(), 18446744065119617025);
    assert_eq!(r.right(), 2147483646);
    let v = r.iou(&r);
    assert_eq!(v.intersection, 18446744065119617025);
    assert_eq!(v.union, 18446744065119617025);
}

#[test]
fn center_rounds_down() {
    assert_eq!(Rect::new(0, 0, 200, 100).center(), Point::new(100, 50));
    assert_eq!(Rect::new(10, 20, 5, 3).center(), Point::new(12, 21));
    assert_eq!(Rect::new(-7, -3, 4, 1).center(), Point::new(-5, -3));
}

#[test]
fn contains_includes_all_four_edges() {
    let r = Rect::new(4, 5, 6, 7);
    assert!(r.contains(Point::new(4, 5)));
    assert!(r.contains(Point::new(9, 11)));
    assert!(r.contains(Point::new(9, 5)));
    assert!(r.contains(Point::new(4, 11)));
    assert!(!r.contains(Point::new(3, 5)));
    assert!(!r.contains(Point::new(10, 11)));
    assert!(!r.contains(Point::new(4, 4)));
    assert!(!r.contains(Point::new(9, 12)));
}

#[test]
fn bounding_rect_spans_min_to_max_inclusive() {
    let c = contour_of(&[(5, 9), (2, 7), (8, 3), (4, 4)]);
    assert_eq!(bounding_rect(&c), Rect::new(2, 3, 7, 7));
}

#[test]
fn bounding_rect_of_one_point_is_one_pixel() {
    let c = contour_of(&[(-3, 12)]);
    assert_eq!(bounding_rect(&c), Rect::new(-3, 12, 1, 1));
}

#[test]
fn bounding_rect_is_tight_on_each_side() {
    let points = [(10, 40), (13, 22), (19, 31), (11, 47), (15, 30)];
    let c = contour_of(&points);
    let r = bounding_rect(&c);
    for &(x, y) in points.iter() {
        assert!(r.contains(Point::new(x, y)));
    }
    assert!(points.iter().any(|&(x, _)| x == r.left()));
    assert!(points.iter().any(|&(x, _)| x as i64 == r.right()));
    assert!(points.iter().any(|&(_, y)| y == r.top()));
    assert!(points.iter().any(|&(_, y)| y as i64 == r.bottom()));
    assert_eq!(r, Rect::new(10, 22, 10, 26));
}

#[test]
fn iou_counts_shared_and_covered_pixels() {
    let a = Rect::new(0, 0, 10, 10);
    let b = Rect::new(5, 0, 10, 10);
    let v = a.iou(&b);
    assert_eq!(v, Iou { intersection: 50, union: 150 });
    assert_eq!(ratio(v), 50.0 / 150.0);
}

#[test]
fn iou_is_symmetric() {
    let a = Rect::new(3, 4, 40, 9);
    let b = Rect::new(20, 1, 35, 11);
    assert_eq!(a.iou(&b), b.iou(&a));
    assert_eq!(a.iou(&b), Iou { intersection: 23 * 8, union: 360 + 385 - 184 });
}

#[test]
fn iou_with_itself_is_one() {
    let a = Rect::new(140, 1200, 800, 120);
    let v = a.iou(&a);
    assert_eq!(v.intersection as u128, v.union);
    assert_eq!(ratio(v), 1.0);
}

#[test]
fn iou_of_disjoint_rects_is_zero() {
    let a = Rect::new(0, 0, 10, 10);
    let b = Rect::new(10, 0, 10, 10);
    let c = Rect::new(0, 10, 10, 10);
    assert_eq!(a.iou(&b), Iou { intersection: 0, union: 200 });
    assert_eq!(ratio(a.iou(&b)), 0.0);
    assert_eq!(ratio(a.iou(&c)), 0.0);
}

#[test]
fn iou_of_touching_edge_counts_the_shared_column() {
    let a = Rect::new(0, 0, 10, 10);
    let b = Rect::new(9, 0, 10, 10);
    assert_eq!(a.iou(&b), Iou { intersection: 10, union: 190 });
}

#[test]
fn iou_of_an_empty_rect_is_zero() {
    let a = Rect::new(0, 0, 0, 0);
    assert_eq!(a.iou(&a), Iou { intersection: 0, union: 0 });
    assert_eq!(ratio(a.iou(&a)), 0.0);
}

#[test]
fn iou_stays_between_zero_and_one() {
    let rects = [
        Rect::new(0, 0, 10, 10),
        Rect::new(-5, -5, 30, 7),
        Rect::new(3, 3, 1, 1),
        Rect::new(100, 100, 4, 4),
    ];
    for a in rects.iter() {
        for b in rects.iter() {
            let v = a.iou(b);
            assert!(v.intersection as u128 <= v.union);
            let q = ratio(v);
            assert!(0.0 <= q && q <= 1.0);
        }
    }
}

#[test]
fn exceeds_is_strict_at_the_bound() {
    let a = Rect::new(0, 0, 4, 1);
    let b = Rect::new(1, 0, 4, 1);
    let v = a.iou(&b);
    assert_eq!(v, Iou { intersection: 3, union: 5 });
    assert!(!v.exceeds(3, 5));
    assert!(v.exceeds(59, 100));
    let c = Rect::new(0, 0, 10, 1);
    let d = Rect::new(2, 0, 10, 1);
    assert_eq!(c.iou(&d), Iou { intersection: 8, union: 12 });
    assert!(c.iou(&d).exceeds(3, 5));
}
