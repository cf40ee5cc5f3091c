use quiz_layout::nms::nms;
use quiz_layout::rect::Rect;

#[test]
fn nms_of_nothing_is_nothing() {
    assert_eq!(nms(&vec![]), vec![]);
}

#[test]
fn nms_leaves_disjoint_rects_unchanged() {
    let rects = vec![
        Rect::new(140, 1620, 800, 120),
        Rect::new(140, 1200, 800, 120),
        Rect::new(140, 1480, 800, 120),
        Rect::new(0, 0, 100, 100),
        Rect::new(140, 1340, 800, 120),
    ];
    assert_eq!(nms(&rects), rects);
}

#[test]
fn nms_collapses_duplicates_to_the_larger() {
    let small = Rect::new(0, 0, 100, 20);
    let large = Rect::new(0, 0, 100, 22);
    assert_eq!(nms(&vec![small, large]), vec![large]);
    assert_eq!(nms(&vec![large, small]), vec![large]);
}

#[test]
fn nms_keeps_the_first_of_equal_areas() {
    let first = Rect::new(0, 0, 100, 20);
    let second = Rect::new(1, 0, 100, 20);
    assert_eq!(nms(&vec![first, second]), vec![first]);
    assert_eq!(nms(&vec![second, first]), vec![second]);
}

#[test]
fn nms_replaces_the_matched_rect_in_place() {
    let top = Rect::new(0, 0, 100, 20);
    let bottom = Rect::new(0, 500, 100, 20);
    let larger_top = Rect::new(0, 0, 100, 22);
    assert_eq!(nms(&vec![top, bottom, larger_top]), vec![larger_top, bottom]);
}

#[test]
fn nms_lets_the_first_match_decide() {
    let a = Rect::new(0, 0, 100, 10);
    let b = Rect::new(0, 5, 100, 10);
    // c shares 800 of 1000 pixels with a, which is met first and is the larger
    let c = Rect::new(0, 2, 100, 8);
    let c_large = Rect::new(0, 1, 100, 13);
    assert_eq!(a.iou(&b).intersection, 500);
    assert!(!a.iou(&b).exceeds(3, 5));
    assert_eq!(nms(&vec![a, b, c]), vec![a, b]);
    // c_large shares 900 of 1400 pixels with a, and as many with b
    assert!(c_large.iou(&a).exceeds(3, 5));
    assert!(c_large.iou(&b).exceeds(3, 5));
    assert_eq!(nms(&vec![a, b, c_large]), vec![c_large, b]);
    assert_eq!(nms(&vec![b, a, c_large]), vec![c_large, a]);
}

#[test]
fn nms_does_not_merge_at_exactly_the_bound() {
    let a = Rect::new(0, 0, 4, 1);
    let b = Rect::new(1, 0, 5, 1);
    // 3 shared pixels of 6
    assert_eq!(nms(&vec![a, b]), vec![a, b]);
    let c = Rect::new(0, 0, 4, 1);
    let d = Rect::new(1, 0, 4, 1);
    // 3 shared pixels of 5: the ratio is 0.6, which is not above 0.6
    assert_eq!(nms(&vec![c, d]), vec![c, d]);
}

#[test]
fn nms_is_one_pass_in_input_order() {
    let a = Rect::new(0, 0, 100, 10);
    let b = Rect::new(0, 3, 100, 10);
    let c = Rect::new(0, 6, 100, 10);
    // a and b share 700 of 1300 pixels, as b and c do; a and c share 400 of 1600
    assert_eq!(nms(&vec![a, b, c]), vec![a, b, c]);
    let d = Rect::new(0, 1, 100, 10);
    // d shares 900 of 1100 pixels with a and 800 of 1200 with b, and is larger than neither
    assert_eq!(nms(&vec![a, b, d]), vec![a, b]);
    assert_eq!(nms(&vec![d, a, b]), vec![d]);
}
