use quiz_layout::answerer::Answer;
use quiz_layout::candidates::{candidate_rects, keep_bar_shaped};
use quiz_layout::contour::Contour;
use quiz_layout::core_region::location_core;
use quiz_layout::page::{MatchError, PageQuestion};
use quiz_layout::rect::{Point, Rect};
use quiz_layout::stacking::{is_consistent, is_difference_small, is_stacked, sort_by_top};

/// The pixels on the outline of a rectangle, clockwise from its top left.
fn outline(left: i32, top: i32, width: i32, height: i32) -> Contour {
    let mut points = Vec::new();
    let right = left + width - 1;
    let bottom = top + height - 1;
    for x in left..=right {
        points.push(Point::new(x, top));
    }
    for y in top + 1..=bottom {
        points.push(Point::new(right, y));
    }
    if bottom > top {
        for x in (left..right).rev() {
            points.push(Point::new(x, bottom));
        }
    }
    if right > left {
        for y in (top + 1..bottom).rev() {
            points.push(Point::new(left, y));
        }
    }
    Contour { points }
}

/// A line of one pixel height, traced forth and back.
fn line(left: i32, y: i32, width: i32) -> Contour {
    let mut points = Vec::new();
    for x in left..left + width {
        points.push(Point::new(x, y));
    }
    for x in (left + 1..left + width - 1).rev() {
        points.push(Point::new(x, y));
    }
    Contour { points }
}

/// `count` points on row `y`, in the three leftmost columns.
fn dense_row(y: i32, count: i32) -> Contour {
    Contour { points: (0..count).map(|i| Point::new(i % 3, y)).collect() }
}

fn detection(res: Result<PageQuestion, MatchError>) -> Vec<Rect> {
    match res {
        Err(MatchError::Detection(rects)) => rects,
        other => panic!("no detection failure: {:?}", other),
    }
}

fn bars_of_a_phone_screen() -> Vec<Contour> {
    let mut contours = vec![
        outline(140, 1200, 800, 120),
        outline(140, 1340, 800, 120),
        outline(140, 1480, 800, 120),
        outline(140, 1620, 800, 120),
    ];
    for y in 900..=1180 {
        contours.push(Contour { points: (0..50).map(|x| Point::new(x, y)).collect() });
    }
    contours
}

#[test]
fn outline_has_one_point_for_each_border_pixel() {
    assert_eq!(outline(140, 1200, 800, 120).points.len(), 1836);
    assert_eq!(outline(0, 0, 10, 2).points.len(), 20);
    assert_eq!(line(0, 7, 5).points.len(), 8);
}

#[test]
fn candidates_need_points_and_width() {
    let contours = vec![
        outline(0, 0, 10, 2),
        outline(0, 10, 9, 4),
        outline(5, 20, 12, 3),
        outline(1, 30, 10, 1),
        Contour { points: vec![] },
    ];
    // 20 points and 10 wide; 22 points but 9 wide; 26 points and 12 wide; 10 points only
    assert_eq!(
        candidate_rects(&contours, 20, 40),
        vec![Rect::new(0, 0, 10, 2), Rect::new(5, 20, 12, 3)]
    );
    // half of 21 is 10 as well, but the first contour has 20 points only
    assert_eq!(candidate_rects(&contours, 21, 40), vec![Rect::new(5, 20, 12, 3)]);
}

#[test]
fn candidates_of_an_image_without_width_skip_empty_contours() {
    let contours = vec![Contour { points: vec![] }];
    assert_eq!(candidate_rects(&contours, 0, 0), vec![]);
}

#[test]
fn bar_shape_is_five_to_eight_times_as_wide_as_high() {
    let rects = vec![
        Rect::new(0, 0, 49, 10),
        Rect::new(0, 0, 50, 10),
        Rect::new(0, 0, 80, 10),
        Rect::new(0, 0, 81, 10),
        Rect::new(0, 0, 800, 120),
        Rect::new(0, 0, 1080, 300),
        Rect::new(0, 0, 6, 0),
        Rect::new(0, 0, 0, 0),
    ];
    assert_eq!(
        keep_bar_shaped(&rects),
        vec![Rect::new(0, 0, 50, 10), Rect::new(0, 0, 80, 10), Rect::new(0, 0, 800, 120)]
    );
}

#[test]
fn difference_is_small_up_to_the_threshold() {
    assert!(is_difference_small(&vec![], 3));
    assert!(is_difference_small(&vec![7], 0));
    assert!(is_difference_small(&vec![800, 803, 801, 802], 3));
    assert!(!is_difference_small(&vec![800, 804, 801, 802], 3));
    assert!(is_difference_small(&vec![-2, 1, 0], 3));
    assert!(!is_difference_small(&vec![i64::MIN, i64::MAX], i64::MAX));
}

#[test]
fn match_fails_on_three_bars() {
    let contours = vec![outline(5, 10, 10, 2), outline(5, 20, 10, 2), outline(5, 30, 10, 2)];
    let rects = detection(PageQuestion::match_contours(20, 100, &contours));
    assert_eq!(
        rects,
        vec![Rect::new(5, 10, 10, 2), Rect::new(5, 20, 10, 2), Rect::new(5, 30, 10, 2)]
    );
}

#[test]
fn match_fails_on_five_bars() {
    let contours = vec![
        outline(5, 10, 10, 2),
        outline(5, 20, 10, 2),
        outline(5, 30, 10, 2),
        outline(5, 40, 10, 2),
        outline(5, 50, 10, 2),
    ];
    let rects = detection(PageQuestion::match_contours(20, 100, &contours));
    assert_eq!(rects.len(), 5);
    assert_eq!(rects[4], Rect::new(5, 50, 10, 2));
}

#[test]
fn match_fails_without_contours() {
    assert_eq!(detection(PageQuestion::match_contours(1080, 2400, &vec![])), vec![]);
    assert_eq!(detection(PageQuestion::match_contours(0, 0, &vec![])), vec![]);
}

#[test]
fn match_counts_after_duplicates_and_shapes_are_gone() {
    // five candidates: one duplicates the first, one is no bar
    let contours = vec![
        outline(5, 10, 10, 2),
        outline(5, 20, 10, 2),
        outline(5, 10, 11, 2),
        outline(0, 60, 20, 20),
        outline(5, 30, 10, 2),
    ];
    let rects = detection(PageQuestion::match_contours(20, 100, &contours));
    assert_eq!(
        rects,
        vec![Rect::new(5, 10, 11, 2), Rect::new(5, 20, 10, 2), Rect::new(5, 30, 10, 2)]
    );
}

#[test]
fn shifted_bar_fails_the_left_edge_check() {
    let bars = vec![
        Rect::new(140, 1200, 800, 120),
        Rect::new(140, 1340, 800, 120),
        Rect::new(130, 1480, 800, 120),
        Rect::new(140, 1620, 800, 120),
    ];
    let widths: Vec<i64> = bars.iter().map(|r| r.width() as i64).collect();
    let lefts: Vec<i64> = bars.iter().map(|r| r.left() as i64).collect();
    assert!(is_difference_small(&widths, 3));
    assert!(!is_difference_small(&lefts, 3));
    assert!(!is_consistent(&bars));
    let contours = vec![
        outline(140, 1200, 800, 120),
        outline(140, 1340, 800, 120),
        outline(130, 1480, 800, 120),
        outline(140, 1620, 800, 120),
    ];
    assert_eq!(detection(PageQuestion::match_contours(1080, 2400, &contours)), bars);
}

#[test]
fn left_edges_may_differ_by_three_pixels() {
    let lefts = |shift: i32| -> Vec<i64> { vec![140, 140, 140 - shift as i64, 140] };
    assert!(is_difference_small(&lefts(3), 3));
    assert!(!is_difference_small(&lefts(4), 3));
}

#[test]
fn gap_is_taken_between_the_first_two_as_given() {
    let a = Rect::new(0, 120, 5, 1);
    let b = Rect::new(2, 100, 5, 1);
    let c = Rect::new(1, 130, 5, 1);
    let d = Rect::new(1, 110, 5, 1);
    // b begins 2 columns before a ends
    assert!(is_consistent(&vec![a, b, c, d]));
    // c begins 3 columns before a ends
    assert!(!is_consistent(&vec![a, c, b, d]));
    // a begins 6 columns before b ends
    assert!(!is_consistent(&vec![b, a, c, d]));
    let e = Rect::new(7, 100, 5, 1);
    // e begins 3 columns behind the end of a, but 7 columns right of it
    assert!(!is_consistent(&vec![a, e, c, d]));
}

#[test]
fn sort_by_top_is_stable() {
    let a = Rect::new(0, 30, 5, 1);
    let b = Rect::new(1, 10, 5, 1);
    let c = Rect::new(2, 30, 5, 1);
    let d = Rect::new(3, 20, 5, 1);
    let e = Rect::new(4, 10, 5, 1);
    assert_eq!(sort_by_top(&vec![a, b, c, d, e]), vec![b, e, d, a, c]);
    assert_eq!(sort_by_top(&vec![]), vec![]);
}

#[test]
fn stacked_bars_do_not_share_a_row() {
    let a = Rect::new(0, 10, 50, 10);
    let b = Rect::new(0, 20, 50, 10);
    let c = Rect::new(0, 19, 50, 10);
    assert!(is_stacked(&vec![a, b]));
    assert!(!is_stacked(&vec![a, c]));
    assert!(!is_stacked(&vec![b, a]));
    assert!(!is_stacked(&vec![a, a]));
    assert!(is_stacked(&vec![a]));
    assert!(is_stacked(&vec![]));
}

#[test]
fn overlapping_bars_fail_after_sorting() {
    // the first two meet edge to edge; two bars share row 151
    let contours = vec![line(0, 200, 6), line(3, 151, 6), line(0, 151, 6), line(1, 100, 6)];
    let rects = detection(PageQuestion::match_contours(9, 300, &contours));
    assert_eq!(
        rects,
        vec![
            Rect::new(1, 100, 6, 1),
            Rect::new(3, 151, 6, 1),
            Rect::new(0, 151, 6, 1),
            Rect::new(0, 200, 6, 1),
        ]
    );
}

#[test]
fn match_finds_four_small_bars() {
    let contours = vec![line(0, 120, 5), line(2, 100, 5), line(1, 130, 5), line(1, 110, 5)];
    let page = PageQuestion::match_contours(8, 200, &contours).unwrap();
    assert_eq!(
        page.check_boxes(),
        &vec![
            Rect::new(2, 100, 5, 1),
            Rect::new(1, 110, 5, 1),
            Rect::new(0, 120, 5, 1),
            Rect::new(1, 130, 5, 1),
        ]
    );
    // no row is content: the band is the whole image, 200 rows, of which 196 are kept
    assert_eq!(page.core_region(), Rect::new(0, 14, 8, 196));
    assert_eq!(*page.choice(Answer::A), Rect::new(2, 100, 5, 1));
    assert_eq!(*page.choice(Answer::B), Rect::new(1, 110, 5, 1));
    assert_eq!(*page.choice(Answer::C), Rect::new(0, 120, 5, 1));
    assert_eq!(*page.choice(Answer::D), Rect::new(1, 130, 5, 1));
}

#[test]
fn match_reads_the_question_region_from_row_density() {
    let mut contours = vec![line(0, 120, 5), line(2, 100, 5), line(1, 130, 5), line(1, 110, 5)];
    for y in 60..100 {
        contours.push(dense_row(y, 42));
    }
    contours.push(dense_row(20, 50));
    contours.push(dense_row(150, 50));
    let page = PageQuestion::match_contours(8, 200, &contours).unwrap();
    // content from row 60 to row 101: 41 rows, of which 28 are kept
    assert_eq!(page.core_region(), Rect::new(0, 84, 8, 28));
    assert_eq!(page.check_boxes()[0], Rect::new(2, 100, 5, 1));
}

#[test]
fn match_reports_a_content_band_that_is_too_short() {
    let mut contours = vec![line(0, 120, 5), line(2, 100, 5), line(1, 130, 5), line(1, 110, 5)];
    for y in 80..100 {
        contours.push(dense_row(y, 42));
    }
    contours.push(dense_row(20, 50));
    contours.push(dense_row(150, 50));
    match PageQuestion::match_contours(8, 200, &contours) {
        Err(MatchError::CoreTooShort(span)) => assert_eq!(span, 21),
        other => panic!("no short band: {:?}", other),
    }
}

#[test]
fn rows_with_41_points_are_no_content() {
    let mut contours = vec![line(0, 120, 5), line(2, 100, 5), line(1, 130, 5), line(1, 110, 5)];
    for y in 80..100 {
        contours.push(dense_row(y, 41));
    }
    contours.push(dense_row(20, 41));
    contours.push(dense_row(150, 41));
    let page = PageQuestion::match_contours(8, 200, &contours).unwrap();
    assert_eq!(page.core_region(), Rect::new(0, 14, 8, 196));
}

#[test]
fn phone_screen_fails_the_gap_check() {
    let contours = bars_of_a_phone_screen();
    let rects = detection(PageQuestion::match_contours(1080, 2400, &contours));
    assert_eq!(
        rects,
        vec![
            Rect::new(140, 1200, 800, 120),
            Rect::new(140, 1340, 800, 120),
            Rect::new(140, 1480, 800, 120),
            Rect::new(140, 1620, 800, 120),
        ]
    );
    assert!(!is_consistent(&rects));
}

#[test]
fn phone_screen_stages_after_the_gap_check() {
    let contours = bars_of_a_phone_screen();
    let rects = vec![
        Rect::new(140, 1480, 800, 120),
        Rect::new(140, 1200, 800, 120),
        Rect::new(140, 1620, 800, 120),
        Rect::new(140, 1340, 800, 120),
    ];
    let choices = sort_by_top(&rects);
    assert_eq!(
        choices,
        vec![
            Rect::new(140, 1200, 800, 120),
            Rect::new(140, 1340, 800, 120),
            Rect::new(140, 1480, 800, 120),
            Rect::new(140, 1620, 800, 120),
        ]
    );
    assert!(is_stacked(&choices));
    let center = (choices[0].top() as u32 + choices[0].height()) as usize;
    assert_eq!(center, 1320);
    // every gap between content rows is within 121 rows, from row 900 up to
    // row 1739: the band is the whole image, 2400 rows, of which 2380 are kept
    let core = location_core(&contours, center, 120, 1080, 2400);
    assert_eq!(core, Ok(Rect::new(0, 14, 1080, 2380)));
}
