use quiz_layout::contour::Contour;
use quiz_layout::core_region::{core_from_histogram, location_core, point_histogram};
use quiz_layout::rect::{Point, Rect};

fn histogram(rows: usize, dense: &[(usize, usize)]) -> Vec<u32> {
    let mut hist = vec![0u32; rows];
    for &(from, to) in dense {
        for y in from..=to {
            hist[y] = 100;
        }
    }
    hist
}

#[test]
fn histogram_counts_points_of_all_contours_by_row() {
    let contours = vec![
        Contour { points: vec![Point::new(0, 1), Point::new(5, 1), Point::new(2, 3)] },
        Contour { points: vec![] },
        Contour { points: vec![Point::new(9, 3), Point::new(9, 0), Point::new(7, 3)] },
    ];
    assert_eq!(point_histogram(&contours, 5), vec![1, 2, 0, 3, 0]);
    assert_eq!(point_histogram(&vec![], 3), vec![0, 0, 0]);
    assert_eq!(point_histogram(&vec![], 0), Vec::<u32>::new());
}

#[test]
fn clean_band_gives_an_aligned_core() {
    // content on the rows 100 to 300 of 616, nothing else: both scans run out
    let hist = histogram(616, &[(100, 300)]);
    let core = core_from_histogram(&hist, 308, 40, 1080).unwrap();
    assert_eq!(core, Rect::new(0, 0, 1080, 616));
    assert_eq!(core.height() % 28, 0);
    assert_eq!(core.top() % 28, 0);
}

#[test]
fn band_between_two_gaps_is_padded_and_aligned() {
    // content on the rows 100 to 300, and beyond a gap on row 10 and on row 500
    let hist = histogram(600, &[(10, 10), (100, 300), (500, 500)]);
    let core = core_from_histogram(&hist, 320, 40, 1080).unwrap();
    // from row 100 - 30 to row 320 + 20: 270 rows, of which 252 are kept;
    // between the raised ends, 84 and 364, lie 280 rows, so the top moves by 14
    assert_eq!(core, Rect::new(0, 98, 1080, 252));
    assert_eq!(core.height() % 28, 0);
    assert_eq!(core.top() % 28, 14);
}

#[test]
fn top_padding_is_three_quarters_of_the_bar() {
    let hist = histogram(616, &[(10, 10), (115, 300)]);
    // 3 * 42 / 4 is 31: the top is 115 - 31 = 84, and 532 rows are left
    assert_eq!(core_from_histogram(&hist, 308, 42, 7), Ok(Rect::new(0, 84, 7, 532)));
    // a bar of 40 rows pads by 30: the top is 85, raised to 112, and 531 rows are left
    assert_eq!(core_from_histogram(&hist, 308, 40, 7), Ok(Rect::new(0, 112, 7, 504)));
}

#[test]
fn bottom_padding_is_half_the_bar() {
    let hist = histogram(400, &[(350, 350)]);
    // the scan down ends at the row 350, 50 rows below center: bottom is 300 + 20
    assert_eq!(core_from_histogram(&hist, 300, 40, 7), Ok(Rect::new(0, 14, 7, 308)));
    // with a bar of 48 rows the row 350 ends the scan still, and bottom is 324
    assert_eq!(core_from_histogram(&hist, 300, 48, 7), Ok(Rect::new(0, 14, 7, 308)));
    // a bar of 49 rows reaches it: the scan runs out and bottom is 400
    assert_eq!(core_from_histogram(&hist, 300, 49, 7), Ok(Rect::new(0, 14, 7, 392)));
    let low = histogram(400, &[(399, 399)]);
    // bottom is 390 + 3
    assert_eq!(core_from_histogram(&low, 390, 7, 7), Ok(Rect::new(0, 14, 7, 392)));
}

#[test]
fn gap_of_bar_height_plus_one_does_not_end_the_scan() {
    // rows 200 and 159: 41 rows apart with a bar of 40
    let joined = histogram(400, &[(100, 100), (159, 159), (200, 200), (399, 399)]);
    // up: 201 -> 200 -> 159, then row 100 is 59 away: top is 159 - 30
    // down: row 399 is 198 away from 201: bottom is 201 + 20
    assert_eq!(core_from_histogram(&joined, 201, 40, 7), Ok(Rect::new(0, 140, 7, 84)));
    // rows 200 and 158: 42 rows apart
    let parted = histogram(400, &[(100, 100), (158, 158), (200, 200), (399, 399)]);
    // up: 201 -> 200, then row 158 is 42 away: top is 200 - 30, and 51 rows are left
    assert_eq!(core_from_histogram(&parted, 201, 40, 7), Ok(Rect::new(0, 196, 7, 28)));
}

#[test]
fn band_of_28_rows_is_too_short() {
    let hist = histogram(400, &[(50, 50), (172, 199), (300, 300)]);
    // up: row by row to 172, row 50 ends it: top 172; down: row 300 ends it: bottom 200
    assert_eq!(core_from_histogram(&hist, 200, 0, 7), Err(28));
    let hist = histogram(400, &[(50, 50), (171, 199), (300, 300)]);
    assert_eq!(core_from_histogram(&hist, 200, 0, 7), Ok(Rect::new(0, 196, 7, 28)));
    assert_eq!(core_from_histogram(&Vec::new(), 0, 40, 7), Err(0));
}

#[test]
fn first_content_row_beyond_the_gap_ends_the_scan_at_center() {
    let hist = histogram(400, &[(172, 172), (300, 300)]);
    // row 172 is 28 rows above center, more than 1: top is 200, as bottom is
    assert_eq!(core_from_histogram(&hist, 200, 0, 7), Err(0));
}

#[test]
fn threshold_is_42_points_on_a_row() {
    let mut hist = vec![0u32; 400];
    for y in 172..200 {
        hist[y] = 42;
    }
    hist[50] = 41;
    hist[300] = 42;
    // row 50 is no content: the scan up runs out, top is 0, bottom 200
    assert_eq!(core_from_histogram(&hist, 200, 0, 7), Ok(Rect::new(0, 14, 7, 196)));
    hist[50] = 42;
    assert_eq!(core_from_histogram(&hist, 200, 0, 7), Err(28));
}

#[test]
fn location_core_counts_every_contour() {
    let mut contours = Vec::new();
    // 21 points from each of two contours make row 172 content
    for _ in 0..2 {
        contours.push(Contour { points: (0..21).map(|x| Point::new(x, 172)).collect() });
    }
    contours.push(Contour { points: (0..42).map(|x| Point::new(x, 50)).collect() });
    contours.push(Contour { points: (0..42).map(|x| Point::new(x, 300)).collect() });
    // top is 172 - 30, bottom 200 + 20
    assert_eq!(location_core(&contours, 200, 40, 640, 400), Ok(Rect::new(0, 168, 640, 56)));
    contours.remove(0);
    // row 172 is no content now: row 50 ends the scan up, top is 200 - 30
    assert_eq!(location_core(&contours, 200, 40, 640, 400), Ok(Rect::new(0, 196, 640, 28)));
}
