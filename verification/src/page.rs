//! Matching the layout of a question page: four answer bars under a
//! question region.

use vstd::prelude::*;
use crate::answerer::Answer;
use crate::candidates::{
    candidate_rects, contours_within, is_bar_shaped, keep_bar_shaped, rect_within,
    spec_bar_shaped, spec_candidate_rects,
};
use crate::contour::{Contour, contours_view};
use crate::core_region::{ALIGN, MAX_CENTER, location_core, spec_location_core};
use crate::edge_map::{EdgeMap, traced_contours};
use crate::nms::{nms, nms_spec};
use crate::rect::{Point, Rect};
use crate::stacking::{
    is_consistent, is_ordered_by_top, is_stacked, sort_by_top, sorted_by_top,
    spec_is_consistent, spec_is_stacked,
};

verus! {

/// A question page has this many answer bars.
pub const CHOICES_NUMBER: usize = 4;

/// The layout of a question page.
#[derive(Debug)]
pub struct PageQuestion {
    core: Rect,
    check_boxes: Vec<Rect>,
}

/// The layout of a question page: the question region and the answer bars
/// from top to bottom.
pub struct PageQuestionView {
    pub core: Rect,
    pub check_boxes: Seq<Rect>,
}

/// Why a page did not match.
#[derive(Debug)]
pub enum MatchError {
    /// The rectangles found are not the four answer bars of a question page.
    /// They come along as they stood when the match was given up.
    Detection(Vec<Rect>),
    /// Four answer bars were found, but the content above them is no higher
    /// than `ALIGN` rows; its height comes along.
    CoreTooShort(usize),
}

pub enum MatchErrorView {
    Detection(Seq<Rect>),
    CoreTooShort(int),
}

impl View for PageQuestion {
    type V = PageQuestionView;

    closed spec fn view(&self) -> PageQuestionView {
        PageQuestionView { core: self.core, check_boxes: self.check_boxes@ }
    }
}

impl View for MatchError {
    type V = MatchErrorView;

    open spec fn view(&self) -> MatchErrorView {
        match self {
            MatchError::Detection(rects) => MatchErrorView::Detection(rects@),
            MatchError::CoreTooShort(span) => MatchErrorView::CoreTooShort(*span as int),
        }
    }
}

/// The outcome of a match, each side by its view.
pub open spec fn outcome_view(res: Result<PageQuestion, MatchError>) -> Result<
    PageQuestionView,
    MatchErrorView,
> {
    match res {
        Ok(page) => Ok(page@),
        Err(e) => Err(e@),
    }
}

/// The rectangles that may be answer bars: the bounding rectangles of the
/// candidate contours, without duplicates, of those the ones shaped like a
/// bar.
pub open spec fn spec_kept(contours: Seq<Seq<Point>>, img_w: int) -> Seq<Rect> {
    spec_bar_shaped(nms_spec(spec_candidate_rects(contours, img_w)))
}

/// The four answer bars among the rectangles kept, from top to bottom.
///
/// There are none where the rectangles kept are not `CHOICES_NUMBER` or are
/// not consistent: those rectangles come back as they are. There are none
/// either where, sorted by top, one of them does not begin below the one
/// before it: they come back sorted.
pub open spec fn spec_choices(contours: Seq<Seq<Point>>, img_w: int) -> Result<
    Seq<Rect>,
    Seq<Rect>,
> {
    let kept = spec_kept(contours, img_w);
    if kept.len() != CHOICES_NUMBER || !spec_is_consistent(kept) {
        Err(kept)
    } else if !spec_is_stacked(sorted_by_top(kept)) {
        Err(sorted_by_top(kept))
    } else {
        Ok(sorted_by_top(kept))
    }
}

/// The layout that the contours of an image of `img_w` by `img_h` pixels
/// show.
///
/// The match fails with the rectangles found where those are not the four
/// answer bars. Otherwise the question region is looked for from the row
/// below the topmost bar, with that bar's height as the measure, and the
/// match fails only where the content there is too short.
pub open spec fn spec_match(contours: Seq<Seq<Point>>, img_w: int, img_h: int) -> Result<
    PageQuestionView,
    MatchErrorView,
> {
    match spec_choices(contours, img_w) {
        Err(rects) => Err(MatchErrorView::Detection(rects)),
        Ok(choices) => match spec_location_core(
            contours,
            choices[0].top + choices[0].height,
            choices[0].height as int,
            img_w,
            img_h,
        ) {
            Ok(core) => Ok(PageQuestionView { core, check_boxes: choices }),
            Err(span) => Err(MatchErrorView::CoreTooShort(span)),
        },
    }
}

/// What holds of every candidate and of every rectangle kept holds of the
/// answer bars, which are among them.
proof fn lemma_members_hold(
    choices: Seq<Rect>,
    kept: Seq<Rect>,
    merged: Seq<Rect>,
    rects: Seq<Rect>,
    width: int,
    height: int,
)
    requires
        forall|i: int| 0 <= i < choices.len() ==> kept.contains(#[trigger] choices[i]),
        forall|i: int|
            0 <= i < kept.len() ==> merged.contains(#[trigger] kept[i]) && is_bar_shaped(kept[i]),
        forall|i: int| 0 <= i < merged.len() ==> rects.contains(#[trigger] merged[i]),
        forall|i: int| 0 <= i < rects.len() ==> rect_within(#[trigger] rects[i], width, height),
    ensures
        forall|i: int|
            0 <= i < choices.len() ==> is_bar_shaped(#[trigger] choices[i]) && rect_within(
                choices[i],
                width,
                height,
            ),
{
    assert forall|i: int| 0 <= i < choices.len() implies is_bar_shaped(#[trigger] choices[i])
        && rect_within(choices[i], width, height) by {
        let r = choices[i];
        assert(kept.contains(r));
        let k = choose|k: int| 0 <= k < kept.len() && kept[k] == r;
        assert(merged.contains(kept[k]));
        let m = choose|m: int| 0 <= m < merged.len() && merged[m] == r;
        assert(rects.contains(merged[m]));
        let t = choose|t: int| 0 <= t < rects.len() && rects[t] == r;
        assert(rect_within(rects[t], width, height));
    }
}

/// A match needs exactly `CHOICES_NUMBER` rectangles: with any other number
/// it fails, and the rectangles kept come back.
pub proof fn match_needs_four(contours: Seq<Seq<Point>>, img_w: int, img_h: int)
    requires
        spec_kept(contours, img_w).len() != CHOICES_NUMBER,
    ensures
        spec_match(contours, img_w, img_h) == Err::<PageQuestionView, MatchErrorView>(
            MatchErrorView::Detection(spec_kept(contours, img_w)),
        ),
{
}

/// The four answer bars that the contours show, from top to bottom, or the
/// rectangles that were found in their place.
pub fn choose_bars(width: u32, height: u32, contours: &Vec<Contour>) -> (res: Result<
    Vec<Rect>,
    Vec<Rect>,
>)
    requires
        contours_within(contours_view(contours@), width as int, height as int),
    ensures
        match res {
            Ok(choices) => spec_choices(contours_view(contours@), width as int) == Ok::<
                Seq<Rect>,
                Seq<Rect>,
            >(choices@),
            Err(rects) => spec_choices(contours_view(contours@), width as int) == Err::<
                Seq<Rect>,
                Seq<Rect>,
            >(rects@),
        },
        spec_kept(contours_view(contours@), width as int).len() != CHOICES_NUMBER ==> res is Err,
        res matches Ok(choices) ==> {
            &&& choices@.len() == CHOICES_NUMBER
            &&& is_ordered_by_top(choices@)
            &&& spec_is_stacked(choices@)
            &&& forall|i: int|
                0 <= i < choices@.len() ==> is_bar_shaped(#[trigger] choices@[i]) && rect_within(
                    choices@[i],
                    width as int,
                    height as int,
                )
        },
{
    let rects = candidate_rects(contours, width, height);
    let merged = nms(&rects);
    let kept = keep_bar_shaped(&merged);
    if kept.len() != CHOICES_NUMBER {
        return Err(kept);
    }
    if !is_consistent(&kept) {
        return Err(kept);
    }
    let choices = sort_by_top(&kept);
    if !is_stacked(&choices) {
        return Err(choices);
    }
    proof {
        lemma_members_hold(choices@, kept@, merged@, rects@, width as int, height as int);
    }
    Ok(choices)
}

impl PageQuestion {
    #[verifier::type_invariant]
    spec fn well_formed(self) -> bool {
        self.check_boxes@.len() == CHOICES_NUMBER
    }

    /// The question region.
    pub fn core_region(&self) -> (r: Rect)
        ensures
            r == self@.core,
    {
        self.core
    }

    /// The four answer bars from top to bottom.
    pub fn check_boxes(&self) -> (boxes: &Vec<Rect>)
        ensures
            boxes@ == self@.check_boxes,
            boxes@.len() == CHOICES_NUMBER,
    {
        proof {
            use_type_invariant(self);
        }
        &self.check_boxes
    }

    /// The bar of an answer: the topmost for `A`, the lowest for `D`.
    pub fn choice(&self, ans: Answer) -> (r: &Rect)
        ensures
            self@.check_boxes.len() == CHOICES_NUMBER,
            *r == self@.check_boxes[ans.spec_index()],
    {
        proof {
            use_type_invariant(self);
        }
        &self.check_boxes[ans.index()]
    }

    /// Matches the layout of a question page in an edge map: traces the
    /// contours of the map and matches those.
    pub fn match_page(edges: &EdgeMap) -> (res: Result<PageQuestion, MatchError>)
        ensures
            outcome_view(res) == spec_match(
                traced_contours(edges@.width, edges@.height, edges@.pixels),
                edges@.width as int,
                edges@.height as int,
            ),
            spec_kept(
                traced_contours(edges@.width, edges@.height, edges@.pixels),
                edges@.width as int,
            ).len() != CHOICES_NUMBER ==> res is Err,
    {
        let contours = edges.find_contours();
        PageQuestion::match_contours(edges.width(), edges.height(), &contours)
    }

    /// Matches the layout of a question page in the contours of an image of
    /// `width` by `height` pixels.
    ///
    /// On success the four answer bars are ordered from top to bottom, each
    /// begins below the last row of the one before it, and the question
    /// region spans the image width above them. Anything else is an error:
    /// there is no partial result.
    pub fn match_contours(width: u32, height: u32, contours: &Vec<Contour>) -> (res: Result<
        PageQuestion,
        MatchError,
    >)
        requires
            contours_within(contours_view(contours@), width as int, height as int),
            height <= MAX_CENTER,
        ensures
            outcome_view(res) == spec_match(
                contours_view(contours@),
                width as int,
                height as int,
            ),
            spec_kept(contours_view(contours@), width as int).len() != CHOICES_NUMBER
                ==> res is Err,
            res matches Ok(page) ==> {
                &&& page@.check_boxes.len() == CHOICES_NUMBER
                &&& is_ordered_by_top(page@.check_boxes)
                &&& spec_is_stacked(page@.check_boxes)
                &&& forall|i: int|
                    0 <= i < page@.check_boxes.len() ==> is_bar_shaped(
                        #[trigger] page@.check_boxes[i],
                    ) && rect_within(page@.check_boxes[i], width as int, height as int)
                &&& page@.core.left == 0
                &&& page@.core.width == width
                &&& page@.core.height >= ALIGN
                &&& page@.core.height as int % (ALIGN as int) == 0
            },
    {
        let choices = match choose_bars(width, height, contours) {
            Ok(choices) => choices,
            Err(rects) => {
                return Err(MatchError::Detection(rects));
            },
        };
        proof {
            let cv = contours_view(contours@);
            assert forall|c: int, p: int|
                0 <= c < cv.len() && 0 <= p < cv[c].len() implies 0 <= (#[trigger] cv[c][p]).y
                < height by {
                assert(0 <= cv[c][p].x < width);
            }
        }
        let first = choices[0];
        assert(rect_within(first, width as int, height as int));
        let center = first.top as usize + first.height as usize;
        match location_core(
            contours,
            center,
            first.height as usize,
            width as usize,
            height as usize,
        ) {
            Ok(core) => Ok(PageQuestion { core, check_boxes: choices }),
            Err(span) => Err(MatchError::CoreTooShort(span)),
        }
    }
}

} // verus!
