//! The binary edge map of a screenshot and the tracing of its contours.

use vstd::prelude::*;
use crate::candidates::contours_within;
use crate::contour::{Contour, contours_view};
use crate::core_region::MAX_CENTER;
use crate::rect::{Point, lemma_product_bound};

verus! {

/// The largest number of pixels of an edge map. The tracer numbers the
/// borders it finds with an `i32`, one number for each border and one more,
/// and there are no more borders than pixels.
pub const MAX_PIXELS: usize = 0x7fff_fffe;

/// A grey image of `width` by `height` pixels, row by row from the top, one
/// byte for each pixel. A pixel other than zero lies on an edge.
#[derive(Debug)]
pub struct EdgeMap {
    width: u32,
    height: u32,
    pixels: Vec<u8>,
}

/// The geometry of an edge map and its pixels, row by row.
pub struct EdgeMapView {
    pub width: u32,
    pub height: u32,
    pub pixels: Seq<u8>,
}

/// An edge map holds one byte for each pixel, no more than `MAX_PIXELS` of
/// them, and no more rows than `MAX_CENTER`.
pub open spec fn is_edge_map(width: u32, height: u32, pixels: Seq<u8>) -> bool {
    &&& pixels.len() == width * height
    &&& pixels.len() <= MAX_PIXELS
    &&& height <= MAX_CENTER
}

/// The contours that `imageproc::contours::find_contours` traces in the grey
/// image of `width` by `height` pixels that holds `pixels` row by row: for
/// each border of a region of pixels other than zero, in the order in which
/// the tracer meets them, the pixels of that border in tracing order.
pub uninterp spec fn traced_contours(width: u32, height: u32, pixels: Seq<u8>) -> Seq<Seq<Point>>;

impl View for EdgeMap {
    type V = EdgeMapView;

    closed spec fn view(&self) -> EdgeMapView {
        EdgeMapView { width: self.width, height: self.height, pixels: self.pixels@ }
    }
}

impl EdgeMap {
    #[verifier::type_invariant]
    spec fn well_formed(self) -> bool {
        is_edge_map(self.width, self.height, self.pixels@)
    }

    /// An edge map of `width` by `height` pixels, or nothing where `pixels`
    /// does not hold one byte for each of them or the map is too large.
    pub fn new(width: u32, height: u32, pixels: Vec<u8>) -> (res: Option<EdgeMap>)
        ensures
            res is Some <==> is_edge_map(width, height, pixels@),
            res matches Some(map) ==> map@ == (EdgeMapView { width, height, pixels: pixels@ }),
    {
        proof {
            lemma_product_bound(width as int, height as int);
        }
        let count = width as u64 * height as u64;
        if pixels.len() as u64 == count && pixels.len() <= MAX_PIXELS && height as usize
            <= MAX_CENTER {
            Some(EdgeMap { width, height, pixels })
        } else {
            None
        }
    }

    pub fn width(&self) -> (w: u32)
        ensures
            w == self@.width,
    {
        self.width
    }

    pub fn height(&self) -> (h: u32)
        ensures
            h == self@.height,
    {
        self.height
    }

    pub fn pixels(&self) -> (p: &Vec<u8>)
        ensures
            p@ == self@.pixels,
    {
        &self.pixels
    }

    /// The contours of the edge map. Every point of them is a pixel of the
    /// map.
    pub fn find_contours(&self) -> (contours: Vec<Contour>)
        ensures
            contours_view(contours@) == traced_contours(self@.width, self@.height, self@.pixels),
            contours_within(contours_view(contours@), self@.width as int, self@.height as int),
            is_edge_map(self@.width, self@.height, self@.pixels),
    {
        proof {
            use_type_invariant(self);
        }
        trace_contours(self.width, self.height, &self.pixels)
    }
}

/// Calls `imageproc::contours::find_contours::<i32>` on the grey image made
/// of `pixels` with `image::GrayImage::from_raw`, and hands the points of each
/// contour on, one for one.
///
/// The tracer reads nothing but the image, so the result is named by
/// `traced_contours` of the three arguments. Every point it records is a
/// pixel of the image: a contour begins at a pixel met in the scan of the
/// image and goes on only to neighbours that were found within its bounds.
/// `requires` leaves out what the outside code does not handle: a buffer that
/// is no image of that size, for which `from_raw` gives nothing, and an image
/// with more pixels than `MAX_PIXELS`, in which the border number, an `i32`,
/// can overflow.
#[verifier::external_body]
fn trace_contours(width: u32, height: u32, pixels: &Vec<u8>) -> (contours: Vec<Contour>)
    requires
        pixels@.len() == width * height,
        pixels@.len() <= MAX_PIXELS,
    ensures
        contours_view(contours@) == traced_contours(width, height, pixels@),
        contours_within(contours_view(contours@), width as int, height as int),
{
    let image = image::GrayImage::from_raw(width, height, pixels.clone()).unwrap();
    imageproc::contours::find_contours::<i32>(&image)
        .into_iter()
        .map(|c| Contour { points: c.points.into_iter().map(|p| Point { x: p.x, y: p.y }).collect() })
        .collect()
}

} // verus!
