//! Geometric layout detection for a four-choice quiz page.
//!
//! Given the binary edge map of a screenshot and the contours traced from it,
//! the crate locates the four answer bars and the question region above them.

pub mod adb;
pub mod answerer;
pub mod candidates;
pub mod contour;
pub mod core_region;
pub mod edge_map;
pub mod logging;
pub mod nms;
pub mod page;
pub mod rect;
pub mod stacking;
pub mod text;
