//! Finding the boundary of each spot and judging its quality.
pub mod circle;
pub mod component;
pub mod fit;
pub mod fit_rank;
pub mod fit_laws;
pub mod edge;
pub mod votes;
pub mod hough;
pub mod classify;
pub mod spots;

pub use circle::{Circle, Refinement};
pub use edge::segment_by_edge;
pub use fit::{fit_circle_robust, fit_circle_weighted, fit_places_robust, fit_places_weighted};
pub use spots::{check_valid_spots, refine_spot, segment_spots, segment_spots_with};
pub use classify::{check_if_empty, classify_spot};
pub use hough::{hough_circles, segment_by_hough};
