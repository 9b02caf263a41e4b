//! Refining a spot by votes over centre and radius, with a threshold that
//! adapts to the window and a fit to the pixels near the winner.
pub mod adaptive;
pub mod transform;
pub mod detect;

pub use adaptive::adaptive_edge_detection;
pub use transform::{hough_transform, Circle};
pub use detect::{
    hough_circle_detection, hough_circle_detection_with, refine_circle_parameters,
};
