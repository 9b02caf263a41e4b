//! Operations on rasters: scaling of intensities, smoothing, gradients,
//! morphology and edge detection.
pub mod normalize;
pub mod gradient;
pub mod blur;
pub mod connect;
pub mod canny;
pub mod morphology;
pub mod rescale;
pub mod matching;

pub use normalize::{normalize_image, normalize_plane, plane_max};
pub use gradient::{compute_gradient, threshold};
pub use blur::gaussian_blur;
pub use rescale::{preprocess_images, rescale_image};
pub use canny::canny_edge_detection;
pub use matching::cross_correlate;
pub use morphology::{dilate, erode, morphological_opening};
