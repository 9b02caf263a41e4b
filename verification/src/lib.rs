//! Grid location and spot segmentation for images of spotted arrays.
//!
//! Every fractional quantity (a position, a length, a ratio, an angle) is a
//! signed integer counting millionths, see [`fixed::UNIT`]. Rasters that the
//! library computes are [`plane::Plane`]s; the camera frame itself is a
//! [`types::PixelGrid`].
use vstd::prelude::*;

pub mod fixed;
pub mod trig;
pub mod plane;
pub mod wide;
pub mod order;
pub mod error;
pub mod types;
pub mod config;
pub mod grid;
pub mod image_processing;
pub mod segmentation;
pub mod advanced_segmentation;
pub mod quantification;
pub mod batch;
pub mod io;

pub use config::{GridParams, SegmentationMethod};
pub use error::{Error, Result};
pub use types::{BatchConfig, ImageData, Spot, SpotResult};

verus! {

/// Library version.
pub const VERSION: &'static str = "2.0.0";

} // verus!
