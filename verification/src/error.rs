//! The library's error type.
use vstd::prelude::*;
use vstd::string::StringExecFns;

verus! {

/// What can go wrong in the library. Each variant that carries a `String`
/// carries a message for the user.
#[derive(Debug)]
pub enum Error {
    /// A parameter was rejected at validation.
    InvalidParameter(String),
    /// An image does not have the size that was expected.
    InvalidDimensions { expected: String, actual: String },
    /// No lattice could be located in the image.
    GridDetectionFailed(String),
    /// No boundary could be fitted to a spot.
    SegmentationFailed(String),
    /// Every spot of a group came out bad or empty.
    NoValidSpots,
    FileNotFound(String),
    InvalidConfiguration(String),
    ProcessingError(String),
}

pub type Result<T> = core::result::Result<T, Error>;

/// `head` followed by `tail`.
pub(crate) fn joined(head: &str, tail: &str) -> (text: String)
    ensures
        text@ == head@ + tail@,
{
    let start: String = <String as StringExecFns>::from_str(head);
    start.concat(tail)
}

impl Error {
    /// The text that a user is shown for this error.
    pub open spec fn message_text(&self) -> Seq<char> {
        match self {
            Error::InvalidParameter(m) => "Invalid parameter: "@ + m@,
            Error::InvalidDimensions { expected, actual } => "Invalid image dimensions: expected "@
                + expected@ + ", got "@ + actual@,
            Error::GridDetectionFailed(m) => "Grid detection failed: "@ + m@,
            Error::SegmentationFailed(m) => "Segmentation failed: "@ + m@,
            Error::NoValidSpots => "No valid spots found"@,
            Error::FileNotFound(m) => "File not found: "@ + m@,
            Error::InvalidConfiguration(m) => "Invalid configuration: "@ + m@,
            Error::ProcessingError(m) => "Processing error: "@ + m@,
        }
    }

    /// The text that a user is shown for this error.
    pub fn message(&self) -> (text: String)
        ensures
            text@ == self.message_text(),
    {
        match self {
            Error::InvalidParameter(m) => joined("Invalid parameter: ", m.as_str()),
            Error::InvalidDimensions { expected, actual } => {
                let head = joined("Invalid image dimensions: expected ", expected.as_str());
                let middle = joined(head.as_str(), ", got ");
                joined(middle.as_str(), actual.as_str())
            },
            Error::GridDetectionFailed(m) => joined("Grid detection failed: ", m.as_str()),
            Error::SegmentationFailed(m) => joined("Segmentation failed: ", m.as_str()),
            Error::NoValidSpots => "No valid spots found".to_string(),
            Error::FileNotFound(m) => joined("File not found: ", m.as_str()),
            Error::InvalidConfiguration(m) => joined("Invalid configuration: ", m.as_str()),
            Error::ProcessingError(m) => joined("Processing error: ", m.as_str()),
        }
    }
}

} // verus!
