//! The parameters of grid location and segmentation.
use vstd::prelude::*;
use crate::error::{joined, Error};
use crate::fixed::{Rotation, UNIT};
use crate::grid::lattice::PITCH_MAX;
use crate::types::{GroupConfig, ImageType};

verus! {

/// How the boundary of a spot is found.
#[derive(Debug, Clone, Copy, PartialEq, Eq, Structural)]
pub enum SegmentationMethod {
    Edge,
    Hough,
    /// Hough voting over a thresholded gradient, with refinement.
    Advanced,
}

/// How the lattice is found in the frame.
#[derive(Debug, Clone, Copy, PartialEq, Eq, Structural)]
pub enum GridDetectionMethod {
    Template,
    FFT,
    Hybrid,
}

/// What `str::to_lowercase` makes of a text.
pub uninterp spec fn lowercase_of(text: Seq<char>) -> Seq<char>;

/// `str::to_lowercase`: the lowercase equivalent of a text, as a new `String`.
#[verifier::external_body]
pub(crate) fn to_lowercase(text: &str) -> (lower: String)
    ensures
        lower@ == lowercase_of(text@),
{
    text.to_lowercase()
}

pub(crate) fn same_text(a: &str, b: &str) -> (same: bool)
    ensures
        same == (a@ == b@),
{
    a.to_owned() == b.to_owned()
}

impl SegmentationMethod {
    /// The method that a name in lower case stands for.
    pub open spec fn named(lower: Seq<char>) -> Option<SegmentationMethod> {
        if lower == "edge"@ {
            Some(SegmentationMethod::Edge)
        } else if lower == "hough"@ {
            Some(SegmentationMethod::Hough)
        } else if lower == "advanced"@ {
            Some(SegmentationMethod::Advanced)
        } else {
            None
        }
    }

    /// The method that a name in lower case stands for.
    pub fn from_lowercase(lower: &str) -> (method: Option<SegmentationMethod>)
        ensures
            method == Self::named(lower@),
    {
        if same_text(lower, "edge") {
            Some(SegmentationMethod::Edge)
        } else if same_text(lower, "hough") {
            Some(SegmentationMethod::Hough)
        } else if same_text(lower, "advanced") {
            Some(SegmentationMethod::Advanced)
        } else {
            None
        }
    }

    /// Whether `res` is what reading the name of a method gives: the method
    /// that the name stands for, whatever the case of its letters, or an
    /// error that quotes the name.
    pub open spec fn is_parsed(res: Result<SegmentationMethod, Error>, name: Seq<char>) -> bool {
        match Self::named(lowercase_of(name)) {
            Some(m) => res == Ok::<SegmentationMethod, Error>(m),
            None => res matches Err(Error::InvalidParameter(text)) && text@
                == "Unknown segmentation method: "@ + name,
        }
    }

    /// The method that a name stands for, whatever the case of its letters.
    pub fn parse(name: &str) -> (res: Result<SegmentationMethod, Error>)
        ensures
            Self::is_parsed(res, name@),
    {
        let lower = to_lowercase(name);
        match Self::from_lowercase(lower.as_str()) {
            Some(m) => Ok(m),
            None => Err(Error::InvalidParameter(joined("Unknown segmentation method: ", name))),
        }
    }
}

impl core::str::FromStr for SegmentationMethod {
    type Err = Error;

    fn from_str(s: &str) -> (res: Result<SegmentationMethod, Error>)
        ensures
            SegmentationMethod::is_parsed(res, s@),
    {
        SegmentationMethod::parse(s)
    }
}

impl GridDetectionMethod {
    /// The method that a name in lower case stands for.
    pub open spec fn named(lower: Seq<char>) -> Option<GridDetectionMethod> {
        if lower == "template"@ {
            Some(GridDetectionMethod::Template)
        } else if lower == "fft"@ {
            Some(GridDetectionMethod::FFT)
        } else if lower == "hybrid"@ {
            Some(GridDetectionMethod::Hybrid)
        } else {
            None
        }
    }

    /// The method that a name in lower case stands for.
    pub fn from_lowercase(lower: &str) -> (method: Option<GridDetectionMethod>)
        ensures
            method == Self::named(lower@),
    {
        if same_text(lower, "template") {
            Some(GridDetectionMethod::Template)
        } else if same_text(lower, "fft") {
            Some(GridDetectionMethod::FFT)
        } else if same_text(lower, "hybrid") {
            Some(GridDetectionMethod::Hybrid)
        } else {
            None
        }
    }

    /// Whether `res` is what reading the name of a method gives: the method
    /// that the name stands for, whatever the case of its letters, or an
    /// error that quotes the name.
    pub open spec fn is_parsed(res: Result<GridDetectionMethod, Error>, name: Seq<char>) -> bool {
        match Self::named(lowercase_of(name)) {
            Some(m) => res == Ok::<GridDetectionMethod, Error>(m),
            None => res matches Err(Error::InvalidParameter(text)) && text@
                == "Unknown grid detection method: "@ + name,
        }
    }

    /// The method that a name stands for, whatever the case of its letters.
    pub fn parse(name: &str) -> (res: Result<GridDetectionMethod, Error>)
        ensures
            Self::is_parsed(res, name@),
    {
        let lower = to_lowercase(name);
        match Self::from_lowercase(lower.as_str()) {
            Some(m) => Ok(m),
            None => Err(Error::InvalidParameter(joined("Unknown grid detection method: ", name))),
        }
    }
}

impl core::str::FromStr for GridDetectionMethod {
    type Err = Error;

    fn from_str(s: &str) -> (res: Result<GridDetectionMethod, Error>)
        ensures
            GridDetectionMethod::is_parsed(res, s@),
    {
        GridDetectionMethod::parse(s)
    }
}

/// Grid detection and processing parameters. Lengths that are called
/// relative are in millionths of the spot pitch, the others in millionths of
/// a pixel.
#[derive(Debug, Clone)]
pub struct GridParams {
    /// Minimum spot diameter (relative).
    pub min_diameter: i64,
    /// Maximum spot diameter (relative).
    pub max_diameter: i64,
    /// Minimum signal-to-noise ratio for spot detection, in millionths.
    pub min_snr: i64,
    /// Maximum position offset for regular spots (relative).
    pub max_position_offset: i64,
    /// Maximum position offset for reference spots (relative).
    pub max_position_offset_refs: i64,
    /// Spot pitch.
    pub spot_pitch: i64,
    /// Spot size.
    pub spot_size: i64,
    /// The rotations to try.
    pub rotation_range: Vec<Rotation>,
    /// Search diameter for spot detection.
    pub search_diameter: i64,
    /// Array layout file path.
    pub array_layout_file: Option<String>,
    /// Saturation limit, in millionths of a sample step.
    pub saturation_limit: i64,
    pub segmentation_method: SegmentationMethod,
    pub grid_detection_method: GridDetectionMethod,
    /// Edge sensitivity: the low and the high threshold of the hysteresis.
    pub edge_sensitivity: [i64; 2],
    /// Side of the window in which the boundary is searched (relative).
    pub area_size: i64,
    /// Minimum number of edge pixels of a boundary.
    pub min_edge_pixels: usize,
    /// Background offset (relative).
    pub bg_offset: i64,
    /// Large disk size for preprocessing (relative).
    pub large_disk: i64,
    /// Small disk size for preprocessing (relative).
    pub small_disk: i64,
}

impl Default for GridParams {
    fn default() -> (p: GridParams)
        ensures
            p.min_diameter == 450_000,
            p.max_diameter == 850_000,
            p.min_snr == 1_000_000,
            p.max_position_offset == 400_000,
            p.max_position_offset_refs == 600_000,
            p.spot_pitch == 21_500_000,
            p.spot_size == 660_000,
            p.rotation_range@ == seq![Rotation { degrees: 0, cos: UNIT, sin: 0 }],
            p.search_diameter == 15_000_000,
            p.array_layout_file.is_none(),
            p.saturation_limit == 4_095_000_000,
            p.segmentation_method == SegmentationMethod::Edge,
            p.grid_detection_method == GridDetectionMethod::Template,
            p.edge_sensitivity@ == seq![0i64, 10_000i64],
            p.area_size == 700_000,
            p.min_edge_pixels == 6,
            p.bg_offset == 450_000,
            p.large_disk == 510_000,
            p.small_disk == 170_000,
            p.is_valid(),
            p.within_limits(),
    {
        let mut rotation_range: Vec<Rotation> = Vec::new();
        rotation_range.push(Rotation::none());
        let p = GridParams {
            min_diameter: 450_000,
            max_diameter: 850_000,
            min_snr: 1_000_000,
            max_position_offset: 400_000,
            max_position_offset_refs: 600_000,
            spot_pitch: 21_500_000,
            spot_size: 660_000,
            rotation_range,
            search_diameter: 15_000_000,
            array_layout_file: None,
            saturation_limit: 4_095_000_000,
            segmentation_method: SegmentationMethod::Edge,
            grid_detection_method: GridDetectionMethod::Template,
            edge_sensitivity: [0, 10_000],
            area_size: 700_000,
            min_edge_pixels: 6,
            bg_offset: 450_000,
            large_disk: 510_000,
            small_disk: 170_000,
        };
        assert(p.rotation_range@ =~= seq![Rotation { degrees: 0, cos: UNIT, sin: 0 }]);
        assert(p.edge_sensitivity@ =~= seq![0i64, 10_000i64]);
        p
    }
}

/// Largest ratio or relative length of a parameter, in millionths: a thousand.
pub const RATIO_MAX: i64 = 1_000_000_000;

impl GridParams {
    /// What validation asks of the parameters.
    pub open spec fn is_valid(&self) -> bool {
        &&& self.min_diameter < self.max_diameter
        &&& self.spot_pitch >= 0
        &&& 0 < self.spot_size <= UNIT
        &&& self.edge_sensitivity[0] >= 0
        &&& self.edge_sensitivity[1] >= 0
    }

    /// The parameters are of a size that the library computes with.
    pub open spec fn within_limits(&self) -> bool {
        &&& 0 <= self.spot_pitch <= PITCH_MAX
        &&& -RATIO_MAX <= self.min_diameter <= RATIO_MAX
        &&& -RATIO_MAX <= self.max_diameter <= RATIO_MAX
        &&& -RATIO_MAX <= self.spot_size <= RATIO_MAX
        &&& 0 <= self.area_size <= RATIO_MAX
        &&& -RATIO_MAX <= self.small_disk <= RATIO_MAX
        &&& self.small_disk * self.spot_pitch <= 20_000 * (UNIT * UNIT)
        &&& self.max_diameter * self.spot_pitch <= 200_000 * (UNIT * UNIT)
        &&& self.min_diameter * self.spot_pitch <= 200_000 * (UNIT * UNIT)
        &&& -RATIO_MAX <= self.large_disk <= RATIO_MAX
        &&& 0 <= self.edge_sensitivity[0] <= RATIO_MAX
        &&& 0 <= self.edge_sensitivity[1] <= RATIO_MAX
        &&& forall|i: int|
            0 <= i < self.rotation_range@.len() ==> (#[trigger] self.rotation_range@[i]).wf()
    }

    /// Whether the parameters are of a size that the library computes with.
    pub fn fits(&self) -> (ok: bool)
        ensures
            ok == self.within_limits(),
    {
        if !(0 <= self.spot_pitch && self.spot_pitch <= PITCH_MAX && -RATIO_MAX <= self.min_diameter
            && self.min_diameter <= RATIO_MAX && -RATIO_MAX <= self.max_diameter
            && self.max_diameter <= RATIO_MAX && -RATIO_MAX <= self.spot_size && self.spot_size
            <= RATIO_MAX && 0 <= self.area_size && self.area_size <= RATIO_MAX && -RATIO_MAX
            <= self.small_disk && self.small_disk <= RATIO_MAX && -RATIO_MAX <= self.large_disk
            && self.large_disk <= RATIO_MAX && 0 <= self.edge_sensitivity[0]
            && self.edge_sensitivity[0] <= RATIO_MAX && 0 <= self.edge_sensitivity[1]
            && self.edge_sensitivity[1] <= RATIO_MAX) {
            return false;
        }
        proof {
            crate::fixed::lemma_product_bound(
                self.small_disk as int,
                1_000_000_000,
                self.spot_pitch as int,
                10_000_000_000,
            );
            crate::fixed::lemma_product_bound(
                self.max_diameter as int,
                1_000_000_000,
                self.spot_pitch as int,
                10_000_000_000,
            );
            crate::fixed::lemma_product_bound(
                self.min_diameter as int,
                1_000_000_000,
                self.spot_pitch as int,
                10_000_000_000,
            );
        }
        let pitch: i128 = self.spot_pitch as i128;
        if (self.small_disk as i128) * pitch > 20_000_000_000_000_000 || (self.max_diameter as i128)
            * pitch > 200_000_000_000_000_000 || (self.min_diameter as i128) * pitch
            > 200_000_000_000_000_000 {
            return false;
        }
        let mut i: usize = 0;
        while i < self.rotation_range.len()
            invariant
                i <= self.rotation_range@.len(),
                forall|k: int| 0 <= k < i ==> (#[trigger] self.rotation_range@[k]).wf(),
            decreases self.rotation_range@.len() - i,
        {
            let r: Rotation = self.rotation_range[i];
            if !r.is_wf() {
                assert(!self.rotation_range@[i as int].wf());
                return false;
            }
            i += 1;
        }
        true
    }

    /// The complaint of validation about the first requirement that the
    /// parameters break.
    pub open spec fn complaint(&self) -> Seq<char> {
        if self.min_diameter >= self.max_diameter {
            "min_diameter must be less than max_diameter"@
        } else if self.spot_pitch < 0 {
            "spot_pitch must be non-negative"@
        } else if self.spot_size <= 0 || self.spot_size > UNIT {
            "spot_size must be between 0 and 1"@
        } else {
            "edge_sensitivity values must be non-negative"@
        }
    }

    /// Accepts the parameters that are valid, and rejects the others with a
    /// complaint about the first requirement that they break.
    pub fn validate(&self) -> (res: Result<(), Error>)
        ensures
            res.is_ok() <==> self.is_valid(),
            res matches Err(e) ==> e matches Error::InvalidParameter(text) && text@
                == self.complaint(),
    {
        if self.min_diameter >= self.max_diameter {
            return Err(
                Error::InvalidParameter("min_diameter must be less than max_diameter".to_string()),
            );
        }
        if self.spot_pitch < 0 {
            return Err(Error::InvalidParameter("spot_pitch must be non-negative".to_string()));
        }
        if self.spot_size <= 0 || self.spot_size > UNIT {
            return Err(Error::InvalidParameter("spot_size must be between 0 and 1".to_string()));
        }
        if self.edge_sensitivity[0] < 0 || self.edge_sensitivity[1] < 0 {
            return Err(
                Error::InvalidParameter("edge_sensitivity values must be non-negative".to_string()),
            );
        }
        Ok(())
    }
}

/// The spot pitch of a group: that of its configuration, or, where that is
/// 0, that of the camera.
pub open spec fn group_pitch(config: GroupConfig, image_type: ImageType) -> Option<i64> {
    if config.spot_pitch != 0 {
        Some(config.spot_pitch)
    } else {
        match image_type {
            ImageType::Evolve3 => Some(17_000_000i64),
            ImageType::Evolve2 => Some(21_500_000i64),
            ImageType::Unknown => None,
        }
    }
}

/// The segmentation method of a group: the one that its configuration names,
/// or the edge method where it names none.
pub open spec fn group_method(config: GroupConfig) -> SegmentationMethod {
    match SegmentationMethod::named(lowercase_of(config.seg_method@)) {
        Some(m) => m,
        None => SegmentationMethod::Edge,
    }
}

/// Whether `p` holds the parameters of a group with the spot pitch `pitch`:
/// what the configuration of the group gives, and the defaults for the rest.
pub open spec fn is_group_params(p: GridParams, config: GroupConfig, pitch: i64) -> bool {
    &&& p.min_diameter == config.min_diameter
    &&& p.max_diameter == config.max_diameter
    &&& p.spot_pitch == pitch
    &&& p.spot_size == config.spot_size
    &&& p.rotation_range@ == config.rotation@
    &&& p.saturation_limit == config.saturation_limit
    &&& p.segmentation_method == group_method(config)
    &&& p.grid_detection_method == GridDetectionMethod::Template
    &&& p.edge_sensitivity@ == seq![config.edge_sensitivity@[0], config.edge_sensitivity@[1]]
    &&& match p.array_layout_file {
        Some(path) => path@ == config.array_layout_file@ && path@.len() > 0,
        None => config.array_layout_file@.len() == 0,
    }
    &&& p.min_snr == 1_000_000
    &&& p.max_position_offset == 400_000
    &&& p.max_position_offset_refs == 600_000
    &&& p.search_diameter == 15_000_000
    &&& p.area_size == 700_000
    &&& p.min_edge_pixels == 6
    &&& p.bg_offset == 450_000
    &&& p.large_disk == 510_000
    &&& p.small_disk == 170_000
}

/// Whether the parameters of a group with the spot pitch `pitch` are valid.
pub open spec fn group_is_valid(config: GroupConfig, pitch: i64) -> bool {
    &&& config.min_diameter < config.max_diameter
    &&& pitch >= 0
    &&& 0 < config.spot_size <= UNIT
    &&& config.edge_sensitivity@[0] >= 0
    &&& config.edge_sensitivity@[1] >= 0
}

/// The complaint of validation about the parameters of a group.
pub open spec fn group_complaint(config: GroupConfig, pitch: i64) -> Seq<char> {
    if config.min_diameter >= config.max_diameter {
        "min_diameter must be less than max_diameter"@
    } else if pitch < 0 {
        "spot_pitch must be non-negative"@
    } else if config.spot_size <= 0 || config.spot_size > UNIT {
        "spot_size must be between 0 and 1"@
    } else {
        "edge_sensitivity values must be non-negative"@
    }
}

/// Whether `res` is what the configuration of a group gives: an error where
/// the spot pitch is neither given nor known for the camera, where the
/// parameters are not valid, or where no layout file is named; else the
/// parameters.
pub open spec fn is_group_result(
    res: Result<GridParams, Error>,
    config: GroupConfig,
    image_type: ImageType,
) -> bool {
    match group_pitch(config, image_type) {
        None => res matches Err(Error::InvalidConfiguration(text)) && text@
            == "Cannot auto-detect spot pitch"@,
        Some(pitch) => if !group_is_valid(config, pitch) {
            res matches Err(Error::InvalidParameter(text)) && text@ == group_complaint(
                config,
                pitch,
            )
        } else if config.array_layout_file@.len() == 0 {
            res matches Err(Error::InvalidConfiguration(text)) && text@
                == "Array layout file required"@
        } else {
            res matches Ok(p) && is_group_params(p, config, pitch) && p.is_valid()
        },
    }
}

impl GridParams {
    /// The parameters of a group, from its configuration and the camera that
    /// took its frames.
    pub fn from_group(config: &GroupConfig, image_type: ImageType) -> (res: Result<
        GridParams,
        Error,
    >)
        requires
            config.edge_sensitivity@.len() >= 2,
        ensures
            is_group_result(res, *config, image_type),
    {
        let pitch: i64 = if config.spot_pitch != 0 {
            config.spot_pitch
        } else {
            match image_type.default_spot_pitch() {
                Some(p) => p,
                None => {
                    return Err(
                        Error::InvalidConfiguration("Cannot auto-detect spot pitch".to_string()),
                    );
                },
            }
        };
        let method = match SegmentationMethod::parse(config.seg_method.as_str()) {
            Ok(m) => m,
            Err(_) => SegmentationMethod::Edge,
        };
        let mut rotation_range: Vec<Rotation> = Vec::new();
        let mut i: usize = 0;
        while i < config.rotation.len()
            invariant
                i <= config.rotation@.len(),
                rotation_range@ == config.rotation@.subrange(0, i as int),
            decreases config.rotation@.len() - i,
        {
            rotation_range.push(config.rotation[i]);
            assert(config.rotation@.subrange(0, i as int).push(config.rotation@[i as int])
                =~= config.rotation@.subrange(0, i + 1));
            i += 1;
        }
        assert(rotation_range@ =~= config.rotation@);
        let array_layout_file: Option<String> = if config.array_layout_file.as_str().is_empty() {
            None
        } else {
            Some(config.array_layout_file.clone())
        };
        let p = GridParams {
            min_diameter: config.min_diameter,
            max_diameter: config.max_diameter,
            min_snr: 1_000_000,
            max_position_offset: 400_000,
            max_position_offset_refs: 600_000,
            spot_pitch: pitch,
            spot_size: config.spot_size,
            rotation_range,
            search_diameter: 15_000_000,
            array_layout_file,
            saturation_limit: config.saturation_limit,
            segmentation_method: method,
            grid_detection_method: GridDetectionMethod::Template,
            edge_sensitivity: [config.edge_sensitivity[0], config.edge_sensitivity[1]],
            area_size: 700_000,
            min_edge_pixels: 6,
            bg_offset: 450_000,
            large_disk: 510_000,
            small_disk: 170_000,
        };
        assert(p.edge_sensitivity@ =~= seq![config.edge_sensitivity@[0], config.edge_sensitivity@[1]]);
        assert(is_group_params(p, *config, pitch));
        match p.validate() {
            Err(e) => {
                return Err(e);
            },
            Ok(()) => {},
        }
        if p.array_layout_file.is_none() {
            return Err(Error::InvalidConfiguration("Array layout file required".to_string()));
        }
        Ok(p)
    }
}

} // verus!
