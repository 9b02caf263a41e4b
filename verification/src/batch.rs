//! The work on one group of frames, from its configuration to its rows of
//! the result table.
use vstd::prelude::*;
use crate::config::{group_pitch, is_group_result, GridParams};
use crate::error::Error;
use crate::fixed::Rotation;
use crate::grid::lattice::{has_regular, layout_fits, layout_within_limits};
use crate::grid::locate::{is_best_fit, is_grid_of, process_gridding};
use crate::image_processing::rescale::{chosen_frame, is_copy, preprocess_images};
use crate::plane::Plane;
use crate::quantification::{is_result_row, quantify_spots};
use crate::segmentation::fit::fit_circle_robust;
use crate::segmentation::spots::{is_frame_of, is_segmented, segment_spots};
use crate::types::{GroupConfig, ImageData, ImageType, LayoutEntry, Spot, SpotResult};

verus! {

/// Whether `placed` holds the spots of the layout at their nominal positions
/// about the place where the lattice was located on the frame.
pub open spec fn is_located(
    placed: Seq<Spot>,
    frame: ImageData,
    layout: Seq<LayoutEntry>,
    params: GridParams,
) -> bool {
    exists|
        templates: Seq<Plane<bool>>,
        peaks: Seq<(usize, usize, i64)>,
        k: int,
        found: (i64, i64, Rotation),
    |
        {
            &&& #[trigger] is_best_fit(frame, layout, params, templates, peaks, k, found)
            &&& is_grid_of(placed, layout, (found.0, found.1), found.2, params.spot_pitch as int)
        }
}

/// Whether `spots` holds the spots `placed`, each refined and judged on the
/// frame, with the robust fit.
pub open spec fn are_segmented(
    spots: Seq<Spot>,
    placed: Seq<Spot>,
    frame: ImageData,
    params: GridParams,
) -> bool {
    &&& spots.len() == placed.len()
    &&& exists|normalized: Plane<i64>, samples: Plane<u16>|
        {
            &&& #[trigger] is_frame_of(normalized, samples, frame)
            &&& forall|i: int|
                0 <= i < placed.len() ==> is_segmented(
                    placed[i],
                    #[trigger] spots[i],
                    normalized,
                    samples,
                    params,
                    fit_circle_robust,
                )
        }
}

/// Whether `rows` holds the rows of the result table for the spots, in their
/// order.
pub open spec fn are_rows(
    rows: Seq<SpotResult>,
    spots: Seq<Spot>,
    frame: ImageData,
    group_id: Seq<char>,
) -> bool {
    &&& rows.len() == spots.len()
    &&& forall|i: int|
        0 <= i < rows.len() ==> is_result_row(#[trigger] rows[i], frame.name, spots[i], group_id)
}

/// Whether `rows` is the result table of a group on its frame: the lattice is
/// located, the spots of the layout are placed, refined and judged, and each
/// gives one row.
pub open spec fn is_group_table(
    rows: Seq<SpotResult>,
    frame: ImageData,
    layout: Seq<LayoutEntry>,
    params: GridParams,
    group_id: Seq<char>,
) -> bool {
    exists|placed: Seq<Spot>, spots: Seq<Spot>|
        {
            &&& is_located(placed, frame, layout, params)
            &&& #[trigger] are_segmented(spots, placed, frame, params)
            &&& are_rows(rows, spots, frame, group_id)
        }
}

/// Whether every frame is of a size that the library works on.
pub open spec fn frames_within_limits(images: Seq<ImageData>) -> bool {
    forall|i: int| 0 <= i < images.len() ==> (#[trigger] images[i]).within_limits()
}

/// Whether every frame is of a size that the library works on.
pub fn frames_fit(images: &[ImageData]) -> (ok: bool)
    ensures
        ok == frames_within_limits(images@),
{
    let mut i: usize = 0;
    while i < images.len()
        invariant
            i <= images@.len(),
            forall|k: int| 0 <= k < i ==> (#[trigger] images@[k]).within_limits(),
        decreases images@.len() - i,
    {
        if !images[i].fits() {
            return false;
        }
        i += 1;
    }
    true
}

/// Whether `res` is what the work on a group gives, once its parameters are
/// there: an error where a parameter, an index of the layout or a frame is
/// beyond what the library works on, and where the lattice cannot be located;
/// else the result table of the chosen frame.
pub open spec fn is_table_result(
    res: Result<Vec<SpotResult>, Error>,
    config: GroupConfig,
    params: GridParams,
    images: Seq<ImageData>,
    layout: Seq<LayoutEntry>,
) -> bool {
    let frame = images[chosen_frame(images.len() as int, config.use_image@)];
    if !params.within_limits() {
        res matches Err(Error::InvalidParameter(text)) && text@ == "a parameter is too large"@
    } else if !layout_within_limits(layout) {
        res matches Err(Error::InvalidParameter(text)) && text@ == "a layout index is too large"@
    } else if !frames_within_limits(images) {
        res matches Err(Error::InvalidDimensions { .. })
    } else if has_regular(layout) && frame.height > 0 && frame.width > 0 {
        res matches Ok(rows) && exists|copy: ImageData|
            {
                &&& #[trigger] is_copy(copy, frame)
                &&& is_group_table(rows@, copy, layout, params, config.group_id@)
            }
    } else {
        res matches Err(Error::GridDetectionFailed(_))
    }
}

/// Whether `res` is what the work on a group gives: an error for a group
/// without frames or without valid parameters, else what the work with its
/// parameters gives.
pub open spec fn is_group_outcome(
    res: Result<Vec<SpotResult>, Error>,
    config: GroupConfig,
    images: Seq<ImageData>,
    layout: Seq<LayoutEntry>,
) -> bool {
    if images.len() == 0 {
        res matches Err(Error::InvalidParameter(text)) && text@ == "No images in group"@
    } else {
        exists|loaded: Result<GridParams, Error>|
            {
                &&& #[trigger] is_group_result(
                    loaded,
                    config,
                    ImageType::of_size(images[0].width as int, images[0].height as int),
                )
                &&& match loaded {
                    Err(e) => res == Err::<Vec<SpotResult>, Error>(e),
                    Ok(params) => is_table_result(res, config, params, images, layout),
                }
            }
    }
}

/// The rows of the result table of one group, from its configuration, its
/// frames and the layout of its array: the parameters are made and checked,
/// the lattice is located on the chosen frame, and every spot of the layout
/// is placed, refined, judged and written down.
pub fn process_single_group(config: &GroupConfig, images: &[ImageData], layout: &[LayoutEntry]) -> (res:
    Result<Vec<SpotResult>, Error>)
    requires
        config.edge_sensitivity@.len() >= 2,
        forall|i: int| 0 <= i < images@.len() ==> (#[trigger] images@[i]).wf(),
    ensures
        is_group_outcome(res, *config, images@, layout@),
{
    if images.len() == 0 {
        return Err(Error::InvalidParameter("No images in group".to_string()));
    }
    let image_type = ImageType::detect(images[0].width, images[0].height);
    let loaded = GridParams::from_group(config, image_type);
    let params = match loaded {
        Err(e) => {
            let res = Err(e);
            assert(is_group_outcome(res, *config, images@, layout@));
            return res;
        },
        Ok(p) => p,
    };
    let res = group_table(config, &params, images, layout);
    assert(is_group_outcome(res, *config, images@, layout@));
    res
}

/// The rows of the result table of one group with the given parameters.
pub fn group_table(
    config: &GroupConfig,
    params: &GridParams,
    images: &[ImageData],
    layout: &[LayoutEntry],
) -> (res: Result<Vec<SpotResult>, Error>)
    requires
        images@.len() > 0,
        forall|i: int| 0 <= i < images@.len() ==> (#[trigger] images@[i]).wf(),
    ensures
        is_table_result(res, *config, *params, images@, layout@),
{
    if !params.fits() {
        return Err(Error::InvalidParameter("a parameter is too large".to_string()));
    }
    if !layout_fits(layout) {
        return Err(Error::InvalidParameter("a layout index is too large".to_string()));
    }
    if !frames_fit(images) {
        return Err(
            Error::InvalidDimensions {
                expected: "frames of at most 1000000 pixels a side".to_string(),
                actual: "a larger frame".to_string(),
            },
        );
    }
    let ghost frame = images@[chosen_frame(images@.len() as int, config.use_image@)];
    let copy = match preprocess_images(images, None, config.use_image.as_str()) {
        Ok(c) => c,
        Err(e) => {
            assert(false);
            return Err(e);
        },
    };
    assert(is_copy(copy, frame));
    let mut frames: Vec<ImageData> = Vec::new();
    frames.push(copy);
    assert(frames@.last() == copy);
    let mut spots = match process_gridding(frames.as_slice(), layout, params) {
        Ok(s) => s,
        Err(e) => {
            return Err(e);
        },
    };
    let ghost placed = spots@;
    assert(is_located(placed, copy, layout@, *params));
    let grid_image = &frames[0];
    match segment_spots(grid_image, &mut spots, params) {
        Ok(_) => {},
        Err(e) => {
            return Err(e);
        },
    }
    assert(are_segmented(spots@, placed, copy, *params));
    let res = quantify_spots(grid_image, spots.as_slice(), config.group_id.as_str(), params);
    proof {
        let rows = res->Ok_0;
        assert(are_rows(rows@, spots@, copy, config.group_id@));
        assert(is_group_table(rows@, copy, layout@, *params, config.group_id@));
    }
    res
}

} // verus!
