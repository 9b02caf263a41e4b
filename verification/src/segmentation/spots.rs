//! Refining and judging every spot of a frame.
use vstd::prelude::*;
use crate::advanced_segmentation::detect::{hough_circle_detection_with, is_detection};
use crate::config::{GridParams, SegmentationMethod};
use crate::error::Error;
use crate::fixed::{div_round, lemma_round_div_bounds, UNIT};
use crate::image_processing::normalize::{frame_max, lemma_frame_max, normalize_plane};
use crate::plane::Plane;
use crate::segmentation::circle::{fallback_circle, Circle, Refinement};
use crate::segmentation::classify::{classified, classify_spot};
use crate::segmentation::edge::{is_edge_refinement, segment_by_edge};
use crate::segmentation::fit::fit_circle_robust;
use crate::segmentation::hough::{is_hough_refinement, segment_by_hough};
use crate::types::{ImageData, Spot};

verus! {

/// The refinement of a pinned spot: its fixed position, with the radius that
/// it has.
pub open spec fn pinned_refinement(spot: Spot) -> Refinement {
    Refinement::Fitted(Circle { x: spot.x_fixed, y: spot.y_fixed, radius: (spot.diameter / 2) as i64 })
}

/// What the refinement makes of the answer of the adaptive detector: the
/// circle that it found, if it is of a size to compute with, else the circle
/// to fall back on.
pub open spec fn detection_refinement(
    found: Option<crate::advanced_segmentation::transform::Circle>,
    spot: Spot,
    pitch: int,
) -> Refinement {
    match found {
        Some(c) => if (Circle { x: c.x, y: c.y, radius: c.radius }).wf() {
            Refinement::Fitted(Circle { x: c.x, y: c.y, radius: c.radius })
        } else {
            Refinement::Fallback(fallback_circle(spot.grid_x, spot.grid_y, pitch))
        },
        None => Refinement::Fallback(fallback_circle(spot.grid_x, spot.grid_y, pitch)),
    }
}

/// Whether `refined` can be the refinement of a spot: for a pinned spot it is
/// its fixed position; for another it is what the method of the parameters
/// gives.
pub open spec fn is_refinement_of<F: Fn(&Vec<(usize, usize)>) -> Option<Circle>>(
    refined: Refinement,
    spot: Spot,
    normalized: Plane<i64>,
    samples: Plane<u16>,
    params: GridParams,
    fit: F,
) -> bool {
    if spot.is_pinned() {
        refined == pinned_refinement(spot)
    } else {
        match params.segmentation_method {
            SegmentationMethod::Edge => is_edge_refinement(refined, normalized, spot, params, fit),
            SegmentationMethod::Hough => is_hough_refinement(refined, normalized, spot, params),
            SegmentationMethod::Advanced => exists|
                found: Option<crate::advanced_segmentation::transform::Circle>,
            |
                #[trigger] is_detection(found, samples, spot, params, fit) && refined
                    == detection_refinement(found, spot, params.spot_pitch as int),
        }
    }
}

/// Whether `after` is the spot `before` with the geometry and the flags that
/// the refinement `refined` gives.
pub open spec fn is_judged<F: Fn(&Vec<(usize, usize)>) -> Option<Circle>>(
    before: Spot,
    after: Spot,
    refined: Refinement,
    normalized: Plane<i64>,
    samples: Plane<u16>,
    params: GridParams,
    fit: F,
) -> bool {
    &&& is_refinement_of(refined, before, normalized, samples, params, fit)
    &&& after == classified(before, refined, params, normalized)
}

/// Whether `after` is the spot `before`, refined and judged.
pub open spec fn is_segmented<F: Fn(&Vec<(usize, usize)>) -> Option<Circle>>(
    before: Spot,
    after: Spot,
    normalized: Plane<i64>,
    samples: Plane<u16>,
    params: GridParams,
    fit: F,
) -> bool {
    exists|refined: Refinement| #[trigger]
        is_judged(before, after, refined, normalized, samples, params, fit)
}

/// Whether `samples` holds the samples of the frame and `normalized` the
/// samples as fractions of the largest.
pub open spec fn is_frame_of(normalized: Plane<i64>, samples: Plane<u16>, image: ImageData) -> bool {
    &&& samples.wf() && samples.height == image.height && samples.width == image.width
    &&& forall|y: int, x: int| image.inside(y, x) ==> #[trigger] samples.at(y, x) == image.at(y, x)
    &&& normalized.wf() && normalized.height == image.height && normalized.width == image.width
    &&& forall|y: int, x: int|
        image.inside(y, x) ==> #[trigger] normalized.at(y, x) == crate::image_processing::normalize::normalized(
            image.at(y, x) as int,
            frame_max(image),
        )
}

/// Refines one spot by the method of the parameters.
pub fn refine_spot<F: Fn(&Vec<(usize, usize)>) -> Option<Circle>>(
    normalized: &Plane<i64>,
    samples: &Plane<u16>,
    spot: &Spot,
    params: &GridParams,
    fit: &F,
) -> (refined: Refinement)
    requires
        normalized.wf(),
        normalized.between(0, UNIT as int),
        samples.wf(),
        samples.height == normalized.height,
        samples.width == normalized.width,
        normalized.height <= crate::types::SIDE_MAX,
        normalized.width <= crate::types::SIDE_MAX,
        spot.wf(),
        params.within_limits(),
        forall|points: &Vec<(usize, usize)>| call_requires(*fit, (points,)),
    ensures
        is_refinement_of(refined, *spot, *normalized, *samples, *params, *fit),
        refined.circle().wf(),
{
    if spot.x_fixed != 0 && spot.y_fixed != 0 {
        return Refinement::Fitted(
            Circle { x: spot.x_fixed, y: spot.y_fixed, radius: spot.diameter / 2 },
        );
    }
    match params.segmentation_method {
        SegmentationMethod::Edge => segment_by_edge(normalized, spot, params, fit),
        SegmentationMethod::Hough => segment_by_hough(normalized, spot, params),
        SegmentationMethod::Advanced => {
            let found = hough_circle_detection_with(samples, spot, params, fit);
            proof {
                lemma_round_div_bounds(3 * params.spot_pitch, 10);
            }
            let fallback = Refinement::Fallback(
                Circle {
                    x: spot.grid_x,
                    y: spot.grid_y,
                    radius: div_round(3 * (params.spot_pitch as i128), 10) as i64,
                },
            );
            let refined = match found {
                Some(c) => {
                    let circle = Circle { x: c.x, y: c.y, radius: c.radius };
                    if circle.is_wf() {
                        Refinement::Fitted(circle)
                    } else {
                        fallback
                    }
                },
                None => fallback,
            };
            assert(is_detection(found, *samples, *spot, *params, *fit) && refined
                == detection_refinement(found, *spot, params.spot_pitch as int));
            refined
        },
    }
}

/// Refines every spot of a frame and sets its quality flags: the boundary of
/// the spot is found by the method of the parameters, the spot takes position
/// and diameter from it, is bad if no boundary was found or the diameter is
/// out of bounds, and is empty if it is bad or holds no signal. Circles are
/// fitted by the robust fit.
pub fn segment_spots(image: &ImageData, spots: &mut Vec<Spot>, params: &GridParams) -> (res: Result<
    (),
    Error,
>)
    requires
        image.wf(),
        image.within_limits(),
        params.within_limits(),
        forall|i: int| 0 <= i < old(spots)@.len() ==> (#[trigger] old(spots)@[i]).wf(),
    ensures
        res.is_ok(),
        final(spots)@.len() == old(spots)@.len(),
        exists|normalized: Plane<i64>, samples: Plane<u16>|
            {
                &&& #[trigger] is_frame_of(normalized, samples, *image)
                &&& forall|i: int|
                    0 <= i < old(spots)@.len() ==> is_segmented(
                        old(spots)@[i],
                        #[trigger] final(spots)@[i],
                        normalized,
                        samples,
                        *params,
                        fit_circle_robust,
                    )
            },
        forall|i: int| 0 <= i < final(spots)@.len() ==> (#[trigger] final(spots)@[i]).wf(),
{
    segment_spots_with(image, spots, params, &fit_circle_robust)
}

/// Refines every spot of a frame and sets its quality flags, fitting circles
/// by the given fit.
pub fn segment_spots_with<F: Fn(&Vec<(usize, usize)>) -> Option<Circle>>(
    image: &ImageData,
    spots: &mut Vec<Spot>,
    params: &GridParams,
    fit: &F,
) -> (res: Result<(), Error>)
    requires
        image.wf(),
        image.within_limits(),
        params.within_limits(),
        forall|i: int| 0 <= i < old(spots)@.len() ==> (#[trigger] old(spots)@[i]).wf(),
        forall|points: &Vec<(usize, usize)>| call_requires(*fit, (points,)),
    ensures
        res.is_ok(),
        final(spots)@.len() == old(spots)@.len(),
        exists|normalized: Plane<i64>, samples: Plane<u16>|
            {
                &&& #[trigger] is_frame_of(normalized, samples, *image)
                &&& forall|i: int|
                    0 <= i < old(spots)@.len() ==> is_segmented(
                        old(spots)@[i],
                        #[trigger] final(spots)@[i],
                        normalized,
                        samples,
                        *params,
                        *fit,
                    )
            },
        forall|i: int| 0 <= i < final(spots)@.len() ==> (#[trigger] final(spots)@[i]).wf(),
{
    let samples = image.samples();
    let normalized = normalize_plane(&samples);
    proof {
        lemma_frame_max(*image, samples);
        assert forall|y: int, x: int| image.inside(y, x) implies #[trigger] normalized.at(y, x)
            == crate::image_processing::normalize::normalized(
            image.at(y, x) as int,
            frame_max(*image),
        ) by {
            assert(samples.at(y, x) == image.at(y, x));
        }
        assert(is_frame_of(normalized, samples, *image));
    }
    let mut i: usize = 0;
    while i < spots.len()
        invariant
            image.wf(),
            image.within_limits(),
            params.within_limits(),
            is_frame_of(normalized, samples, *image),
            normalized.between(0, UNIT as int),
            forall|points: &Vec<(usize, usize)>| call_requires(*fit, (points,)),
            spots@.len() == old(spots)@.len(),
            i <= spots@.len(),
            forall|k: int| i <= k < spots@.len() ==> spots@[k] == old(spots)@[k],
            forall|k: int| 0 <= k < old(spots)@.len() ==> (#[trigger] old(spots)@[k]).wf(),
            forall|k: int| 0 <= k < i ==> (#[trigger] spots@[k]).wf(),
            forall|k: int|
                0 <= k < i ==> is_segmented(
                    old(spots)@[k],
                    #[trigger] spots@[k],
                    normalized,
                    samples,
                    *params,
                    *fit,
                ),
        decreases spots@.len() - i,
    {
        assert(spots@[i as int] == old(spots)@[i as int]);
        assert(old(spots)@[i as int].wf());
        let refined = refine_spot(&normalized, &samples, &spots[i], params, fit);
        let judged = classify_spot(&normalized, &spots[i], refined, params);
        proof {
            assert(is_judged(
                old(spots)@[i as int],
                judged,
                refined,
                normalized,
                samples,
                *params,
                *fit,
            ));
        }
        spots.set(i, judged);
        i += 1;
    }
    Ok(())
}

/// Whether a spot is neither bad nor empty.
pub open spec fn is_valid_spot(spot: Spot) -> bool {
    !spot.is_bad && !spot.is_empty
}

/// Tells whether any spot of a group is of use: fails where every spot is bad
/// or empty.
pub fn check_valid_spots(spots: &[Spot]) -> (res: Result<(), Error>)
    ensures
        res.is_ok() <==> exists|i: int| 0 <= i < spots@.len() && is_valid_spot(#[trigger] spots@[i]),
        res matches Err(e) ==> e is NoValidSpots,
{
    let mut i: usize = 0;
    while i < spots.len()
        invariant
            i <= spots@.len(),
            forall|k: int| 0 <= k < i ==> !is_valid_spot(#[trigger] spots@[k]),
        decreases spots@.len() - i,
    {
        if !spots[i].is_bad && !spots[i].is_empty {
            assert(is_valid_spot(spots@[i as int]));
            return Ok(());
        }
        i += 1;
    }
    Err(Error::NoValidSpots)
}

} // verus!
