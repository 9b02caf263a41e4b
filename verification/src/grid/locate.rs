//! Finding the lattice in a frame.
use vstd::prelude::*;
use crate::config::GridParams;
use crate::error::Error;
use crate::fixed::{Rotation, UNIT};
use crate::grid::correlate::{is_peak, template_correlation};
use crate::grid::lattice::{
    generate_grid_coordinates, has_regular, lattice_bounds_of, layout_within_limits, nominal_spot,
    CENTER_MAX,
};
use crate::grid::template::{is_template, make_template};
use crate::plane::Plane;
use crate::types::{ImageData, LayoutEntry, Spot};

verus! {

/// The rotations that are tried: those of the parameters, or no rotation
/// where they name none.
pub open spec fn rotation_candidates(range: Seq<Rotation>) -> Seq<Rotation> {
    if range.len() == 0 {
        seq![Rotation { degrees: 0, cos: UNIT, sin: 0 }]
    } else {
        range
    }
}

/// Whether `found` (centre and rotation) is what the candidate `k` gives, and
/// `k` is the first candidate whose template fits the frame best. `templates`
/// and `peaks` hold, for each candidate, its template and the peak of the
/// correlation of frame and template. The centre is the place of the peak.
pub open spec fn is_best_fit(
    image: ImageData,
    layout: Seq<LayoutEntry>,
    params: GridParams,
    templates: Seq<Plane<bool>>,
    peaks: Seq<(usize, usize, i64)>,
    k: int,
    found: (i64, i64, Rotation),
) -> bool {
    let candidates = rotation_candidates(params.rotation_range@);
    &&& templates.len() == candidates.len()
    &&& peaks.len() == candidates.len()
    &&& forall|j: int|
        0 <= j < candidates.len() ==> {
            &&& (#[trigger] templates[j]).height == image.height
            &&& templates[j].width == image.width
            &&& is_template(
                templates[j],
                layout,
                params.spot_size as int,
                params.spot_pitch as int,
                candidates[j],
            )
            &&& is_peak(
                image,
                templates[j],
                peaks[j].0 as int,
                peaks[j].1 as int,
                peaks[j].2 as int,
            )
        }
    &&& 0 <= k < candidates.len()
    &&& forall|j: int|
        0 <= j < candidates.len() ==> {
            &&& (#[trigger] peaks[j]).2 <= peaks[k].2
            &&& j < k ==> peaks[j].2 < peaks[k].2
        }
    &&& found.2 == candidates[k]
    &&& found.0 == peaks[k].0 * UNIT
    &&& found.1 == peaks[k].1 * UNIT
}

/// The centre and the rotation of the lattice in a frame: for each rotation
/// that the parameters name, the template of the layout is correlated with
/// the frame, and the rotation with the highest peak wins. Fails where the
/// layout is degenerate or the frame has no pixels.
pub fn find_grid_center(image: &ImageData, layout: &[LayoutEntry], params: &GridParams) -> (res:
    Result<(i64, i64, Rotation), Error>)
    requires
        image.wf(),
        image.within_limits(),
        params.within_limits(),
        layout_within_limits(layout@),
    ensures
        res.is_ok() <==> (has_regular(layout@) && image.height > 0 && image.width > 0),
        res matches Err(e) ==> e matches Error::GridDetectionFailed(_),
        res matches Ok(found) ==> {
            &&& exists|templates: Seq<Plane<bool>>, peaks: Seq<(usize, usize, i64)>, k: int|
                is_best_fit(*image, layout@, *params, templates, peaks, k, found)
            &&& -CENTER_MAX <= found.0 <= CENTER_MAX
            &&& -CENTER_MAX <= found.1 <= CENTER_MAX
            &&& found.2.wf()
        },
{
    if image.height == 0 || image.width == 0 {
        return Err(Error::GridDetectionFailed("the image has no pixels".to_string()));
    }
    let given: usize = params.rotation_range.len();
    let count: usize = if given == 0 {
        1
    } else {
        given
    };
    let ghost candidates = rotation_candidates(params.rotation_range@);
    let ghost mut templates: Seq<Plane<bool>> = Seq::empty();
    let ghost mut peaks: Seq<(usize, usize, i64)> = Seq::empty();
    let ghost mut best_k: int = 0;
    let mut best: Option<(usize, usize, i64, Rotation)> = None;
    let mut i: usize = 0;
    while i < count
        invariant
            image.wf(),
            image.within_limits(),
            image.height > 0,
            image.width > 0,
            params.within_limits(),
            layout_within_limits(layout@),
            given == params.rotation_range@.len(),
            count == candidates.len(),
            candidates == rotation_candidates(params.rotation_range@),
            forall|j: int| 0 <= j < candidates.len() ==> (#[trigger] candidates[j]).wf(),
            i <= count,
            templates.len() == i,
            peaks.len() == i,
            i > 0 ==> has_regular(layout@),
            forall|j: int|
                0 <= j < i ==> {
                    &&& (#[trigger] templates[j]).height == image.height
                    &&& templates[j].width == image.width
                    &&& is_template(
                        templates[j],
                        layout@,
                        params.spot_size as int,
                        params.spot_pitch as int,
                        candidates[j],
                    )
                    &&& is_peak(
                        *image,
                        templates[j],
                        peaks[j].0 as int,
                        peaks[j].1 as int,
                        peaks[j].2 as int,
                    )
                },
            (i == 0) <==> best.is_none(),
            best matches Some(b) ==> {
                &&& 0 <= best_k < i
                &&& b.0 == peaks[best_k].0
                &&& b.1 == peaks[best_k].1
                &&& b.2 == peaks[best_k].2
                &&& b.3 == candidates[best_k]
                &&& forall|j: int|
                    0 <= j < i ==> {
                        &&& (#[trigger] peaks[j]).2 <= b.2
                        &&& j < best_k ==> peaks[j].2 < b.2
                    }
            },
        decreases count - i,
    {
        let rotation: Rotation = if given == 0 {
            Rotation::none()
        } else {
            params.rotation_range[i]
        };
        assert(rotation == candidates[i as int]);
        assert(image.height * image.width <= usize::MAX);
        let template = match make_template(
            (image.height, image.width),
            layout,
            params.spot_size,
            params.spot_pitch,
            rotation,
        ) {
            Err(e) => {
                return Err(e);
            },
            Ok(t) => t,
        };
        let peak = match template_correlation(image, &template) {
            None => {
                return Err(Error::GridDetectionFailed("the image has no pixels".to_string()));
            },
            Some(p) => p,
        };
        proof {
            templates = templates.push(template);
            peaks = peaks.push(peak);
        }
        let better: bool = match best {
            None => true,
            Some(b) => peak.2 > b.2,
        };
        if better {
            best = Some((peak.0, peak.1, peak.2, rotation));
            proof {
                best_k = i as int;
            }
        }
        i += 1;
    }
    match best {
        None => Err(Error::GridDetectionFailed("no rotation was tried".to_string())),
        Some(b) => {
            let found = ((b.0 as i64) * UNIT, (b.1 as i64) * UNIT, b.3);
            proof {
                assert(is_peak(
                    *image,
                    templates[best_k],
                    peaks[best_k].0 as int,
                    peaks[best_k].1 as int,
                    peaks[best_k].2 as int,
                ));
                assert(is_best_fit(*image, layout@, *params, templates, peaks, best_k, found));
            }
            Ok(found)
        },
    }
}

/// The spots that stand at the nominal positions of the layout about
/// `center`, turned by `rotation`.
pub open spec fn is_grid_of(
    spots: Seq<Spot>,
    layout: Seq<LayoutEntry>,
    center: (i64, i64),
    rotation: Rotation,
    pitch: int,
) -> bool {
    &&& spots.len() == layout.len()
    &&& forall|i: int|
        0 <= i < spots.len() ==> #[trigger] spots[i] == nominal_spot(
            layout[i],
            lattice_bounds_of(layout).unwrap(),
            (center.0 as int, center.1 as int),
            rotation,
            pitch,
        )
}

/// The spots of a layout on the last of the frames of a group: the lattice is
/// located on that frame, and every entry of the layout is put at its nominal
/// position.
pub fn process_gridding(images: &[ImageData], layout: &[LayoutEntry], params: &GridParams) -> (res:
    Result<Vec<Spot>, Error>)
    requires
        forall|i: int| 0 <= i < images@.len() ==> (#[trigger] images@[i]).wf(),
        forall|i: int| 0 <= i < images@.len() ==> (#[trigger] images@[i]).within_limits(),
        params.within_limits(),
        layout_within_limits(layout@),
    ensures
        res.is_ok() <==> (images@.len() > 0 && has_regular(layout@) && images@.last().height > 0
            && images@.last().width > 0),
        res matches Err(e) ==> if images@.len() == 0 {
            e matches Error::InvalidParameter(text) && text@ == "No images provided"@
        } else {
            e matches Error::GridDetectionFailed(_)
        },
        res matches Ok(spots) ==> {
            &&& exists|
                templates: Seq<Plane<bool>>,
                peaks: Seq<(usize, usize, i64)>,
                k: int,
                found: (i64, i64, Rotation),
            |
                {
                    &&& is_best_fit(images@.last(), layout@, *params, templates, peaks, k, found)
                    &&& is_grid_of(
                        spots@,
                        layout@,
                        (found.0, found.1),
                        found.2,
                        params.spot_pitch as int,
                    )
                }
            &&& forall|i: int| 0 <= i < spots@.len() ==> (#[trigger] spots@[i]).wf()
        },
{
    if images.len() == 0 {
        return Err(Error::InvalidParameter("No images provided".to_string()));
    }
    let grid_image = &images[images.len() - 1];
    let found = match find_grid_center(grid_image, layout, params) {
        Err(e) => {
            return Err(e);
        },
        Ok(f) => f,
    };
    let spots = generate_grid_coordinates((found.0, found.1), found.2, params.spot_pitch, layout);
    proof {
        let (templates, peaks, k) = choose|
            templates: Seq<Plane<bool>>,
            peaks: Seq<(usize, usize, i64)>,
            k: int,
        |
            is_best_fit(*grid_image, layout@, *params, templates, peaks, k, found);
        assert(is_best_fit(images@.last(), layout@, *params, templates, peaks, k, found));
        assert(is_grid_of(spots@, layout@, (found.0, found.1), found.2, params.spot_pitch as int));
    }
    Ok(spots)
}

} // verus!
