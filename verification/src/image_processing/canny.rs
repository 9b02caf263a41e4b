//! Edge detection: smoothing, gradient, thinning of ridges, and hysteresis.
use vstd::prelude::*;
use crate::config::RATIO_MAX;
use crate::fixed::{div_round, lemma_product_bound, lemma_round_div_bounds, round_div, UNIT};
use crate::image_processing::blur::{blurred, gaussian_blur, kernel_reach};
use crate::image_processing::connect::{trace_edges, traced};
use crate::image_processing::gradient::{
    compute_gradient_magnitude_direction, compute_gradients_sobel, is_polar_form,
    non_maximum_suppression, sobel_x, sobel_y, thinned, SAMPLE_MAX,
};
use crate::plane::Plane;

verus! {

/// Whether `m` is the largest cell of a raster without negative cells; 0 for
/// a raster without cells.
pub open spec fn is_largest(data: Plane<i64>, m: int) -> bool {
    &&& forall|y: int, x: int| data.inside(y, x) ==> #[trigger] data.at(y, x) <= m
    &&& (m == 0 || exists|y: int, x: int| data.inside(y, x) && #[trigger] data.at(y, x) == m)
}

/// The largest cell of a raster without negative cells.
#[verifier::loop_isolation(false)]
pub fn largest_value(data: &Plane<i64>) -> (m: i64)
    requires
        data.wf(),
    ensures
        is_largest(*data, m as int),
        m >= 0,
{
    let mut m: i64 = 0;
    let mut y: usize = 0;
    while y < data.height
        invariant
            y <= data.height,
            m >= 0,
            forall|v: int, u: int| data.inside(v, u) && v < y ==> #[trigger] data.at(v, u) <= m,
            m == 0 || exists|v: int, u: int| data.inside(v, u) && #[trigger] data.at(v, u) == m,
        decreases data.height - y,
    {
        let mut x: usize = 0;
        while x < data.width
            invariant
                y < data.height,
                x <= data.width,
                m >= 0,
                forall|v: int, u: int|
                    data.inside(v, u) && (v < y || (v == y && u < x)) ==> #[trigger] data.at(v, u)
                        <= m,
                m == 0 || exists|v: int, u: int| data.inside(v, u) && #[trigger] data.at(v, u) == m,
            decreases data.width - x,
        {
            let v: i64 = data.get(y, x);
            if v > m {
                m = v;
                assert(data.inside(y as int, x as int) && data.at(y as int, x as int) == m);
            }
            x += 1;
        }
        y += 1;
    }
    m
}

/// The magnitude that a threshold stands for: a threshold below 1 is a
/// fraction of the largest magnitude, another is a magnitude itself.
pub open spec fn threshold_level(threshold: int, largest: int) -> int {
    if threshold < UNIT {
        round_div(threshold * largest, UNIT as int)
    } else {
        threshold
    }
}

fn level_of(threshold: i64, largest: i64) -> (level: i64)
    requires
        0 <= threshold <= RATIO_MAX,
        0 <= largest <= 12 * SAMPLE_MAX,
    ensures
        level == threshold_level(threshold as int, largest as int),
{
    if threshold < UNIT {
        proof {
            lemma_product_bound(threshold as int, 1_000_000, largest as int, 12_000_000_000_000);
            lemma_round_div_bounds(threshold * largest, UNIT as int);
        }
        div_round((threshold as i128) * (largest as i128), UNIT as i128) as i64
    } else {
        threshold
    }
}

/// Whether `seeds` marks the cells from which edges are traced: the cells
/// whose magnitude reaches `high`; none where no cell has a magnitude above
/// 0.
pub open spec fn is_seed_mask(seeds: Plane<bool>, magnitude: Plane<i64>, high: int, largest: int) -> bool {
    &&& seeds.wf() && seeds.height == magnitude.height && seeds.width == magnitude.width
    &&& forall|y: int, x: int|
        magnitude.inside(y, x) ==> #[trigger] seeds.at(y, x) == (largest > 0 && magnitude.at(y, x)
            >= high)
}

/// Whether `mask` marks the cells through which edges are traced: the seeds,
/// and the cells whose magnitude reaches `low`.
pub open spec fn is_pass_mask(
    mask: Plane<bool>,
    magnitude: Plane<i64>,
    low: int,
    high: int,
    largest: int,
) -> bool {
    &&& mask.wf() && mask.height == magnitude.height && mask.width == magnitude.width
    &&& forall|y: int, x: int|
        magnitude.inside(y, x) ==> #[trigger] mask.at(y, x) == (largest > 0 && (magnitude.at(y, x)
            >= low || magnitude.at(y, x) >= high))
}

/// Whether `edges` holds the cells that a walk over cells of `mask` joins to
/// a cell of `seeds`, where `seeds` and `mask` are the seed and pass masks of
/// the magnitude raster for the levels of the two thresholds.
pub open spec fn is_hysteresis_with(
    edges: Plane<bool>,
    magnitude: Plane<i64>,
    low_threshold: int,
    high_threshold: int,
    mask: Plane<bool>,
    seeds: Plane<bool>,
    largest: int,
) -> bool {
    &&& is_largest(magnitude, largest)
    &&& is_pass_mask(
        mask,
        magnitude,
        threshold_level(low_threshold, largest),
        threshold_level(high_threshold, largest),
        largest,
    )
    &&& is_seed_mask(seeds, magnitude, threshold_level(high_threshold, largest), largest)
    &&& forall|y: int, x: int|
        magnitude.inside(y, x) ==> #[trigger] edges.at(y, x) == traced(mask, seeds, y, x)
}

/// Whether `edges` is what hysteresis makes of a magnitude raster: the cells
/// that a walk over neighbouring cells of the low level or more joins to a
/// cell of the high level or more. A raster without a magnitude above 0 has
/// no edges.
pub open spec fn is_hysteresis_of(
    edges: Plane<bool>,
    magnitude: Plane<i64>,
    low_threshold: int,
    high_threshold: int,
) -> bool {
    &&& edges.wf() && edges.height == magnitude.height && edges.width == magnitude.width
    &&& exists|mask: Plane<bool>, seeds: Plane<bool>, largest: int| #[trigger]
        is_hysteresis_with(edges, magnitude, low_threshold, high_threshold, mask, seeds, largest)
}

/// Hysteresis thresholding: keeps the cells of high magnitude and those of
/// lower magnitude that are connected to them.
#[verifier::loop_isolation(false)]
pub fn hysteresis_thresholding(magnitude: &Plane<i64>, low_threshold: i64, high_threshold: i64) -> (edges:
    Plane<bool>)
    requires
        magnitude.wf(),
        magnitude.between(0, 12 * SAMPLE_MAX),
        0 <= low_threshold <= RATIO_MAX,
        0 <= high_threshold <= RATIO_MAX,
    ensures
        is_hysteresis_of(edges, *magnitude, low_threshold as int, high_threshold as int),
{
    let height: usize = magnitude.height;
    let width: usize = magnitude.width;
    let largest: i64 = largest_value(magnitude);
    let high: i64 = level_of(high_threshold, largest);
    let low: i64 = level_of(low_threshold, largest);
    let mut mask: Plane<bool> = Plane::filled(height, width, false);
    let mut seeds: Plane<bool> = Plane::filled(height, width, false);
    let mut y: usize = 0;
    while y < height
        invariant
            y <= height,
            mask.wf() && mask.height == height && mask.width == width,
            seeds.wf() && seeds.height == height && seeds.width == width,
            forall|v: int, u: int|
                magnitude.inside(v, u) ==> #[trigger] mask.at(v, u) == (v < y && largest > 0 && (
                magnitude.at(v, u) >= low || magnitude.at(v, u) >= high)),
            forall|v: int, u: int|
                magnitude.inside(v, u) ==> #[trigger] seeds.at(v, u) == (v < y && largest > 0
                    && magnitude.at(v, u) >= high),
        decreases height - y,
    {
        let mut x: usize = 0;
        while x < width
            invariant
                y < height,
                x <= width,
                mask.wf() && mask.height == height && mask.width == width,
                seeds.wf() && seeds.height == height && seeds.width == width,
                forall|v: int, u: int|
                    magnitude.inside(v, u) ==> #[trigger] mask.at(v, u) == ((v < y || (v == y && u
                        < x)) && largest > 0 && (magnitude.at(v, u) >= low || magnitude.at(v, u)
                        >= high)),
                forall|v: int, u: int|
                    magnitude.inside(v, u) ==> #[trigger] seeds.at(v, u) == ((v < y || (v == y && u
                        < x)) && largest > 0 && magnitude.at(v, u) >= high),
            decreases width - x,
        {
            let m: i64 = magnitude.get(y, x);
            if largest > 0 {
                if m >= high {
                    seeds.set(y, x, true);
                    mask.set(y, x, true);
                } else if m >= low {
                    mask.set(y, x, true);
                }
            }
            x += 1;
        }
        y += 1;
    }
    let edges = trace_edges(&mask, &seeds);
    proof {
        assert(is_pass_mask(mask, *magnitude, low as int, high as int, largest as int));
        assert(is_seed_mask(seeds, *magnitude, high as int, largest as int));
        assert(is_hysteresis_with(
            edges,
            *magnitude,
            low_threshold as int,
            high_threshold as int,
            mask,
            seeds,
            largest as int,
        ));
    }
    edges
}

/// Whether the rasters are the stages of edge detection on `image`, each
/// made from the one before: smoothed raster, Sobel gradient, its magnitude
/// and direction, thinned ridges, and the edges that hysteresis keeps.
pub open spec fn is_edge_chain(
    edges: Plane<bool>,
    image: Plane<i64>,
    low_threshold: int,
    high_threshold: int,
    sigma: int,
    smooth: Plane<i64>,
    gradient: (Plane<i64>, Plane<i64>),
    polar: (Plane<i64>, Plane<u8>),
    ridges: Plane<i64>,
) -> bool {
    &&& smooth.wf() && smooth.height == image.height && smooth.width == image.width
    &&& forall|y: int, x: int|
        image.inside(y, x) ==> #[trigger] smooth.at(y, x) == blurred(
            image,
            kernel_reach(sigma),
            y,
            x,
        )
    &&& gradient.0.wf() && gradient.0.height == image.height && gradient.0.width == image.width
    &&& gradient.1.wf() && gradient.1.height == image.height && gradient.1.width == image.width
    &&& forall|y: int, x: int|
        image.inside(y, x) ==> #[trigger] gradient.0.at(y, x) == sobel_x(smooth, y, x)
    &&& forall|y: int, x: int|
        image.inside(y, x) ==> #[trigger] gradient.1.at(y, x) == sobel_y(smooth, y, x)
    &&& is_polar_form(gradient.0, gradient.1, polar.0, polar.1)
    &&& ridges.wf() && ridges.height == image.height && ridges.width == image.width
    &&& forall|y: int, x: int|
        image.inside(y, x) ==> #[trigger] ridges.at(y, x) == thinned(polar.0, polar.1, y, x)
    &&& is_hysteresis_of(edges, ridges, low_threshold, high_threshold)
}

/// Whether `edges` is the edge map of `image`: the raster is smoothed, its
/// Sobel gradient is taken, the ridges of the gradient magnitude are thinned,
/// and hysteresis keeps the ridges that are strong or connected to strong
/// ones.
pub open spec fn is_edge_map_of(
    edges: Plane<bool>,
    image: Plane<i64>,
    low_threshold: int,
    high_threshold: int,
    sigma: int,
) -> bool {
    exists|
        smooth: Plane<i64>,
        gradient: (Plane<i64>, Plane<i64>),
        polar: (Plane<i64>, Plane<u8>),
        ridges: Plane<i64>,
    | #[trigger]
        is_edge_chain(
            edges,
            image,
            low_threshold,
            high_threshold,
            sigma,
            smooth,
            gradient,
            polar,
            ridges,
        )
}

/// Edge detection with hysteresis thresholding on a raster of intensities.
pub fn canny_edge_detection(image: &Plane<i64>, low_threshold: i64, high_threshold: i64, sigma: i64) -> (edges:
    Plane<bool>)
    requires
        image.wf(),
        image.bounded(SAMPLE_MAX as int),
        0 <= low_threshold <= RATIO_MAX,
        0 <= high_threshold <= RATIO_MAX,
        0 <= sigma <= RATIO_MAX,
    ensures
        edges.wf(),
        edges.height == image.height,
        edges.width == image.width,
        is_edge_map_of(edges, *image, low_threshold as int, high_threshold as int, sigma as int),
{
    let smooth = gaussian_blur(image, sigma);
    let (grad_x, grad_y) = compute_gradients_sobel(&smooth);
    let (magnitude, direction) = compute_gradient_magnitude_direction(&grad_x, &grad_y);
    let ridges = non_maximum_suppression(&magnitude, &direction);
    proof {
        assert forall|y: int, x: int| ridges.inside(y, x) implies 0 <= #[trigger] ridges.at(y, x)
            <= 12 * SAMPLE_MAX by {
            assert(magnitude.inside(y, x));
            assert(0 <= magnitude.at(y, x) <= 12 * SAMPLE_MAX);
        }
    }
    let edges = hysteresis_thresholding(&ridges, low_threshold, high_threshold);
    proof {
        assert(is_edge_chain(
            edges,
            *image,
            low_threshold as int,
            high_threshold as int,
            sigma as int,
            smooth,
            (grad_x, grad_y),
            (magnitude, direction),
            ridges,
        ));
    }
    edges
}

} // verus!
