//! The adaptive detector: votes on the edges of a window about the spot, and
//! a fit to the edge pixels near the winner.
use vstd::prelude::*;
use crate::advanced_segmentation::adaptive::{adaptive_edge_detection, is_adaptive_edges};
use crate::advanced_segmentation::transform::{
    are_circles_of, hough_transform, is_choice, Bin, Circle,
};
use crate::config::GridParams;
use crate::fixed::{lemma_product_bound, COORD_MAX, UNIT};
use crate::grid::refine::{first_pixel, last_pixel, search_first, search_last};
use crate::image_processing::blur::{blurred, gaussian_blur, kernel_reach};
use crate::image_processing::gradient::{compute_gradient, is_gradient_of};
use crate::image_processing::normalize::{largest_sample, normalize_plane, normalized};
use crate::plane::{lemma_cell_index, Plane};
use crate::segmentation::hough::{radius_pixels, radius_pixels_of};
use crate::segmentation::fit::fit_circle_robust;
use crate::types::{ImageData, Spot, SIDE_MAX};

verus! {

/// Least number of edge pixels to which a circle is fitted.
pub const MIN_FIT_POINTS: usize = 10;

/// Whether the pixel `(x, y)` of the frame lies near the circle: its distance
/// from the centre differs from the radius by less than 45 hundredths of the
/// radius.
pub open spec fn is_near(circle: Circle, y: int, x: int) -> bool {
    let d = (x * UNIT - circle.x) * (x * UNIT - circle.x) + (y * UNIT - circle.y) * (y * UNIT
        - circle.y);
    3025 * (circle.radius * circle.radius) < 10_000 * d && 10_000 * d < 21025 * (circle.radius
        * circle.radius)
}

/// The edge pixels near the circle among the first `n` pixels of the window,
/// as points `(x, y)` of the frame. The window has its upper left corner at
/// the pixel `(left, top)` of the frame.
pub open spec fn near_scan(edges: Plane<bool>, top: int, left: int, circle: Circle, n: nat) -> Seq<
    (usize, usize),
>
    decreases n,
{
    if n == 0 {
        Seq::empty()
    } else {
        let y = (n - 1) / (edges.width as int);
        let x = (n - 1) % (edges.width as int);
        let before = near_scan(edges, top, left, circle, (n - 1) as nat);
        if edges.at(y, x) && is_near(circle, top + y, left + x) {
            before.push(((left + x) as usize, (top + y) as usize))
        } else {
            before
        }
    }
}

/// The edge pixels of the window that lie near the circle.
pub open spec fn near_points(edges: Plane<bool>, top: int, left: int, circle: Circle) -> Seq<
    (usize, usize),
> {
    near_scan(edges, top, left, circle, (edges.height * edges.width) as nat)
}

/// Largest magnitude of the centre and the radius of a circle that is
/// refined, in millionths of a pixel.
pub const REFINE_MAX: i64 = 4_000_000_000_000;

fn near(circle: &Circle, y: usize, x: usize) -> (hit: bool)
    requires
        y <= 2 * SIDE_MAX,
        x <= 2 * SIDE_MAX,
        -REFINE_MAX <= circle.x <= REFINE_MAX,
        -REFINE_MAX <= circle.y <= REFINE_MAX,
        0 <= circle.radius <= REFINE_MAX,
    ensures
        hit == is_near(*circle, y as int, x as int),
{
    let dx: i128 = (x as i128) * 1_000_000 - circle.x as i128;
    let dy: i128 = (y as i128) * 1_000_000 - circle.y as i128;
    let r: i128 = circle.radius as i128;
    proof {
        lemma_product_bound(dx as int, 6_000_000_000_000, dx as int, 6_000_000_000_000);
        lemma_product_bound(dy as int, 6_000_000_000_000, dy as int, 6_000_000_000_000);
        lemma_product_bound(r as int, 4_000_000_000_000, r as int, 4_000_000_000_000);
        assert(6_000_000_000_000 * 6_000_000_000_000 == 36_000_000_000_000_000_000_000_000int);
        assert(4_000_000_000_000 * 4_000_000_000_000 == 16_000_000_000_000_000_000_000_000int);
        assert(dx * dx >= 0 && dy * dy >= 0 && r * r >= 0) by (nonlinear_arith);
    }
    let d: i128 = dx * dx + dy * dy;
    3025 * (r * r) < 10_000 * d && 10_000 * d < 21025 * (r * r)
}

/// The circle after the fit to the points near it: the fitted circle with
/// the votes of `initial`, if there were ten points or more, the fitted
/// radius is positive and less than the width and the height of the window,
/// and the fitted centre is of a size to compute with; else `initial`.
pub open spec fn refined_with(
    initial: Circle,
    points: int,
    answer: Option<crate::segmentation::circle::Circle>,
    width: int,
    height: int,
) -> Circle {
    match answer {
        Some(c) => if points >= MIN_FIT_POINTS && 0 < c.radius && c.radius < width * UNIT
            && c.radius < height * UNIT && -COORD_MAX <= c.x <= COORD_MAX && -COORD_MAX <= c.y
            <= COORD_MAX {
            Circle { x: c.x, y: c.y, radius: c.radius, votes: initial.votes }
        } else {
            initial
        },
        None => initial,
    }
}

/// Whether `refined` can be what the fit to the edge pixels near `initial`
/// gives: `initial` itself where less than ten edge pixels lie near it, else
/// what the answer of `fit` to those pixels makes of it.
pub open spec fn is_refined_circle<F: Fn(&Vec<(usize, usize)>) -> Option<
    crate::segmentation::circle::Circle,
>>(refined: Circle, edges: Plane<bool>, top: int, left: int, initial: Circle, fit: F) -> bool {
    &&& near_points(edges, top, left, initial).len() < MIN_FIT_POINTS ==> refined == initial
    &&& near_points(edges, top, left, initial).len() >= MIN_FIT_POINTS ==> exists|
        points: &Vec<(usize, usize)>,
        answer: Option<crate::segmentation::circle::Circle>,
    |
        {
            &&& points@ == near_points(edges, top, left, initial)
            &&& call_ensures(fit, (points,), answer)
            &&& refined == refined_with(
                initial,
                points@.len() as int,
                answer,
                edges.width as int,
                edges.height as int,
            )
        }
}

/// Refines a circle by a fit to the edge pixels near it. `edges` is the edge
/// map of a window whose upper left corner is the pixel `(left, top)` of the
/// frame; the circle and the points of the fit are in the frame.
pub fn refine_circle_parameters<F: Fn(&Vec<(usize, usize)>) -> Option<
    crate::segmentation::circle::Circle,
>>(edges: &Plane<bool>, top: usize, left: usize, initial: &Circle, fit: &F) -> (refined: Circle)
    requires
        edges.wf(),
        edges.height <= SIDE_MAX,
        edges.width <= SIDE_MAX,
        top <= SIDE_MAX,
        left <= SIDE_MAX,
        -REFINE_MAX <= initial.x <= REFINE_MAX,
        -REFINE_MAX <= initial.y <= REFINE_MAX,
        0 <= initial.radius <= REFINE_MAX,
        forall|points: &Vec<(usize, usize)>| call_requires(*fit, (points,)),
    ensures
        is_refined_circle(refined, *edges, top as int, left as int, *initial, *fit),
        -COORD_MAX <= refined.x <= COORD_MAX,
        -COORD_MAX <= refined.y <= COORD_MAX,
{
    let height: usize = edges.height;
    let width: usize = edges.width;
    let mut points: Vec<(usize, usize)> = Vec::new();
    let mut y: usize = 0;
    assert(0 * width == 0) by (nonlinear_arith);
    while y < height
        invariant
            edges.wf(),
            height == edges.height,
            width == edges.width,
            height <= SIDE_MAX,
            width <= SIDE_MAX,
            top <= SIDE_MAX,
            left <= SIDE_MAX,
            -REFINE_MAX <= initial.x <= REFINE_MAX,
            -REFINE_MAX <= initial.y <= REFINE_MAX,
            0 <= initial.radius <= REFINE_MAX,
            y <= height,
            points@ == near_scan(*edges, top as int, left as int, *initial, (y * width) as nat),
        decreases height - y,
    {
        let mut x: usize = 0;
        while x < width
            invariant
                edges.wf(),
                height == edges.height,
                width == edges.width,
                height <= SIDE_MAX,
                width <= SIDE_MAX,
                top <= SIDE_MAX,
                left <= SIDE_MAX,
                -REFINE_MAX <= initial.x <= REFINE_MAX,
                -REFINE_MAX <= initial.y <= REFINE_MAX,
                0 <= initial.radius <= REFINE_MAX,
                y < height,
                x <= width,
                points@ == near_scan(
                    *edges,
                    top as int,
                    left as int,
                    *initial,
                    (y * width + x) as nat,
                ),
            decreases width - x,
        {
            proof {
                lemma_cell_index(height as int, width as int, y as int, x as int);
            }
            if edges.get(y, x) && near(initial, top + y, left + x) {
                points.push((left + x, top + y));
            }
            x += 1;
        }
        assert((y + 1) * width == y * width + width) by (nonlinear_arith);
        y += 1;
    }
    if points.len() < MIN_FIT_POINTS {
        return *initial;
    }
    let answer = fit(&points);
    let refined = match answer {
        Some(c) => if 0 < c.radius && (c.radius as i128) < (width as i128) * 1_000_000 && (
        c.radius as i128) < (height as i128) * 1_000_000 && -COORD_MAX <= c.x && c.x <= COORD_MAX
            && -COORD_MAX <= c.y && c.y <= COORD_MAX {
            Circle { x: c.x, y: c.y, radius: c.radius, votes: initial.votes }
        } else {
            *initial
        },
        None => *initial,
    };
    proof {
        let witness = &points;
        assert(witness@ == near_points(*edges, top as int, left as int, *initial) && call_ensures(
            *fit,
            (witness,),
            answer,
        ) && refined == refined_with(
            *initial,
            witness@.len() as int,
            answer,
            edges.width as int,
            edges.height as int,
        ));
    }
    refined
}

/// Whether `edges` is the edge map that the detector takes of the window of
/// one pitch about the spot, by way of the rasters `window` (the samples of
/// the window), `scaled` (as fractions of their largest), `smooth` and
/// `gradient`: the edges are the cells whose gradient lies in the upper three
/// tenths.
pub open spec fn is_detector_chain(
    edges: Plane<bool>,
    samples: Plane<u16>,
    spot: Spot,
    pitch: int,
    window: Plane<u16>,
    scaled: Plane<i64>,
    smooth: Plane<i64>,
    gradient: Plane<i64>,
) -> bool {
    let x0 = search_first(spot.grid_x as int, pitch);
    let x1 = search_last(spot.grid_x as int, pitch, samples.width as int);
    let y0 = search_first(spot.grid_y as int, pitch);
    let y1 = search_last(spot.grid_y as int, pitch, samples.height as int);
    &&& window.wf() && window.height == y1 - y0 + 1 && window.width == x1 - x0 + 1
    &&& forall|y: int, x: int|
        window.inside(y, x) ==> #[trigger] window.at(y, x) == samples.at(y0 + y, x0 + x)
    &&& scaled.wf() && scaled.height == window.height && scaled.width == window.width
    &&& forall|y: int, x: int|
        window.inside(y, x) ==> #[trigger] scaled.at(y, x) == normalized(
            window.at(y, x) as int,
            largest_sample(window),
        )
    &&& smooth.wf() && smooth.height == window.height && smooth.width == window.width
    &&& forall|y: int, x: int|
        window.inside(y, x) ==> #[trigger] smooth.at(y, x) == blurred(
            scaled,
            kernel_reach(1_500_000),
            y,
            x,
        )
    &&& is_gradient_of(gradient, smooth)
    &&& is_adaptive_edges(edges, gradient, 300_000)
}

/// Whether the window of one pitch about the spot is more than one pixel
/// wide and high, and the radii to vote for make a range.
pub open spec fn can_detect(samples: Plane<u16>, spot: Spot, params: GridParams) -> bool {
    let pitch = params.spot_pitch as int;
    &&& samples.height > 0 && samples.width > 0
    &&& search_first(spot.grid_x as int, pitch) < search_last(
        spot.grid_x as int,
        pitch,
        samples.width as int,
    )
    &&& search_first(spot.grid_y as int, pitch) < search_last(
        spot.grid_y as int,
        pitch,
        samples.height as int,
    )
    &&& radius_pixels(params.min_diameter as int, pitch) < radius_pixels(
        params.max_diameter as int,
        pitch,
    )
}

/// A circle of the window moved into the frame.
pub open spec fn in_frame(c: Circle, top: int, left: int) -> Circle {
    Circle { x: (c.x + left * UNIT) as i64, y: (c.y + top * UNIT) as i64, ..c }
}

/// Whether `found` can be what the adaptive detector gives for a spot, by
/// way of the edge map `edges` of the window about the spot and the circles
/// `circles` of the bins `bins` that the votes on it leave: nothing where the
/// votes leave no circle, else the first of the circles, moved into the frame
/// and refined.
pub open spec fn is_detection_with<F: Fn(&Vec<(usize, usize)>) -> Option<
    crate::segmentation::circle::Circle,
>>(
    found: Option<Circle>,
    samples: Plane<u16>,
    spot: Spot,
    params: GridParams,
    fit: F,
    edges: Plane<bool>,
    bins: Seq<Bin>,
    circles: Seq<Circle>,
) -> bool {
    let pitch = params.spot_pitch as int;
    let top = search_first(spot.grid_y as int, pitch);
    let left = search_first(spot.grid_x as int, pitch);
    &&& exists|
        window: Plane<u16>,
        scaled: Plane<i64>,
        smooth: Plane<i64>,
        gradient: Plane<i64>,
    | #[trigger]
        is_detector_chain(edges, samples, spot, pitch, window, scaled, smooth, gradient)
    &&& is_choice(
        edges,
        radius_pixels(params.min_diameter as int, pitch),
        radius_pixels(params.max_diameter as int, pitch),
        bins,
    )
    &&& are_circles_of(circles, edges, radius_pixels(params.min_diameter as int, pitch), bins)
    &&& (circles.len() == 0 <==> found.is_none())
    &&& found matches Some(c) ==> is_refined_circle(
        c,
        edges,
        top,
        left,
        in_frame(circles[0], top, left),
        fit,
    )
}

/// Whether `found` can be what the adaptive detector gives for a spot.
pub open spec fn is_detection<F: Fn(&Vec<(usize, usize)>) -> Option<
    crate::segmentation::circle::Circle,
>>(found: Option<Circle>, samples: Plane<u16>, spot: Spot, params: GridParams, fit: F) -> bool {
    &&& !can_detect(samples, spot, params) ==> found.is_none()
    &&& can_detect(samples, spot, params) ==> exists|
        edges: Plane<bool>,
        bins: Seq<Bin>,
        circles: Seq<Circle>,
    | #[trigger] is_detection_with(found, samples, spot, params, fit, edges, bins, circles)
    &&& found matches Some(c) ==> -COORD_MAX <= c.x <= COORD_MAX && -COORD_MAX <= c.y <= COORD_MAX
}

/// The circle of a spot by the adaptive detector: the edges of the window
/// about the spot vote over centre and radius, and the winner is refined by
/// the robust fit to the edge pixels near it. `None` where the window is too
/// small, the radii make no range, or no circle gets ten votes.
pub fn hough_circle_detection(image: &ImageData, spot: &Spot, params: &GridParams) -> (found: Option<
    Circle,
>)
    requires
        image.wf(),
        image.within_limits(),
        spot.wf(),
        params.within_limits(),
    ensures
        exists|samples: Plane<u16>|
            {
                &&& samples.wf() && samples.height == image.height && samples.width == image.width
                &&& forall|y: int, x: int|
                    image.inside(y, x) ==> #[trigger] samples.at(y, x) == image.at(y, x)
                &&& #[trigger] is_detection(found, samples, *spot, *params, fit_circle_robust)
            },
{
    let samples = image.samples();
    let found = hough_circle_detection_with(&samples, spot, params, &fit_circle_robust);
    assert(is_detection(found, samples, *spot, *params, fit_circle_robust));
    found
}

/// The circle of a spot by the adaptive detector, on the samples of a frame
/// and with the given fit: the edges of the window about the spot vote over
/// centre and radius, and the winner is refined by a fit to the edge pixels
/// near it.
pub fn hough_circle_detection_with<F: Fn(&Vec<(usize, usize)>) -> Option<
    crate::segmentation::circle::Circle,
>>(samples: &Plane<u16>, spot: &Spot, params: &GridParams, fit: &F) -> (found: Option<Circle>)
    requires
        samples.wf(),
        samples.height <= SIDE_MAX,
        samples.width <= SIDE_MAX,
        spot.wf(),
        params.within_limits(),
        forall|points: &Vec<(usize, usize)>| call_requires(*fit, (points,)),
    ensures
        is_detection(found, *samples, *spot, *params, *fit),
{
    if samples.height == 0 || samples.width == 0 {
        return None;
    }
    let x0: i64 = first_pixel(spot.grid_x, params.spot_pitch);
    let x1: i64 = last_pixel(spot.grid_x, params.spot_pitch, samples.width);
    let y0: i64 = first_pixel(spot.grid_y, params.spot_pitch);
    let y1: i64 = last_pixel(spot.grid_y, params.spot_pitch, samples.height);
    if x1 <= x0 || y1 <= y0 {
        return None;
    }
    let min_radius: usize = radius_pixels_of(params.min_diameter, params.spot_pitch);
    let max_radius: usize = radius_pixels_of(params.max_diameter, params.spot_pitch);
    if min_radius >= max_radius || max_radius == 0 {
        return None;
    }
    let window = samples.crop(
        y0 as usize,
        x0 as usize,
        (y1 - y0 + 1) as usize,
        (x1 - x0 + 1) as usize,
    );
    let scaled = normalize_plane(&window);
    proof {
        assert forall|y: int, x: int| scaled.inside(y, x) implies -1_000_000_000_000
            <= #[trigger] scaled.at(y, x) <= 1_000_000_000_000 by {
            assert(window.inside(y, x));
            assert(0 <= scaled.at(y, x) <= UNIT);
        }
    }
    let smooth = gaussian_blur(&scaled, 1_500_000);
    let gradient = compute_gradient(&smooth);
    let edges = adaptive_edge_detection(&gradient, 300_000);
    let circles = hough_transform(&edges, min_radius, max_radius);
    let ghost bins = choose|bins: Seq<Bin>|
        {
            &&& #[trigger] is_choice(edges, min_radius as int, max_radius as int, bins)
            &&& are_circles_of(circles@, edges, min_radius as int, bins)
        };
    proof {
        assert(is_detector_chain(
            edges,
            *samples,
            *spot,
            params.spot_pitch as int,
            window,
            scaled,
            smooth,
            gradient,
        ));
    }
    if circles.len() == 0 {
        proof {
            assert(is_detection_with(
                None,
                *samples,
                *spot,
                *params,
                *fit,
                edges,
                bins,
                circles@,
            ));
        }
        return None;
    }
    let first: Circle = circles[0];
    let best = Circle {
        x: first.x + x0 * UNIT,
        y: first.y + y0 * UNIT,
        radius: first.radius,
        votes: first.votes,
    };
    assert(best == in_frame(circles@[0], y0 as int, x0 as int));
    let refined = refine_circle_parameters(&edges, y0 as usize, x0 as usize, &best, fit);
    proof {
        assert(is_detection_with(
            Some(refined),
            *samples,
            *spot,
            *params,
            *fit,
            edges,
            bins,
            circles@,
        ));
    }
    Some(refined)
}

} // verus!
