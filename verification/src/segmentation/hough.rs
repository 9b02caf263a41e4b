//! Refining a spot by votes for the centre of its boundary.
use vstd::prelude::*;
use crate::config::GridParams;
use crate::fixed::{div_round, lemma_product_bound, lemma_round_div_bounds, UNIT};
use crate::grid::correlate::{find_max_2d, is_first_max, scanned_before};
use crate::grid::refine::{first_pixel, last_pixel, search_first, search_last};
use crate::image_processing::blur::{blurred, gaussian_blur, kernel_reach};
use crate::image_processing::gradient::{compute_gradient, is_gradient_of, threshold};
use crate::plane::Plane;
use crate::segmentation::circle::{fallback_circle, Circle, Refinement};
use crate::segmentation::votes::{ring_plane, ring_votes, RADIUS_MAX};
use crate::types::{Spot, SIDE_MAX};

verus! {

/// Least number of votes for a centre to count.
pub const MIN_VOTES: i64 = 10;

/// Whether `mask` marks the pixels that vote: those whose gradient exceeds
/// `level`.
pub open spec fn is_voter_mask(mask: Plane<bool>, gradient: Plane<i64>, level: int) -> bool {
    &&& mask.wf() && mask.height == gradient.height && mask.width == gradient.width
    &&& forall|y: int, x: int|
        gradient.inside(y, x) ==> #[trigger] mask.at(y, x) == (gradient.at(y, x) > level)
}

/// The votes of the bin of the centre `(x, y)` and the radius `radius`, from
/// the marked pixels, at angles ten degrees apart.
pub open spec fn bin_count(mask: Plane<bool>, radius: int, y: int, x: int) -> int {
    ring_votes(mask, radius, 10, y, x)
}

/// Whether the bin `(radius, y, x)` comes first among the bins with the most
/// votes, the bins read radius by radius from the smallest, each row by row.
pub open spec fn is_best_bin(
    mask: Plane<bool>,
    min_radius: int,
    max_radius: int,
    radius: int,
    y: int,
    x: int,
) -> bool {
    &&& min_radius <= radius <= max_radius
    &&& mask.inside(y, x)
    &&& forall|r: int, v: int, u: int|
        min_radius <= r <= max_radius && mask.inside(v, u) ==> {
            &&& #[trigger] bin_count(mask, r, v, u) <= bin_count(mask, radius, y, x)
            &&& (r < radius || (r == radius && scanned_before(v, u, y, x))) ==> bin_count(
                mask,
                r,
                v,
                u,
            ) < bin_count(mask, radius, y, x)
        }
}

/// The circle that the votes stand for: centre and radius of the first bin
/// with the most votes, if those are at least ten.
pub open spec fn is_vote_winner(
    winner: Option<Circle>,
    mask: Plane<bool>,
    min_radius: int,
    max_radius: int,
) -> bool {
    match winner {
        Some(c) => exists|radius: int, y: int, x: int|
            {
                &&& #[trigger] is_best_bin(mask, min_radius, max_radius, radius, y, x)
                &&& bin_count(mask, radius, y, x) >= MIN_VOTES
                &&& c == (Circle {
                    x: (x * UNIT) as i64,
                    y: (y * UNIT) as i64,
                    radius: (radius * UNIT) as i64,
                })
            },
        None => forall|r: int, y: int, x: int|
            min_radius <= r <= max_radius && mask.inside(y, x) ==> #[trigger] bin_count(
                mask,
                r,
                y,
                x,
            ) < MIN_VOTES,
    }
}

/// Finds a circle in a raster of gradient magnitudes by votes: every pixel
/// whose gradient exceeds `level` votes, for every radius of the range, for
/// the centres of the circles of that radius through it. The bin of centre
/// and radius with the most votes wins.
#[verifier::loop_isolation(false)]
pub fn hough_circles(gradient: &Plane<i64>, min_radius: usize, max_radius: usize, level: i64) -> (winner:
    Option<Circle>)
    requires
        gradient.wf(),
        gradient.height <= SIDE_MAX,
        gradient.width <= SIDE_MAX,
        max_radius <= RADIUS_MAX,
    ensures
        exists|mask: Plane<bool>|
            {
                &&& #[trigger] is_voter_mask(mask, *gradient, level as int)
                &&& is_vote_winner(winner, mask, min_radius as int, max_radius as int)
            },
        winner matches Some(c) ==> c.wf() && 0 <= c.x < gradient.width * UNIT && 0 <= c.y
            < gradient.height * UNIT,
{
    let mask = threshold(gradient, level);
    assert(is_voter_mask(mask, *gradient, level as int));
    if min_radius > max_radius || gradient.height == 0 || gradient.width == 0 {
        assert(is_vote_winner(None, mask, min_radius as int, max_radius as int));
        return None;
    }
    let mut best_votes: i64 = -1;
    let mut best_y: usize = 0;
    let mut best_x: usize = 0;
    let mut best_radius: usize = min_radius;
    let mut radius: usize = min_radius;
    while radius <= max_radius
        invariant
            min_radius <= radius <= max_radius + 1,
            best_votes == -1 ==> radius == min_radius,
            best_votes != -1 ==> {
                &&& is_best_bin(
                    mask,
                    min_radius as int,
                    radius - 1,
                    best_radius as int,
                    best_y as int,
                    best_x as int,
                )
                &&& best_votes == bin_count(mask, best_radius as int, best_y as int, best_x as int)
                &&& best_votes >= 0
            },
        decreases max_radius + 1 - radius,
    {
        let ring = ring_plane(&mask, radius, 10);
        match find_max_2d(&ring) {
            None => {},
            Some((votes, (y, x))) => {
                assert(is_first_max(ring, y as int, x as int));
                assert(ring.inside(y as int, x as int));
                assert forall|v: int, u: int| mask.inside(v, u) implies {
                    &&& #[trigger] bin_count(mask, radius as int, v, u) <= votes
                    &&& scanned_before(v, u, y as int, x as int) ==> bin_count(
                        mask,
                        radius as int,
                        v,
                        u,
                    ) < votes
                } by {
                    assert(ring.inside(v, u));
                    assert(ring.at(v, u) == bin_count(mask, radius as int, v, u));
                }
                if votes > best_votes {
                    best_votes = votes;
                    best_y = y;
                    best_x = x;
                    best_radius = radius;
                }
            },
        }
        radius += 1;
    }
    if best_votes < MIN_VOTES {
        assert(is_vote_winner(None, mask, min_radius as int, max_radius as int));
        None
    } else {
        let c = Circle {
            x: (best_x as i64) * UNIT,
            y: (best_y as i64) * UNIT,
            radius: (best_radius as i64) * UNIT,
        };
        assert(is_best_bin(
            mask,
            min_radius as int,
            max_radius as int,
            best_radius as int,
            best_y as int,
            best_x as int,
        ));
        assert(is_vote_winner(Some(c), mask, min_radius as int, max_radius as int));
        Some(c)
    }
}

/// The whole pixels of half of `relative` times the pitch: a radius in
/// pixels from a diameter that is given as a fraction of the pitch.
pub open spec fn radius_pixels(relative: int, pitch: int) -> int {
    if relative * pitch <= 0 {
        0
    } else {
        (relative * pitch) / (2 * (UNIT * UNIT))
    }
}

pub(crate) fn radius_pixels_of(relative: i64, pitch: i64) -> (r: usize)
    requires
        -1_000_000_000 <= relative <= 1_000_000_000,
        0 <= pitch <= 10_000_000_000,
        relative * pitch <= 200_000 * (UNIT * UNIT),
    ensures
        r == radius_pixels(relative as int, pitch as int),
        r <= RADIUS_MAX,
{
    proof {
        lemma_product_bound(relative as int, 1_000_000_000, pitch as int, 10_000_000_000);
    }
    let product: i128 = (relative as i128) * (pitch as i128);
    if product <= 0 {
        0
    } else {
        (product / 2_000_000_000_000) as usize
    }
}

/// Whether `refined` is what the votes give for a spot at `(cx, cy)`: the
/// window of one pitch about the spot is cut from the frame, smoothed, and
/// its gradient votes; the winner, moved back into the frame, is the fitted
/// circle. `window`, `smooth` and `gradient` are the rasters on the way.
pub open spec fn is_hough_chain(
    refined: Refinement,
    normalized: Plane<i64>,
    spot: Spot,
    params: GridParams,
    window: Plane<i64>,
    smooth: Plane<i64>,
    gradient: Plane<i64>,
    mask: Plane<bool>,
    winner: Option<Circle>,
) -> bool {
    let x0 = search_first(spot.grid_x as int, params.spot_pitch as int);
    let x1 = search_last(spot.grid_x as int, params.spot_pitch as int, normalized.width as int);
    let y0 = search_first(spot.grid_y as int, params.spot_pitch as int);
    let y1 = search_last(spot.grid_y as int, params.spot_pitch as int, normalized.height as int);
    let min_radius = radius_pixels(params.min_diameter as int, params.spot_pitch as int);
    let max_radius = radius_pixels(params.max_diameter as int, params.spot_pitch as int);
    &&& window.wf() && window.height == y1 - y0 + 1 && window.width == x1 - x0 + 1
    &&& forall|y: int, x: int|
        window.inside(y, x) ==> #[trigger] window.at(y, x) == normalized.at(y0 + y, x0 + x)
    &&& smooth.wf() && smooth.height == window.height && smooth.width == window.width
    &&& forall|y: int, x: int|
        window.inside(y, x) ==> #[trigger] smooth.at(y, x) == blurred(
            window,
            kernel_reach(UNIT as int),
            y,
            x,
        )
    &&& is_gradient_of(gradient, smooth)
    &&& is_voter_mask(mask, gradient, 300_000)
    &&& is_vote_winner(winner, mask, min_radius, max_radius)
    &&& match winner {
        Some(c) => refined == Refinement::Fitted(
            Circle { x: (c.x + x0 * UNIT) as i64, y: (c.y + y0 * UNIT) as i64, radius: c.radius },
        ),
        None => refined == Refinement::Fallback(
            fallback_circle(spot.grid_x, spot.grid_y, params.spot_pitch as int),
        ),
    }
}

/// Whether the window of one pitch about the spot is more than one pixel
/// wide and high.
pub open spec fn has_hough_window(normalized: Plane<i64>, spot: Spot, pitch: int) -> bool {
    &&& normalized.height > 0 && normalized.width > 0
    &&& search_first(spot.grid_x as int, pitch) < search_last(
        spot.grid_x as int,
        pitch,
        normalized.width as int,
    )
    &&& search_first(spot.grid_y as int, pitch) < search_last(
        spot.grid_y as int,
        pitch,
        normalized.height as int,
    )
}

/// Whether `refined` is what the refinement by votes gives for a spot.
pub open spec fn is_hough_refinement(
    refined: Refinement,
    normalized: Plane<i64>,
    spot: Spot,
    params: GridParams,
) -> bool {
    &&& !has_hough_window(normalized, spot, params.spot_pitch as int) ==> refined
        == Refinement::Fallback(fallback_circle(spot.grid_x, spot.grid_y, params.spot_pitch as int))
    &&& has_hough_window(normalized, spot, params.spot_pitch as int) ==> exists|
        window: Plane<i64>,
        smooth: Plane<i64>,
        gradient: Plane<i64>,
        mask: Plane<bool>,
        winner: Option<Circle>,
    | #[trigger]
        is_hough_chain(
            refined,
            normalized,
            spot,
            params,
            window,
            smooth,
            gradient,
            mask,
            winner,
        )
    &&& refined.circle().wf()
}

/// Refines a spot by votes for the centre of its boundary. Where the window
/// about the spot is too small, or no centre gets ten votes, the result is
/// the circle to fall back on.
pub fn segment_by_hough(normalized: &Plane<i64>, spot: &Spot, params: &GridParams) -> (refined:
    Refinement)
    requires
        normalized.wf(),
        normalized.between(0, UNIT as int),
        normalized.height <= SIDE_MAX,
        normalized.width <= SIDE_MAX,
        spot.wf(),
        params.within_limits(),
    ensures
        is_hough_refinement(refined, *normalized, *spot, *params),
{
    proof {
        lemma_round_div_bounds(3 * params.spot_pitch, 10);
    }
    let fallback = Refinement::Fallback(
        Circle {
            x: spot.grid_x,
            y: spot.grid_y,
            radius: div_round(3 * (params.spot_pitch as i128), 10) as i64,
        },
    );
    if normalized.height == 0 || normalized.width == 0 {
        return fallback;
    }
    let x0: i64 = first_pixel(spot.grid_x, params.spot_pitch);
    let x1: i64 = last_pixel(spot.grid_x, params.spot_pitch, normalized.width);
    let y0: i64 = first_pixel(spot.grid_y, params.spot_pitch);
    let y1: i64 = last_pixel(spot.grid_y, params.spot_pitch, normalized.height);
    if x1 <= x0 || y1 <= y0 {
        return fallback;
    }
    let window = normalized.crop(
        y0 as usize,
        x0 as usize,
        (y1 - y0 + 1) as usize,
        (x1 - x0 + 1) as usize,
    );
    proof {
        assert forall|y: int, x: int| window.inside(y, x) implies -1_000_000_000_000
            <= #[trigger] window.at(y, x) <= 1_000_000_000_000 by {
            assert(normalized.inside(y0 + y, x0 + x));
        }
    }
    let smooth = gaussian_blur(&window, UNIT);
    let gradient = compute_gradient(&smooth);
    let min_radius: usize = radius_pixels_of(params.min_diameter, params.spot_pitch);
    let max_radius: usize = radius_pixels_of(params.max_diameter, params.spot_pitch);
    let winner = hough_circles(&gradient, min_radius, max_radius, 300_000);
    let refined = match winner {
        Some(c) => Refinement::Fitted(
            Circle { x: c.x + x0 * UNIT, y: c.y + y0 * UNIT, radius: c.radius },
        ),
        None => fallback,
    };
    proof {
        let mask = choose|mask: Plane<bool>|
            {
                &&& #[trigger] is_voter_mask(mask, gradient, 300_000)
                &&& is_vote_winner(winner, mask, min_radius as int, max_radius as int)
            };
        assert(is_hough_chain(
            refined,
            *normalized,
            *spot,
            *params,
            window,
            smooth,
            gradient,
            mask,
            winner,
        ));
    }
    refined
}

} // verus!
