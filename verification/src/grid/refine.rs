//! Moving each spot to the brightest pixel near its nominal position.
use vstd::prelude::*;
use crate::config::GridParams;
use crate::error::Error;
use crate::fixed::{div_round, floor_to_whole, lemma_round_div_bounds, round_div, COORD_MAX, UNIT};
use crate::grid::correlate::scanned_before;
use crate::image_processing::normalize::{frame_max, normalize_image, normalized};
use crate::plane::Plane;
use crate::types::{ImageData, Spot};

verus! {

/// How far from its position a spot is searched: three tenths of the pitch.
pub open spec fn search_radius(pitch: int) -> int {
    round_div(3 * pitch, 10)
}

/// The first pixel of the search along one axis: where `position - radius`
/// lies, or pixel 0 if that is off the frame.
pub open spec fn search_first(position: int, radius: int) -> int {
    let low = position - radius;
    if low <= 0 {
        0
    } else {
        low / (UNIT as int)
    }
}

/// The last pixel of the search along an axis of `side` pixels: where
/// `position + radius` lies, or the last pixel of the axis if that is off the
/// frame.
pub open spec fn search_last(position: int, radius: int, side: int) -> int {
    let high = position + radius;
    let top = (side - 1) * UNIT;
    let end = if high < top {
        high
    } else {
        top
    };
    if end <= 0 {
        0
    } else {
        end / (UNIT as int)
    }
}

/// The intensity of a pixel as a fraction of the largest sample of the frame,
/// in millionths.
pub open spec fn intensity(image: ImageData, y: int, x: int) -> int {
    normalized(image.at(y, x) as int, frame_max(image))
}

/// Whether `(y, x)` is the first pixel, read row by row, that is brightest in
/// the window of the rows `y0 ..= y1` and the columns `x0 ..= x1`.
pub open spec fn is_brightest(
    image: ImageData,
    y0: int,
    y1: int,
    x0: int,
    x1: int,
    y: int,
    x: int,
) -> bool {
    &&& y0 <= y <= y1
    &&& x0 <= x <= x1
    &&& forall|v: int, u: int|
        y0 <= v <= y1 && x0 <= u <= x1 ==> {
            &&& #[trigger] intensity(image, v, u) <= intensity(image, y, x)
            &&& scanned_before(v, u, y, x) ==> intensity(image, v, u) < intensity(image, y, x)
        }
}

/// The spot at another position.
pub open spec fn moved(spot: Spot, x: i64, y: i64) -> Spot {
    Spot { grid_x: x, grid_y: y, ..spot }
}

/// Whether `after` is `before` refined on the frame: a pinned spot goes to
/// its fixed position; another goes to the brightest pixel of its search
/// window if that pixel is brighter than a tenth of the largest sample, and
/// stays where it is otherwise.
pub open spec fn is_refined(before: Spot, after: Spot, image: ImageData, pitch: int) -> bool {
    if before.is_pinned() {
        after == moved(before, before.x_fixed, before.y_fixed)
    } else {
        let r = search_radius(pitch);
        let x0 = search_first(before.grid_x as int, r);
        let x1 = search_last(before.grid_x as int, r, image.width as int);
        let y0 = search_first(before.grid_y as int, r);
        let y1 = search_last(before.grid_y as int, r, image.height as int);
        if image.height > 0 && image.width > 0 && x0 <= x1 && y0 <= y1 {
            exists|y: int, x: int|
                {
                    &&& #[trigger] is_brightest(image, y0, y1, x0, x1, y, x)
                    &&& after == if intensity(image, y, x) > 100_000 {
                        moved(before, (x * UNIT) as i64, (y * UNIT) as i64)
                    } else {
                        before
                    }
                }
        } else {
            after == before
        }
    }
}

fn relocate(spot: &Spot, x: i64, y: i64) -> (s: Spot)
    ensures
        s == moved(*spot, x, y),
{
    Spot {
        id: spot.id.clone(),
        row: spot.row,
        col: spot.col,
        is_reference: spot.is_reference,
        x_offset: spot.x_offset,
        y_offset: spot.y_offset,
        x_fixed: spot.x_fixed,
        y_fixed: spot.y_fixed,
        grid_x: x,
        grid_y: y,
        diameter: spot.diameter,
        is_manual: spot.is_manual,
        is_bad: spot.is_bad,
        is_empty: spot.is_empty,
        rotation: spot.rotation,
    }
}

pub(crate) fn first_pixel(position: i64, radius: i64) -> (p: i64)
    requires
        -COORD_MAX <= position <= COORD_MAX,
        0 <= radius <= COORD_MAX,
    ensures
        p == search_first(position as int, radius as int),
        0 <= p,
{
    let low: i64 = position - radius;
    if low <= 0 {
        0
    } else {
        floor_to_whole(low)
    }
}

pub(crate) fn last_pixel(position: i64, radius: i64, side: usize) -> (p: i64)
    requires
        -COORD_MAX <= position <= COORD_MAX,
        0 <= radius <= COORD_MAX,
        side <= 1_000_000,
    ensures
        p == search_last(position as int, radius as int, side as int),
        0 <= p,
        side > 0 ==> p < side,
{
    let high: i64 = position + radius;
    let top: i64 = (side as i64 - 1) * UNIT;
    let end: i64 = if high < top {
        high
    } else {
        top
    };
    if end <= 0 {
        0
    } else {
        floor_to_whole(end)
    }
}

/// The first cell, read row by row, that holds the largest value of the
/// window of the rows `y0 ..= y1` and the columns `x0 ..= x1`.
pub fn window_peak(plane: &Plane<i64>, y0: usize, y1: usize, x0: usize, x1: usize) -> (peak: (
    usize,
    usize,
))
    requires
        plane.wf(),
        y0 <= y1 < plane.height,
        x0 <= x1 < plane.width,
    ensures
        y0 <= peak.0 <= y1,
        x0 <= peak.1 <= x1,
        forall|v: int, u: int|
            y0 <= v <= y1 && x0 <= u <= x1 ==> {
                &&& #[trigger] plane.at(v, u) <= plane.at(peak.0 as int, peak.1 as int)
                &&& scanned_before(v, u, peak.0 as int, peak.1 as int) ==> plane.at(v, u) < plane.at(
                    peak.0 as int,
                    peak.1 as int,
                )
            },
{
    let mut best: i64 = plane.get(y0, x0);
    let mut best_y: usize = y0;
    let mut best_x: usize = x0;
    let mut y: usize = y0;
    while y <= y1
        invariant
            plane.wf(),
            y0 <= y1 < plane.height,
            x0 <= x1 < plane.width,
            y0 <= y <= y1 + 1,
            y0 <= best_y <= y1,
            x0 <= best_x <= x1,
            best == plane.at(best_y as int, best_x as int),
            y == y0 ==> best_y == y0 && best_x == x0,
            y > y0 ==> best_y < y,
            forall|v: int, u: int|
                y0 <= v < y && x0 <= u <= x1 ==> {
                    &&& #[trigger] plane.at(v, u) <= best
                    &&& scanned_before(v, u, best_y as int, best_x as int) ==> plane.at(v, u) < best
                },
        decreases y1 + 1 - y,
    {
        let mut x: usize = x0;
        while x <= x1
            invariant
                plane.wf(),
                y0 <= y1 < plane.height,
                x0 <= x1 < plane.width,
                y0 <= y <= y1,
                x0 <= x <= x1 + 1,
                y0 <= best_y <= y1,
                x0 <= best_x <= x1,
                best == plane.at(best_y as int, best_x as int),
                y == y0 && x == x0 ==> best_y == y0 && best_x == x0,
                !(y == y0 && x == x0) ==> scanned_before(
                    best_y as int,
                    best_x as int,
                    y as int,
                    x as int,
                ),
                forall|v: int, u: int|
                    y0 <= v <= y1 && x0 <= u <= x1 && scanned_before(v, u, y as int, x as int) ==> {
                        &&& #[trigger] plane.at(v, u) <= best
                        &&& scanned_before(v, u, best_y as int, best_x as int) ==> plane.at(v, u)
                            < best
                    },
            decreases x1 + 1 - x,
        {
            let value: i64 = plane.get(y, x);
            if value > best {
                best = value;
                best_y = y;
                best_x = x;
            }
            x += 1;
        }
        y += 1;
    }
    (best_y, best_x)
}

/// Refines the position of every spot on the frame: a pinned spot goes to its
/// fixed position, another to the brightest pixel near it.
pub fn refine_grid_positions(image: &ImageData, spots: &mut Vec<Spot>, params: &GridParams) -> (res:
    Result<(), Error>)
    requires
        image.wf(),
        image.within_limits(),
        params.within_limits(),
        forall|i: int| 0 <= i < old(spots)@.len() ==> (#[trigger] old(spots)@[i]).wf(),
    ensures
        res.is_ok(),
        final(spots)@.len() == old(spots)@.len(),
        forall|i: int|
            0 <= i < old(spots)@.len() ==> is_refined(
                old(spots)@[i],
                #[trigger] final(spots)@[i],
                *image,
                params.spot_pitch as int,
            ),
{
    let plane = normalize_image(image);
    proof {
        lemma_round_div_bounds(3 * params.spot_pitch, 10);
    }
    let radius: i64 = div_round(3 * (params.spot_pitch as i128), 10) as i64;
    let mut i: usize = 0;
    while i < spots.len()
        invariant
            image.wf(),
            image.within_limits(),
            plane.wf(),
            plane.height == image.height,
            plane.width == image.width,
            forall|y: int, x: int|
                image.inside(y, x) ==> #[trigger] plane.at(y, x) == intensity(*image, y, x),
            radius == search_radius(params.spot_pitch as int),
            0 <= radius <= COORD_MAX,
            spots@.len() == old(spots)@.len(),
            i <= spots@.len(),
            forall|k: int| i <= k < spots@.len() ==> spots@[k] == old(spots)@[k],
            forall|k: int| 0 <= k < old(spots)@.len() ==> (#[trigger] old(spots)@[k]).wf(),
            forall|k: int|
                0 <= k < i ==> is_refined(
                    old(spots)@[k],
                    #[trigger] spots@[k],
                    *image,
                    params.spot_pitch as int,
                ),
        decreases spots@.len() - i,
    {
        let ghost before = spots@[i as int];
        assert(before == old(spots)@[i as int]);
        assert(before.wf());
        if spots[i].x_fixed != 0 && spots[i].y_fixed != 0 {
            let pinned = relocate(&spots[i], spots[i].x_fixed, spots[i].y_fixed);
            spots.set(i, pinned);
        } else {
            let x0: i64 = first_pixel(spots[i].grid_x, radius);
            let x1: i64 = last_pixel(spots[i].grid_x, radius, image.width);
            let y0: i64 = first_pixel(spots[i].grid_y, radius);
            let y1: i64 = last_pixel(spots[i].grid_y, radius, image.height);
            if image.height > 0 && image.width > 0 && x0 <= x1 && y0 <= y1 {
                let peak = window_peak(&plane, y0 as usize, y1 as usize, x0 as usize, x1 as usize);
                let bright: bool = plane.get(peak.0, peak.1) > 100_000;
                proof {
                    assert(is_brightest(
                        *image,
                        y0 as int,
                        y1 as int,
                        x0 as int,
                        x1 as int,
                        peak.0 as int,
                        peak.1 as int,
                    )) by {
                        assert forall|v: int, u: int|
                            y0 <= v <= y1 && x0 <= u <= x1 implies {
                            &&& #[trigger] intensity(*image, v, u) <= intensity(
                                *image,
                                peak.0 as int,
                                peak.1 as int,
                            )
                            &&& scanned_before(v, u, peak.0 as int, peak.1 as int) ==> intensity(
                                *image,
                                v,
                                u,
                            ) < intensity(*image, peak.0 as int, peak.1 as int)
                        } by {
                            assert(plane.at(v, u) == intensity(*image, v, u));
                        }
                    }
                }
                if bright {
                    let there = relocate(
                        &spots[i],
                        (peak.1 as i64) * UNIT,
                        (peak.0 as i64) * UNIT,
                    );
                    spots.set(i, there);
                }
            }
        }
        i += 1;
    }
    Ok(())
}

} // verus!
