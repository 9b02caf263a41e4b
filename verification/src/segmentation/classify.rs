//! Judging a refined spot: is its diameter in bounds, and does it hold any
//! signal.
use vstd::prelude::*;
use crate::config::GridParams;
use crate::fixed::{lemma_product_bound, UNIT};
use crate::plane::Plane;
use crate::segmentation::circle::{default_radius, fallback_circle, Circle, Refinement};
use crate::types::{Spot, SIDE_MAX};

verus! {

/// The pixel in which a coordinate lies; pixel 0 for a coordinate off the
/// frame to the left or the top.
pub open spec fn whole_pixel(position: int) -> int {
    if position <= 0 {
        0
    } else {
        position / (UNIT as int)
    }
}

/// Whether the middle of the pixel `(x, y)` lies within the spot: no further
/// from its centre than half its diameter.
pub open spec fn in_spot(spot: Spot, y: int, x: int) -> bool {
    4 * ((x * UNIT - spot.grid_x) * (x * UNIT - spot.grid_x) + (y * UNIT - spot.grid_y) * (y * UNIT
        - spot.grid_y)) <= spot.diameter * spot.diameter
}

/// The first index, along one axis, of the window in which the pixels of a
/// spot are looked for. The window holds every pixel of the frame whose
/// middle lies within the spot.
pub open spec fn tally_low(position: int, diameter: int) -> int {
    let low = whole_pixel(position) - diameter / (2 * UNIT) - 1;
    if low < 0 {
        0
    } else {
        low
    }
}

/// The index after the last of that window, along an axis of `side` pixels.
pub open spec fn tally_high(position: int, diameter: int, side: int) -> int {
    let high = whole_pixel(position) + diameter / (2 * UNIT) + 2;
    if high > side {
        side
    } else {
        high
    }
}

/// Every pixel of the frame whose middle lies within the spot lies in the
/// window in which the pixels of the spot are looked for.
pub proof fn lemma_window_holds_spot(spot: Spot, y: int, x: int, height: int, width: int)
    requires
        spot.diameter >= 0,
        0 <= y < height,
        0 <= x < width,
        in_spot(spot, y, x),
    ensures
        tally_low(spot.grid_x as int, spot.diameter as int) <= x < tally_high(
            spot.grid_x as int,
            spot.diameter as int,
            width,
        ),
        tally_low(spot.grid_y as int, spot.diameter as int) <= y < tally_high(
            spot.grid_y as int,
            spot.diameter as int,
            height,
        ),
{
    let dx = x * UNIT - spot.grid_x;
    let dy = y * UNIT - spot.grid_y;
    let d = spot.diameter as int;
    assert(dx * dx >= 0 && dy * dy >= 0) by (nonlinear_arith);
    lemma_within(dx, d);
    lemma_within(dy, d);
    lemma_axis(spot.grid_x as int, d, x);
    lemma_axis(spot.grid_y as int, d, y);
}

/// An index no further than half of `d` from a position lies in the window
/// about the position.
proof fn lemma_axis(position: int, d: int, i: int)
    requires
        d >= 0,
        i >= 0,
        -d <= 2 * (i * 1_000_000 - position) <= d,
    ensures
        whole_pixel(position) - d / 2_000_000 - 1 <= i,
        i < whole_pixel(position) + d / 2_000_000 + 2,
{
    let r = d / 2_000_000;
    assert(2_000_000 * r <= d < 2_000_000 * r + 2_000_000);
    if position > 0 {
        let q = position / 1_000_000;
        assert(1_000_000 * q <= position < 1_000_000 * q + 1_000_000);
    }
}

/// A length whose square, four times, is at most the square of `d` is at most
/// half of `d`.
proof fn lemma_within(a: int, d: int)
    requires
        d >= 0,
        4 * (a * a) <= d * d,
    ensures
        -d <= 2 * a <= d,
{
    if 2 * a > d {
        assert((2 * a) * (2 * a) > d * d) by (nonlinear_arith)
            requires
                2 * a > d,
                d >= 0,
        ;
        assert((2 * a) * (2 * a) == 4 * (a * a)) by (nonlinear_arith);
    }
    if 2 * a < -d {
        assert((2 * a) * (2 * a) > d * d) by (nonlinear_arith)
            requires
                -(2 * a) > d,
                d >= 0,
        ;
        assert((2 * a) * (2 * a) == 4 * (a * a)) by (nonlinear_arith);
    }
}

/// Sum and number of the intensities of the pixels of the spot among the
/// pixels `lo .. hi` of row `y`.
pub open spec fn row_tally(plane: Plane<i64>, spot: Spot, y: int, lo: int, hi: int) -> (int, int)
    decreases hi - lo,
{
    if hi <= lo {
        (0, 0)
    } else {
        let before = row_tally(plane, spot, y, lo, hi - 1);
        if in_spot(spot, y, hi - 1) {
            (before.0 + plane.at(y, hi - 1), before.1 + 1)
        } else {
            before
        }
    }
}

/// Sum and number of the intensities of the pixels of the spot in the rows
/// `y_lo .. y_hi`, columns `x_lo .. x_hi`.
pub open spec fn area_tally(
    plane: Plane<i64>,
    spot: Spot,
    y_lo: int,
    y_hi: int,
    x_lo: int,
    x_hi: int,
) -> (int, int)
    decreases y_hi - y_lo,
{
    if y_hi <= y_lo {
        (0, 0)
    } else {
        let before = area_tally(plane, spot, y_lo, y_hi - 1, x_lo, x_hi);
        let row = row_tally(plane, spot, y_hi - 1, x_lo, x_hi);
        (before.0 + row.0, before.1 + row.1)
    }
}

/// Sum and number of the intensities of the pixels of the spot.
pub open spec fn spot_tally(plane: Plane<i64>, spot: Spot) -> (int, int) {
    area_tally(
        plane,
        spot,
        tally_low(spot.grid_y as int, spot.diameter as int),
        tally_high(spot.grid_y as int, spot.diameter as int, plane.height as int),
        tally_low(spot.grid_x as int, spot.diameter as int),
        tally_high(spot.grid_x as int, spot.diameter as int, plane.width as int),
    )
}

/// Whether a spot counts as empty: it is bad, or no pixel lies in it, or the
/// mean intensity of its pixels is less than a tenth of the largest sample.
pub open spec fn looks_empty(plane: Plane<i64>, spot: Spot) -> bool {
    let t = spot_tally(plane, spot);
    spot.is_bad || t.1 == 0 || 10 * t.0 < t.1 * UNIT
}

proof fn lemma_row_tally(plane: Plane<i64>, spot: Spot, y: int, lo: int, hi: int)
    requires
        plane.wf(),
        plane.between(0, UNIT as int),
        0 <= y < plane.height,
        0 <= lo <= hi <= plane.width,
    ensures
        0 <= row_tally(plane, spot, y, lo, hi).1 <= hi - lo,
        0 <= row_tally(plane, spot, y, lo, hi).0 <= UNIT * (hi - lo),
    decreases hi - lo,
{
    if hi > lo {
        lemma_row_tally(plane, spot, y, lo, hi - 1);
        assert(plane.inside(y, hi - 1));
    }
}

proof fn lemma_area_tally(plane: Plane<i64>, spot: Spot, y_lo: int, y_hi: int, x_lo: int, x_hi: int)
    requires
        plane.wf(),
        plane.between(0, UNIT as int),
        plane.height <= SIDE_MAX,
        plane.width <= SIDE_MAX,
        0 <= y_lo <= y_hi <= plane.height,
        0 <= x_lo <= x_hi <= plane.width,
    ensures
        0 <= area_tally(plane, spot, y_lo, y_hi, x_lo, x_hi).1 <= 1_000_000 * (y_hi - y_lo),
        0 <= area_tally(plane, spot, y_lo, y_hi, x_lo, x_hi).0 <= 1_000_000_000_000 * (y_hi - y_lo),
    decreases y_hi - y_lo,
{
    if y_hi > y_lo {
        lemma_area_tally(plane, spot, y_lo, y_hi - 1, x_lo, x_hi);
        lemma_row_tally(plane, spot, y_hi - 1, x_lo, x_hi);
    }
}

fn pixel_of(position: i64) -> (p: i64)
    ensures
        p == whole_pixel(position as int),
        0 <= p <= 9_223_372_036_855,
{
    if position <= 0 {
        0
    } else {
        position / UNIT
    }
}

pub(crate) fn is_in_spot(spot: &Spot, y: usize, x: usize) -> (inside: bool)
    requires
        spot.wf(),
        y <= SIDE_MAX,
        x <= SIDE_MAX,
    ensures
        inside == in_spot(*spot, y as int, x as int),
{
    let dx: i128 = (x as i128) * (UNIT as i128) - spot.grid_x as i128;
    let dy: i128 = (y as i128) * (UNIT as i128) - spot.grid_y as i128;
    let d: i128 = spot.diameter as i128;
    proof {
        lemma_product_bound(dx as int, 200_000_000_000_000_000, dx as int, 200_000_000_000_000_000);
        lemma_product_bound(dy as int, 200_000_000_000_000_000, dy as int, 200_000_000_000_000_000);
        lemma_product_bound(d as int, 100_000_000_000_000_000, d as int, 100_000_000_000_000_000);
        assert(200_000_000_000_000_000 * 200_000_000_000_000_000
            == 40_000_000_000_000_000_000_000_000_000_000_000int);
    }
    4 * (dx * dx + dy * dy) <= d * d
}

/// Sum and number of the intensities of the pixels of the spot in a window.
fn tally(normalized: &Plane<i64>, spot: &Spot, y_lo: usize, y_hi: usize, x_lo: usize, x_hi: usize) -> (t:
    (i128, i128))
    requires
        normalized.wf(),
        normalized.between(0, UNIT as int),
        normalized.height <= SIDE_MAX,
        normalized.width <= SIDE_MAX,
        spot.wf(),
        y_lo <= y_hi <= normalized.height,
        x_lo <= x_hi <= normalized.width,
    ensures
        (t.0 as int, t.1 as int) == area_tally(
            *normalized,
            *spot,
            y_lo as int,
            y_hi as int,
            x_lo as int,
            x_hi as int,
        ),
        0 <= t.0 <= 1_000_000_000_000_000_000,
        0 <= t.1 <= 1_000_000_000_000,
{
    let mut sum: i128 = 0;
    let mut count: i128 = 0;
    let mut y: usize = y_lo;
    while y < y_hi
        invariant
            normalized.wf(),
            normalized.between(0, UNIT as int),
            normalized.height <= SIDE_MAX,
            normalized.width <= SIDE_MAX,
            spot.wf(),
            y_lo <= y <= y_hi <= normalized.height,
            x_lo <= x_hi <= normalized.width,
            (sum as int, count as int) == area_tally(
                *normalized,
                *spot,
                y_lo as int,
                y as int,
                x_lo as int,
                x_hi as int,
            ),
        decreases y_hi - y,
    {
        let mut row_sum: i128 = 0;
        let mut row_count: i128 = 0;
        let mut x: usize = x_lo;
        while x < x_hi
            invariant
                normalized.wf(),
                normalized.between(0, UNIT as int),
                normalized.height <= SIDE_MAX,
                normalized.width <= SIDE_MAX,
                spot.wf(),
                y < y_hi <= normalized.height,
                x_lo <= x <= x_hi <= normalized.width,
                (row_sum as int, row_count as int) == row_tally(
                    *normalized,
                    *spot,
                    y as int,
                    x_lo as int,
                    x as int,
                ),
            decreases x_hi - x,
        {
            proof {
                lemma_row_tally(*normalized, *spot, y as int, x_lo as int, x as int);
                assert(normalized.inside(y as int, x as int));
            }
            if is_in_spot(spot, y, x) {
                row_sum = row_sum + normalized.get(y, x) as i128;
                row_count = row_count + 1;
            }
            x += 1;
        }
        proof {
            lemma_row_tally(*normalized, *spot, y as int, x_lo as int, x_hi as int);
            lemma_area_tally(*normalized, *spot, y_lo as int, y as int, x_lo as int, x_hi as int);
        }
        sum = sum + row_sum;
        count = count + row_count;
        y += 1;
    }
    proof {
        lemma_area_tally(*normalized, *spot, y_lo as int, y_hi as int, x_lo as int, x_hi as int);
    }
    (sum, count)
}

/// Whether a spot counts as empty on a frame of normalized intensities.
pub fn check_if_empty(normalized: &Plane<i64>, spot: &Spot) -> (empty: bool)
    requires
        normalized.wf(),
        normalized.between(0, UNIT as int),
        normalized.height <= SIDE_MAX,
        normalized.width <= SIDE_MAX,
        spot.wf(),
    ensures
        empty == looks_empty(*normalized, *spot),
{
    if spot.is_bad {
        return true;
    }
    let reach: i64 = spot.diameter / (2 * UNIT);
    let px: i64 = pixel_of(spot.grid_x);
    let py: i64 = pixel_of(spot.grid_y);
    let width: i64 = normalized.width as i64;
    let height: i64 = normalized.height as i64;
    let x_lo: i64 = if px - reach - 1 < 0 {
        0
    } else {
        px - reach - 1
    };
    let y_lo: i64 = if py - reach - 1 < 0 {
        0
    } else {
        py - reach - 1
    };
    let x_hi: i64 = if px + reach + 2 > width {
        width
    } else {
        px + reach + 2
    };
    let y_hi: i64 = if py + reach + 2 > height {
        height
    } else {
        py + reach + 2
    };
    assert(x_lo == tally_low(spot.grid_x as int, spot.diameter as int));
    assert(x_hi == tally_high(spot.grid_x as int, spot.diameter as int, normalized.width as int));
    assert(y_lo == tally_low(spot.grid_y as int, spot.diameter as int));
    assert(y_hi == tally_high(spot.grid_y as int, spot.diameter as int, normalized.height as int));
    if x_lo < x_hi && y_lo < y_hi {
        let t = tally(normalized, spot, y_lo as usize, y_hi as usize, x_lo as usize, x_hi as usize);
        t.1 == 0 || 10 * t.0 < t.1 * 1_000_000
    } else {
        proof {
            if y_lo < y_hi {
                lemma_empty_rows(
                    *normalized,
                    *spot,
                    y_lo as int,
                    y_hi as int,
                    x_lo as int,
                    x_hi as int,
                );
            }
        }
        true
    }
}

proof fn lemma_empty_rows(plane: Plane<i64>, spot: Spot, y_lo: int, y_hi: int, x_lo: int, x_hi: int)
    requires
        x_hi <= x_lo,
    ensures
        area_tally(plane, spot, y_lo, y_hi, x_lo, x_hi) == (0int, 0int),
    decreases y_hi - y_lo,
{
    if y_hi > y_lo {
        lemma_empty_rows(plane, spot, y_lo, y_hi - 1, x_lo, x_hi);
    }
}

/// Whether a diameter, taken as a fraction of the pitch, lies outside the
/// bounds of the parameters.
pub open spec fn is_out_of_bounds(diameter: int, params: GridParams) -> bool {
    diameter * UNIT < params.min_diameter * params.spot_pitch || diameter * UNIT
        > params.max_diameter * params.spot_pitch
}

/// The spot with the geometry that its refinement gave: position and
/// diameter of the circle. The spot is bad if the circle is the one to fall
/// back on, or if its diameter is out of bounds.
pub open spec fn measured(spot: Spot, refined: Refinement, params: GridParams) -> Spot {
    let c = refined.circle();
    Spot {
        grid_x: c.x,
        grid_y: c.y,
        diameter: (2 * c.radius) as i64,
        is_bad: refined is Fallback || is_out_of_bounds(2 * c.radius, params),
        ..spot
    }
}

/// The spot after refinement and judgement.
pub open spec fn classified(
    spot: Spot,
    refined: Refinement,
    params: GridParams,
    normalized: Plane<i64>,
) -> Spot {
    let m = measured(spot, refined, params);
    Spot { is_empty: looks_empty(normalized, m), ..m }
}

/// A spot whose boundary was not found is bad and empty; it keeps its
/// nominal position and gets the diameter of the circle to fall back on, six
/// tenths of the pitch.
pub proof fn lemma_fallback_is_bad_and_empty(spot: Spot, params: GridParams, normalized: Plane<i64>)
    ensures
        ({
            let fallback = fallback_circle(spot.grid_x, spot.grid_y, params.spot_pitch as int);
            let after = classified(spot, Refinement::Fallback(fallback), params, normalized);
            &&& after.is_bad
            &&& after.is_empty
            &&& after.grid_x == spot.grid_x
            &&& after.grid_y == spot.grid_y
            &&& after.diameter == (2 * fallback.radius) as i64
            &&& fallback.radius == default_radius(params.spot_pitch as int) as i64
        }),
{
}

/// Takes the geometry of a spot from its refinement and sets its quality
/// flags.
pub fn classify_spot(
    normalized: &Plane<i64>,
    spot: &Spot,
    refined: Refinement,
    params: &GridParams,
) -> (judged: Spot)
    requires
        normalized.wf(),
        normalized.between(0, UNIT as int),
        normalized.height <= SIDE_MAX,
        normalized.width <= SIDE_MAX,
        spot.wf(),
        refined.circle().wf(),
        params.within_limits(),
    ensures
        judged == classified(*spot, refined, *params, *normalized),
        judged.wf(),
{
    let (c, failed): (Circle, bool) = match refined {
        Refinement::Fitted(c) => (c, false),
        Refinement::Fallback(c) => (c, true),
    };
    let diameter: i64 = 2 * c.radius;
    proof {
        lemma_product_bound(
            params.min_diameter as int,
            1_000_000_000,
            params.spot_pitch as int,
            10_000_000_000,
        );
        lemma_product_bound(
            params.max_diameter as int,
            1_000_000_000,
            params.spot_pitch as int,
            10_000_000_000,
        );
    }
    let scaled: i128 = (diameter as i128) * 1_000_000;
    let low: i128 = (params.min_diameter as i128) * (params.spot_pitch as i128);
    let high: i128 = (params.max_diameter as i128) * (params.spot_pitch as i128);
    let bad: bool = failed || scaled < low || scaled > high;
    let mut judged = Spot {
        id: spot.id.clone(),
        row: spot.row,
        col: spot.col,
        is_reference: spot.is_reference,
        x_offset: spot.x_offset,
        y_offset: spot.y_offset,
        x_fixed: spot.x_fixed,
        y_fixed: spot.y_fixed,
        grid_x: c.x,
        grid_y: c.y,
        diameter,
        is_manual: spot.is_manual,
        is_bad: bad,
        is_empty: spot.is_empty,
        rotation: spot.rotation,
    };
    assert(judged == measured(*spot, refined, *params));
    let empty: bool = check_if_empty(normalized, &judged);
    judged.is_empty = empty;
    judged
}

} // verus!
