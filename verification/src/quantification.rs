//! The rows of the result table.
use vstd::prelude::*;
use crate::order::{ascending, lemma_ascending, sorted_values, sum_of};
use crate::config::GridParams;
use crate::error::Error;
use crate::fixed::{div_round, lemma_product_bound, lemma_round_div_bounds, lemma_round_div_mean, round_div, UNIT};
use crate::image_processing::gradient::{int_sqrt, isqrt};
use crate::image_processing::normalize::normalize_image;
use crate::grid::refine::intensity;
use crate::plane::Plane;
use crate::segmentation::classify::{in_spot, is_in_spot};
use crate::types::{ImageData, Spot, SpotResult, SIDE_MAX};

verus! {

/// Whether `row` is the row of the result table for a spot of the group
/// `group_id` on the frame of the name `image_name`: it holds what the spot
/// holds, and its flags as the numbers 1 and 0.
pub open spec fn is_result_row(row: SpotResult, image_name: String, spot: Spot, group_id: Seq<char>) -> bool {
    &&& row.group_id@ == group_id
    &&& row.spot_id == spot.id
    &&& row.is_reference == spot.is_reference
    &&& row.row == spot.row
    &&& row.col == spot.col
    &&& row.x_fixed == spot.x_fixed
    &&& row.y_fixed == spot.y_fixed
    &&& row.grid_x == spot.grid_x
    &&& row.grid_y == spot.grid_y
    &&& row.diameter == spot.diameter
    &&& row.is_manual == if spot.is_manual {
        1i32
    } else {
        0i32
    }
    &&& row.is_bad == if spot.is_bad {
        1i32
    } else {
        0i32
    }
    &&& row.is_empty == if spot.is_empty {
        1i32
    } else {
        0i32
    }
    &&& row.rotation == spot.rotation
    &&& row.image_name == image_name
}

/// The row of the result table for one spot.
pub fn quantify_single_spot(image: &ImageData, spot: &Spot, group_id: &str) -> (row: SpotResult)
    ensures
        is_result_row(row, image.name, *spot, group_id@),
{
    SpotResult {
        group_id: group_id.to_string(),
        spot_id: spot.id.clone(),
        is_reference: spot.is_reference,
        row: spot.row,
        col: spot.col,
        x_fixed: spot.x_fixed,
        y_fixed: spot.y_fixed,
        grid_x: spot.grid_x,
        grid_y: spot.grid_y,
        diameter: spot.diameter,
        is_manual: if spot.is_manual {
            1
        } else {
            0
        },
        is_bad: if spot.is_bad {
            1
        } else {
            0
        },
        is_empty: if spot.is_empty {
            1
        } else {
            0
        },
        rotation: spot.rotation,
        image_name: image.name.clone(),
    }
}

/// The rows of the result table for the spots of a frame, in the order of the
/// spots.
pub fn quantify_spots(image: &ImageData, spots: &[Spot], group_id: &str, _params: &GridParams) -> (res:
    Result<Vec<SpotResult>, Error>)
    ensures
        res matches Ok(rows) && rows@.len() == spots@.len() && forall|i: int|
            0 <= i < rows@.len() ==> is_result_row(
                #[trigger] rows@[i],
                image.name,
                spots@[i],
                group_id@,
            ),
{
    let mut rows: Vec<SpotResult> = Vec::new();
    let mut i: usize = 0;
    while i < spots.len()
        invariant
            i <= spots@.len(),
            rows@.len() == i,
            forall|k: int|
                0 <= k < i ==> is_result_row(#[trigger] rows@[k], image.name, spots@[k], group_id@),
        decreases spots@.len() - i,
    {
        let row = quantify_single_spot(image, &spots[i], group_id);
        rows.push(row);
        i += 1;
    }
    Ok(rows)
}

/// Statistics of the intensities of the pixels of a spot, in millionths of
/// the largest sample of the frame.
#[derive(Debug, Clone, Copy, PartialEq, Eq, Structural)]
pub struct SpotStatistics {
    pub mean: i64,
    pub median: i64,
    pub std_dev: i64,
    pub min: i64,
    pub max: i64,
    pub sum: i64,
    pub pixel_count: usize,
}

/// The first pixel, along one axis, of the window in which the pixels of a
/// spot are collected: the pixel of `position - radius`, not before pixel 0
/// nor after the last pixel.
pub open spec fn collect_low(position: int, diameter: int, side: int) -> int {
    let low = 2 * position - diameter;
    let p = if low <= 0 {
        0
    } else {
        low / (2 * UNIT)
    };
    if p > side {
        side
    } else {
        p
    }
}

/// The pixel after the last of that window: `position + radius`, rounded up.
pub open spec fn collect_high(position: int, diameter: int, side: int) -> int {
    let high = 2 * position + diameter;
    let p = if high <= 0 {
        0
    } else {
        (high + 2 * UNIT - 1) / (2 * UNIT)
    };
    if p > side {
        side
    } else {
        p
    }
}

/// The intensities of the pixels of the spot among the first `n` pixels of
/// the window of the rows from `y_lo` and the columns `x_lo .. x_hi`, read
/// row by row.
pub open spec fn collected(
    plane: Plane<i64>,
    spot: Spot,
    y_lo: int,
    x_lo: int,
    x_hi: int,
    n: nat,
) -> Seq<i64>
    decreases n,
{
    if n == 0 || x_hi <= x_lo {
        Seq::empty()
    } else {
        let y = y_lo + (n - 1) / (x_hi - x_lo);
        let x = x_lo + (n - 1) % (x_hi - x_lo);
        let before = collected(plane, spot, y_lo, x_lo, x_hi, (n - 1) as nat);
        if in_spot(spot, y, x) {
            before.push(plane.at(y, x))
        } else {
            before
        }
    }
}

/// The sum of the squares of the distances of the first `n` values from
/// `mean`.
pub open spec fn spread_of(values: Seq<i64>, mean: int, n: nat) -> int
    decreases n,
{
    if n == 0 {
        0
    } else {
        spread_of(values, mean, (n - 1) as nat) + (values[n - 1] - mean) * (values[n - 1] - mean)
    }
}

/// The median of values in ascending order: the middle one, or the mean of
/// the two in the middle.
pub open spec fn median_of(sorted: Seq<i64>) -> int {
    let n = sorted.len() as int;
    if n % 2 == 0 {
        round_div(sorted[n / 2 - 1] + sorted[n / 2], 2)
    } else {
        sorted[n / 2] as int
    }
}

/// The statistics of the values, of which there is at least one: the mean,
/// rounded; the median; the standard deviation, which is the square root of
/// the rounded mean of the squared distances from the mean, rounded down; the
/// smallest and the largest value; the sum and the number of the values.
pub open spec fn statistics_of(values: Seq<i64>) -> SpotStatistics {
    let n = values.len();
    let sorted = ascending(values);
    let mean = round_div(sum_of(values, n), n as int);
    SpotStatistics {
        mean: mean as i64,
        median: median_of(sorted) as i64,
        std_dev: int_sqrt(round_div(spread_of(values, mean, n), n as int)) as i64,
        min: sorted[0],
        max: sorted[n - 1],
        sum: sum_of(values, n) as i64,
        pixel_count: n as usize,
    }
}

proof fn lemma_sum_of(values: Seq<i64>, n: nat)
    requires
        n <= values.len(),
        forall|i: int| 0 <= i < values.len() ==> 0 <= #[trigger] values[i] <= UNIT,
    ensures
        0 <= sum_of(values, n) <= UNIT * n,
    decreases n,
{
    if n > 0 {
        lemma_sum_of(values, (n - 1) as nat);
    }
}

proof fn lemma_spread_of(values: Seq<i64>, mean: int, n: nat)
    requires
        n <= values.len(),
        0 <= mean <= UNIT,
        forall|i: int| 0 <= i < values.len() ==> 0 <= #[trigger] values[i] <= UNIT,
    ensures
        0 <= spread_of(values, mean, n) <= 1_000_000_000_000 * n,
    decreases n,
{
    if n > 0 {
        lemma_spread_of(values, mean, (n - 1) as nat);
        let d = values[n - 1] - mean;
        lemma_product_bound(d, 1_000_000, d, 1_000_000);
        assert(d * d >= 0) by (nonlinear_arith);
    }
}

proof fn lemma_collected(plane: Plane<i64>, spot: Spot, y_lo: int, x_lo: int, x_hi: int, n: nat)
    requires
        plane.wf(),
        plane.between(0, UNIT as int),
        0 <= y_lo,
        0 <= x_lo <= x_hi <= plane.width,
        y_lo * (x_hi - x_lo) + n <= plane.height * (x_hi - x_lo),
    ensures
        collected(plane, spot, y_lo, x_lo, x_hi, n).len() <= n,
        forall|i: int|
            0 <= i < collected(plane, spot, y_lo, x_lo, x_hi, n).len() ==> 0 <= #[trigger] collected(
                plane,
                spot,
                y_lo,
                x_lo,
                x_hi,
                n,
            )[i] <= UNIT,
    decreases n,
{
    if n > 0 && x_hi > x_lo {
        lemma_collected(plane, spot, y_lo, x_lo, x_hi, (n - 1) as nat);
        let w = x_hi - x_lo;
        let y = y_lo + (n - 1) / w;
        let x = x_lo + (n - 1) % w;
        assert(0 <= (n - 1) % w < w && (n - 1) / w >= 0 && (n - 1) == w * ((n - 1) / w) + (n - 1)
            % w) by (nonlinear_arith)
            requires
                w > 0,
                n >= 1,
        ;
        assert(y < plane.height) by (nonlinear_arith)
            requires
                y == y_lo + (n - 1) / w,
                (n - 1) == w * ((n - 1) / w) + (n - 1) % w,
                0 <= (n - 1) % w,
                y_lo * w + n <= plane.height * w,
                w > 0,
        ;
        assert(plane.inside(y, x));
    }
}

/// The intensities of the pixels of the spot.
#[verifier::loop_isolation(false)]
fn collect(normalized: &Plane<i64>, spot: &Spot, y_lo: usize, y_hi: usize, x_lo: usize, x_hi: usize) -> (values:
    Vec<i64>)
    requires
        normalized.wf(),
        normalized.between(0, UNIT as int),
        normalized.height <= SIDE_MAX,
        normalized.width <= SIDE_MAX,
        spot.wf(),
        y_lo <= y_hi <= normalized.height,
        x_lo <= x_hi <= normalized.width,
    ensures
        values@ == collected(
            *normalized,
            *spot,
            y_lo as int,
            x_lo as int,
            x_hi as int,
            ((y_hi - y_lo) * (x_hi - x_lo)) as nat,
        ),
        values@.len() <= 1_000_000_000_000,
        forall|i: int| 0 <= i < values@.len() ==> 0 <= #[trigger] values@[i] <= UNIT,
{
    let mut values: Vec<i64> = Vec::new();
    let width: usize = x_hi - x_lo;
    let mut y: usize = y_lo;
    assert(0 * width == 0) by (nonlinear_arith);
    while y < y_hi
        invariant
            y_lo <= y <= y_hi,
            values@ == collected(
                *normalized,
                *spot,
                y_lo as int,
                x_lo as int,
                x_hi as int,
                ((y - y_lo) * width) as nat,
            ),
        decreases y_hi - y,
    {
        let mut x: usize = x_lo;
        while x < x_hi
            invariant
                y_lo <= y < y_hi,
                x_lo <= x <= x_hi,
                values@ == collected(
                    *normalized,
                    *spot,
                    y_lo as int,
                    x_lo as int,
                    x_hi as int,
                    ((y - y_lo) * width + (x - x_lo)) as nat,
                ),
            decreases x_hi - x,
        {
            proof {
                let k = (y - y_lo) * width + (x - x_lo);
                assert(k / (width as int) == y - y_lo && k % (width as int) == x - x_lo && k >= 0)
                    by (nonlinear_arith)
                    requires
                        k == (y - y_lo) * width + (x - x_lo),
                        0 <= x - x_lo < width,
                        0 <= y - y_lo,
                ;
            }
            if is_in_spot(spot, y, x) {
                values.push(normalized.get(y, x));
            }
            x += 1;
        }
        assert((y + 1 - y_lo) * width == (y - y_lo) * width + width) by (nonlinear_arith);
        y += 1;
    }
    proof {
        assert((y_hi - y_lo) * width <= 1_000_000 * 1_000_000 && (y_hi - y_lo) * width >= 0
            && y_lo * width + (y_hi - y_lo) * width <= normalized.height * width)
            by (nonlinear_arith)
            requires
                0 <= y_lo <= y_hi <= normalized.height <= 1_000_000,
                0 <= width <= 1_000_000,
        ;
        lemma_collected(
            *normalized,
            *spot,
            y_lo as int,
            x_lo as int,
            x_hi as int,
            ((y_hi - y_lo) * width) as nat,
        );
    }
    values
}

/// The statistics of values between 0 and 1, of which there is at least one.
fn statistics(values: &Vec<i64>) -> (stats: SpotStatistics)
    requires
        0 < values@.len() <= 1_000_000_000_000,
        forall|i: int| 0 <= i < values@.len() ==> 0 <= #[trigger] values@[i] <= UNIT,
    ensures
        stats == statistics_of(values@),
{
    let n: usize = values.len();
    let mut sum: i64 = 0;
    let mut i: usize = 0;
    while i < n
        invariant
            n == values@.len(),
            n <= 1_000_000_000_000,
            forall|k: int| 0 <= k < values@.len() ==> 0 <= #[trigger] values@[k] <= UNIT,
            i <= n,
            sum == sum_of(values@, i as nat),
        decreases n - i,
    {
        proof {
            lemma_sum_of(values@, i as nat);
        }
        sum = sum + values[i];
        i += 1;
    }
    proof {
        lemma_sum_of(values@, n as nat);
        lemma_round_div_mean(sum as int, n as int, UNIT as int);
        lemma_round_div_bounds(sum as int, n as int);
    }
    let mean: i64 = div_round(sum as i128, n as i128) as i64;
    let mut spread: i128 = 0;
    let mut i: usize = 0;
    while i < n
        invariant
            n == values@.len(),
            n <= 1_000_000_000_000,
            forall|k: int| 0 <= k < values@.len() ==> 0 <= #[trigger] values@[k] <= UNIT,
            0 <= mean <= UNIT,
            i <= n,
            spread == spread_of(values@, mean as int, i as nat),
        decreases n - i,
    {
        proof {
            lemma_spread_of(values@, mean as int, i as nat);
            lemma_spread_of(values@, mean as int, (i + 1) as nat);
        }
        let d: i128 = values[i] as i128 - mean as i128;
        proof {
            lemma_product_bound(d as int, 1_000_000, d as int, 1_000_000);
        }
        spread = spread + d * d;
        i += 1;
    }
    proof {
        lemma_spread_of(values@, mean as int, n as nat);
        lemma_round_div_mean(spread as int, n as int, 1_000_000_000_000);
        lemma_round_div_bounds(spread as int, n as int);
    }
    let variance: i128 = div_round(spread, n as i128);
    let std_dev: u64 = isqrt(variance as u128);
    let sorted = sorted_values(values);
    proof {
        lemma_ascending(values@);
        assert forall|k: int| 0 <= k < sorted@.len() implies 0 <= #[trigger] sorted@[k] <= UNIT by {
            assert(values@.contains(sorted@[k]));
        }
    }
    let median: i64 = if n % 2 == 0 {
        div_round(sorted[n / 2 - 1] as i128 + sorted[n / 2] as i128, 2) as i64
    } else {
        sorted[n / 2]
    };
    proof {
        if n % 2 == 0 {
            lemma_round_div_mean(
                sorted@[(n / 2) as int - 1] + sorted@[(n / 2) as int],
                2,
                UNIT as int,
            );
        }
    }
    SpotStatistics {
        mean,
        median,
        std_dev: std_dev as i64,
        min: sorted[0],
        max: sorted[n - 1],
        sum,
        pixel_count: n,
    }
}

/// The intensities of the pixels of a spot on a frame of normalized
/// intensities, read row by row.
pub open spec fn spot_values(normalized: Plane<i64>, spot: Spot) -> Seq<i64> {
    let y_lo = collect_low(spot.grid_y as int, spot.diameter as int, normalized.height as int);
    let y_hi = collect_high(spot.grid_y as int, spot.diameter as int, normalized.height as int);
    let x_lo = collect_low(spot.grid_x as int, spot.diameter as int, normalized.width as int);
    let x_hi = collect_high(spot.grid_x as int, spot.diameter as int, normalized.width as int);
    if y_lo < y_hi && x_lo < x_hi {
        collected(normalized, spot, y_lo, x_lo, x_hi, ((y_hi - y_lo) * (x_hi - x_lo)) as nat)
    } else {
        Seq::empty()
    }
}

/// Whether `stats` are the statistics of the spot on the frame of normalized
/// intensities: nothing for a bad spot or a spot that holds no pixel.
pub open spec fn are_spot_statistics(stats: Option<SpotStatistics>, normalized: Plane<i64>, spot: Spot) -> bool {
    match stats {
        None => spot.is_bad || spot_values(normalized, spot).len() == 0,
        Some(s) => !spot.is_bad && spot_values(normalized, spot).len() > 0 && s == statistics_of(
            spot_values(normalized, spot),
        ),
    }
}

fn low_of(position: i64, diameter: i64, side: usize) -> (p: usize)
    requires
        -100_000_000_000_000_000 <= position <= 100_000_000_000_000_000,
        0 <= diameter <= 100_000_000_000_000_000,
        side <= SIDE_MAX,
    ensures
        p == collect_low(position as int, diameter as int, side as int),
        p <= side,
{
    let low: i128 = 2 * (position as i128) - diameter as i128;
    let p: i128 = if low <= 0 {
        0
    } else {
        low / 2_000_000
    };
    if p > side as i128 {
        side
    } else {
        p as usize
    }
}

fn high_of(position: i64, diameter: i64, side: usize) -> (p: usize)
    requires
        -100_000_000_000_000_000 <= position <= 100_000_000_000_000_000,
        0 <= diameter <= 100_000_000_000_000_000,
        side <= SIDE_MAX,
    ensures
        p == collect_high(position as int, diameter as int, side as int),
        p <= side,
{
    let high: i128 = 2 * (position as i128) + diameter as i128;
    let p: i128 = if high <= 0 {
        0
    } else {
        (high + 1_999_999) / 2_000_000
    };
    if p > side as i128 {
        side
    } else {
        p as usize
    }
}

/// The statistics of the intensities of a spot on a frame of normalized
/// intensities.
pub fn spot_statistics(normalized: &Plane<i64>, spot: &Spot) -> (stats: Option<SpotStatistics>)
    requires
        normalized.wf(),
        normalized.between(0, UNIT as int),
        normalized.height <= SIDE_MAX,
        normalized.width <= SIDE_MAX,
        spot.wf(),
    ensures
        are_spot_statistics(stats, *normalized, *spot),
{
    let y_lo: usize = low_of(spot.grid_y, spot.diameter, normalized.height);
    let y_hi: usize = high_of(spot.grid_y, spot.diameter, normalized.height);
    let x_lo: usize = low_of(spot.grid_x, spot.diameter, normalized.width);
    let x_hi: usize = high_of(spot.grid_x, spot.diameter, normalized.width);
    if spot.is_bad || y_lo >= y_hi || x_lo >= x_hi {
        assert(spot.is_bad || spot_values(*normalized, *spot).len() == 0);
        return None;
    }
    let values = collect(normalized, spot, y_lo, y_hi, x_lo, x_hi);
    assert(values@ == spot_values(*normalized, *spot));
    if values.len() == 0 {
        return None;
    }
    Some(statistics(&values))
}

/// The statistics of the intensities of a spot: mean, median, standard
/// deviation, smallest, largest and sum of the intensities of the pixels
/// within the spot, as fractions of the largest sample of the frame.
pub fn compute_spot_statistics(image: &ImageData, spot: &Spot) -> (stats: Option<SpotStatistics>)
    requires
        image.wf(),
        image.within_limits(),
        spot.wf(),
    ensures
        exists|normalized: Plane<i64>|
            {
                &&& normalized.wf() && normalized.height == image.height && normalized.width
                    == image.width
                &&& forall|y: int, x: int|
                    image.inside(y, x) ==> #[trigger] normalized.at(y, x) == intensity(*image, y, x)
                &&& #[trigger] are_spot_statistics(stats, normalized, *spot)
            },
{
    let normalized = normalize_image(image);
    let stats = spot_statistics(&normalized, spot);
    assert(are_spot_statistics(stats, normalized, *spot));
    stats
}

} // verus!
