//! Smoothing with a bell-shaped window, along the rows and then along the
//! columns.
//!
//! A raster is smoothed in passes. In one pass every cell becomes the mean
//! of itself, counted twice, and its two neighbours along the axis. `r`
//! passes together weigh the window that reaches `r` cells to either side as
//! the binomial coefficients of `2 r` do, the whole-number form of the
//! Gaussian bell with the standard deviation `sqrt(r / 2)`.
use vstd::prelude::*;
use crate::config::RATIO_MAX;
use crate::fixed::{div_round, lemma_product_bound, lemma_round_div_mean, round_div, UNIT};
use crate::image_processing::gradient::SAMPLE_MAX;
use crate::plane::Plane;

verus! {

/// How many passes smooth a raster: twice the square of `sigma`, rounded,
/// and at least 1. The weights of so many passes have the standard deviation
/// `sigma`, as nearly as binomial weights can: two passes for a `sigma` of 1,
/// with the weights 1 4 6 4 1.
pub open spec fn kernel_reach(sigma: int) -> int {
    let k = round_div(2 * (sigma * sigma), UNIT * UNIT);
    if k < 1 {
        1
    } else {
        k
    }
}

/// The mean of a cell, counted twice, and its neighbours before and after
/// it along an axis, rounded. At the border a neighbour is missing, and the
/// mean is taken of what there is.
pub open spec fn mean_of_three(before: int, has_before: bool, at: int, after: int, has_after: bool) -> int {
    if has_before && has_after {
        round_div(before + 2 * at + after, 4)
    } else if has_before {
        round_div(before + 2 * at, 3)
    } else if has_after {
        round_div(2 * at + after, 3)
    } else {
        at
    }
}

/// The cell `(y, x)` after `passes` passes along the rows.
pub open spec fn along_rows(data: Plane<i64>, passes: nat, y: int, x: int) -> int
    decreases passes,
{
    if passes == 0 {
        data.at(y, x) as int
    } else {
        let before = (passes - 1) as nat;
        mean_of_three(
            along_rows(data, before, y, x - 1),
            x > 0,
            along_rows(data, before, y, x),
            along_rows(data, before, y, x + 1),
            x + 1 < data.width,
        )
    }
}

/// The cell `(y, x)` after `reach` passes along the rows and `passes` passes
/// along the columns.
pub open spec fn along_columns(data: Plane<i64>, reach: nat, passes: nat, y: int, x: int) -> int
    decreases passes,
{
    if passes == 0 {
        along_rows(data, reach, y, x)
    } else {
        let before = (passes - 1) as nat;
        mean_of_three(
            along_columns(data, reach, before, y - 1, x),
            y > 0,
            along_columns(data, reach, before, y, x),
            along_columns(data, reach, before, y + 1, x),
            y + 1 < data.height,
        )
    }
}

/// The smoothed value of the cell `(y, x)`: `reach` passes along the rows,
/// then as many along the columns.
pub open spec fn blurred(data: Plane<i64>, reach: int, y: int, x: int) -> int {
    along_columns(data, reach as nat, reach as nat, y, x)
}

fn reach_of(sigma: i64) -> (reach: usize)
    requires
        0 <= sigma <= RATIO_MAX,
    ensures
        reach == kernel_reach(sigma as int),
        1 <= reach <= 2_000_000,
{
    proof {
        lemma_product_bound(sigma as int, 1_000_000_000, sigma as int, 1_000_000_000);
        lemma_round_div_mean(2 * (sigma * sigma), 1_000_000_000_000, 2_000_000);
        assert(UNIT * UNIT == 1_000_000_000_000);
    }
    let k: i128 = div_round(2 * ((sigma as i128) * (sigma as i128)), 1_000_000_000_000);
    if k < 1 {
        1
    } else {
        k as usize
    }
}

/// The mean of a cell and its neighbours, as many as there are.
fn mean_three(before: i64, has_before: bool, at: i64, after: i64, has_after: bool) -> (mean: i64)
    requires
        -SAMPLE_MAX <= before <= SAMPLE_MAX,
        -SAMPLE_MAX <= at <= SAMPLE_MAX,
        -SAMPLE_MAX <= after <= SAMPLE_MAX,
    ensures
        mean == mean_of_three(before as int, has_before, at as int, after as int, has_after),
        -SAMPLE_MAX <= mean <= SAMPLE_MAX,
{
    if has_before && has_after {
        proof {
            lemma_round_div_mean(before + 2 * at + after, 4, SAMPLE_MAX as int);
        }
        div_round(before as i128 + 2 * (at as i128) + after as i128, 4) as i64
    } else if has_before {
        proof {
            lemma_round_div_mean(before + 2 * at, 3, SAMPLE_MAX as int);
        }
        div_round(before as i128 + 2 * (at as i128), 3) as i64
    } else if has_after {
        proof {
            lemma_round_div_mean(2 * at + after, 3, SAMPLE_MAX as int);
        }
        div_round(2 * (at as i128) + after as i128, 3) as i64
    } else {
        at
    }
}

/// One pass along the rows, or along the columns.
#[verifier::loop_isolation(false)]
fn smoothing_pass(data: &Plane<i64>, rows: bool) -> (smooth: Plane<i64>)
    requires
        data.wf(),
        data.bounded(SAMPLE_MAX as int),
    ensures
        smooth.wf() && smooth.height == data.height && smooth.width == data.width,
        smooth.bounded(SAMPLE_MAX as int),
        forall|y: int, x: int|
            data.inside(y, x) ==> #[trigger] smooth.at(y, x) == if rows {
                mean_of_three(
                    data.at(y, x - 1) as int,
                    x > 0,
                    data.at(y, x) as int,
                    data.at(y, x + 1) as int,
                    x + 1 < data.width,
                )
            } else {
                mean_of_three(
                    data.at(y - 1, x) as int,
                    y > 0,
                    data.at(y, x) as int,
                    data.at(y + 1, x) as int,
                    y + 1 < data.height,
                )
            },
{
    let height: usize = data.height;
    let width: usize = data.width;
    let mut smooth: Plane<i64> = Plane::filled(height, width, 0);
    let mut y: usize = 0;
    while y < height
        invariant
            y <= height,
            smooth.wf() && smooth.height == height && smooth.width == width,
            smooth.bounded(SAMPLE_MAX as int),
            forall|v: int, u: int|
                data.inside(v, u) && v < y ==> #[trigger] smooth.at(v, u) == if rows {
                    mean_of_three(
                        data.at(v, u - 1) as int,
                        u > 0,
                        data.at(v, u) as int,
                        data.at(v, u + 1) as int,
                        u + 1 < data.width,
                    )
                } else {
                    mean_of_three(
                        data.at(v - 1, u) as int,
                        v > 0,
                        data.at(v, u) as int,
                        data.at(v + 1, u) as int,
                        v + 1 < data.height,
                    )
                },
        decreases height - y,
    {
        let mut x: usize = 0;
        while x < width
            invariant
                y < height,
                x <= width,
                smooth.wf() && smooth.height == height && smooth.width == width,
                smooth.bounded(SAMPLE_MAX as int),
                forall|v: int, u: int|
                    data.inside(v, u) && (v < y || (v == y && u < x)) ==> #[trigger] smooth.at(v, u)
                        == if rows {
                        mean_of_three(
                            data.at(v, u - 1) as int,
                            u > 0,
                            data.at(v, u) as int,
                            data.at(v, u + 1) as int,
                            u + 1 < data.width,
                        )
                    } else {
                        mean_of_three(
                            data.at(v - 1, u) as int,
                            v > 0,
                            data.at(v, u) as int,
                            data.at(v + 1, u) as int,
                            v + 1 < data.height,
                        )
                    },
            decreases width - x,
        {
            let at: i64 = data.get(y, x);
            assert(data.inside(y as int, x as int));
            let (has_before, has_after): (bool, bool) = if rows {
                (x > 0, x + 1 < width)
            } else {
                (y > 0, y + 1 < height)
            };
            let before: i64 = if !has_before {
                0
            } else if rows {
                assert(data.inside(y as int, x - 1));
                data.get(y, x - 1)
            } else {
                assert(data.inside(y - 1, x as int));
                data.get(y - 1, x)
            };
            let after: i64 = if !has_after {
                0
            } else if rows {
                assert(data.inside(y as int, x + 1));
                data.get(y, x + 1)
            } else {
                assert(data.inside(y + 1, x as int));
                data.get(y + 1, x)
            };
            let mean: i64 = mean_three(before, has_before, at, after, has_after);
            smooth.set(y, x, mean);
            x += 1;
        }
        y += 1;
    }
    smooth
}

/// Smooths a raster: `kernel_reach(sigma)` passes along the rows, then as
/// many along the columns. In a pass every cell becomes the mean of itself,
/// counted twice, and its two neighbours.
#[verifier::loop_isolation(false)]
pub fn gaussian_blur(data: &Plane<i64>, sigma: i64) -> (smooth: Plane<i64>)
    requires
        data.wf(),
        data.bounded(SAMPLE_MAX as int),
        0 <= sigma <= RATIO_MAX,
    ensures
        smooth.wf() && smooth.height == data.height && smooth.width == data.width,
        forall|y: int, x: int|
            data.inside(y, x) ==> #[trigger] smooth.at(y, x) == blurred(
                *data,
                kernel_reach(sigma as int),
                y,
                x,
            ),
        smooth.bounded(SAMPLE_MAX as int),
{
    let reach: usize = reach_of(sigma);
    let mut smooth: Plane<i64> = smoothing_pass(data, true);
    assert forall|y: int, x: int| data.inside(y, x) implies #[trigger] smooth.at(y, x)
        == along_rows(*data, 1, y, x) by {
        reveal_with_fuel(along_rows, 2);
    }
    let mut k: usize = 1;
    while k < reach
        invariant
            1 <= k <= reach,
            smooth.wf() && smooth.height == data.height && smooth.width == data.width,
            smooth.bounded(SAMPLE_MAX as int),
            forall|y: int, x: int|
                data.inside(y, x) ==> #[trigger] smooth.at(y, x) == along_rows(
                    *data,
                    k as nat,
                    y,
                    x,
                ),
        decreases reach - k,
    {
        let next = smoothing_pass(&smooth, true);
        assert forall|y: int, x: int| data.inside(y, x) implies #[trigger] next.at(y, x)
            == along_rows(*data, (k + 1) as nat, y, x) by {
            assert(smooth.inside(y, x));
            if x > 0 {
                assert(data.inside(y, x - 1));
            }
            if x + 1 < data.width {
                assert(data.inside(y, x + 1));
            }
            lemma_mean_ignores(
                smooth.at(y, x - 1) as int,
                along_rows(*data, k as nat, y, x - 1),
                x > 0,
                smooth.at(y, x) as int,
                smooth.at(y, x + 1) as int,
                along_rows(*data, k as nat, y, x + 1),
                x + 1 < data.width,
            );
        }
        smooth = next;
        k += 1;
    }
    let mut k: usize = 0;
    while k < reach
        invariant
            k <= reach,
            smooth.wf() && smooth.height == data.height && smooth.width == data.width,
            smooth.bounded(SAMPLE_MAX as int),
            forall|y: int, x: int|
                data.inside(y, x) ==> #[trigger] smooth.at(y, x) == along_columns(
                    *data,
                    reach as nat,
                    k as nat,
                    y,
                    x,
                ),
        decreases reach - k,
    {
        let next = smoothing_pass(&smooth, false);
        assert forall|y: int, x: int| data.inside(y, x) implies #[trigger] next.at(y, x)
            == along_columns(*data, reach as nat, (k + 1) as nat, y, x) by {
            assert(smooth.inside(y, x));
            if y > 0 {
                assert(data.inside(y - 1, x));
            }
            if y + 1 < data.height {
                assert(data.inside(y + 1, x));
            }
            lemma_mean_ignores(
                smooth.at(y - 1, x) as int,
                along_columns(*data, reach as nat, k as nat, y - 1, x),
                y > 0,
                smooth.at(y, x) as int,
                smooth.at(y + 1, x) as int,
                along_columns(*data, reach as nat, k as nat, y + 1, x),
                y + 1 < data.height,
            );
        }
        smooth = next;
        k += 1;
    }
    smooth
}

/// The mean does not look at a neighbour that is missing.
proof fn lemma_mean_ignores(
    before: int,
    other_before: int,
    has_before: bool,
    at: int,
    after: int,
    other_after: int,
    has_after: bool,
)
    requires
        has_before ==> before == other_before,
        has_after ==> after == other_after,
    ensures
        mean_of_three(before, has_before, at, after, has_after) == mean_of_three(
            other_before,
            has_before,
            at,
            other_after,
            has_after,
        ),
{
}

} // verus!
