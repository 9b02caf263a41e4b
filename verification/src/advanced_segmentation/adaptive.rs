//! Edges by a threshold that is a percentile of the gradient.
use vstd::prelude::*;
use crate::fixed::{lemma_product_bound, UNIT};
use crate::order::{ascending, sorted_values};
use crate::plane::Plane;

verus! {

/// The place, in the ascending order of `len` values, of the value that
/// divides off the upper `percentile` (in millionths) of them.
pub open spec fn percentile_index(len: int, percentile: int) -> int {
    (len * (UNIT - percentile)) / (UNIT as int)
}

/// The threshold that goes with a place in the ascending order: the value at
/// that place, or 0 where the place lies after the last value.
pub open spec fn percentile_level(sorted: Seq<i64>, percentile: int) -> int {
    let index = percentile_index(sorted.len() as int, percentile);
    if index < sorted.len() {
        sorted[index] as int
    } else {
        0
    }
}

/// The threshold of a gradient raster at a percentile: the value of its cells
/// that divides off the upper `percentile` of them.
pub open spec fn adaptive_level(gradient: Plane<i64>, percentile: int) -> int {
    percentile_level(ascending(gradient.cells@), percentile)
}

/// Whether `edges` marks the cells of `gradient` that reach the threshold
/// at the given percentile.
pub open spec fn is_adaptive_edges(edges: Plane<bool>, gradient: Plane<i64>, percentile: int) -> bool {
    &&& edges.wf() && edges.height == gradient.height && edges.width == gradient.width
    &&& forall|y: int, x: int|
        gradient.inside(y, x) ==> #[trigger] edges.at(y, x) == (gradient.at(y, x)
            >= adaptive_level(gradient, percentile))
}

/// Marks as edges the cells whose gradient reaches the value that divides off
/// the upper `percentile` of all cells.
#[verifier::loop_isolation(false)]
pub fn adaptive_edge_detection(gradient: &Plane<i64>, percentile: i64) -> (edges: Plane<bool>)
    requires
        gradient.wf(),
        0 <= percentile <= UNIT,
    ensures
        is_adaptive_edges(edges, *gradient, percentile as int),
{
    let values = sorted_values(&gradient.cells);
    let len: usize = values.len();
    proof {
        lemma_product_bound(len as int, len as int, UNIT - percentile, 1_000_000);
        assert(len * (UNIT - percentile) >= 0) by (nonlinear_arith)
            requires
                len >= 0,
                UNIT - percentile >= 0,
        ;
    }
    let index: u128 = ((len as u128) * ((UNIT - percentile) as u128)) / (UNIT as u128);
    let level: i64 = if index < len as u128 {
        values[index as usize]
    } else {
        0
    };
    let mut edges: Plane<bool> = Plane::filled(gradient.height, gradient.width, false);
    let mut y: usize = 0;
    while y < gradient.height
        invariant
            y <= gradient.height,
            edges.wf() && edges.height == gradient.height && edges.width == gradient.width,
            forall|v: int, u: int|
                gradient.inside(v, u) && v < y ==> #[trigger] edges.at(v, u) == (gradient.at(v, u)
                    >= level),
        decreases gradient.height - y,
    {
        let mut x: usize = 0;
        while x < gradient.width
            invariant
                y < gradient.height,
                x <= gradient.width,
                edges.wf() && edges.height == gradient.height && edges.width == gradient.width,
                forall|v: int, u: int|
                    gradient.inside(v, u) && (v < y || (v == y && u < x)) ==> #[trigger] edges.at(v, u)
                        == (gradient.at(v, u) >= level),
            decreases gradient.width - x,
        {
            edges.set(y, x, gradient.get(y, x) >= level);
            x += 1;
        }
        y += 1;
    }
    edges
}

} // verus!
