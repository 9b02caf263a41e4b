//! Turning a point about the origin.
use vstd::prelude::*;
use crate::fixed::{
    div_round, lemma_product_bound, lemma_round_div_bounds, magnitude, rotated, Rotation,
    COORD_MAX, UNIT,
};

verus! {

/// The point `(x, y)` turned about the origin.
pub fn rotate_point(x: i64, y: i64, rotation: Rotation) -> (p: (i64, i64))
    requires
        rotation.wf(),
        -COORD_MAX <= x <= COORD_MAX,
        -COORD_MAX <= y <= COORD_MAX,
    ensures
        (p.0 as int, p.1 as int) == rotated(x as int, y as int, rotation),
        magnitude(p.0 as int) <= magnitude(x as int) + magnitude(y as int),
        magnitude(p.1 as int) <= magnitude(x as int) + magnitude(y as int),
{
    let c: i128 = rotation.cos as i128;
    let s: i128 = rotation.sin as i128;
    let ghost ax = magnitude(x as int);
    let ghost ay = magnitude(y as int);
    proof {
        lemma_product_bound(x as int, ax, c as int, 1_000_000);
        lemma_product_bound(y as int, ay, s as int, 1_000_000);
        lemma_product_bound(x as int, ax, s as int, 1_000_000);
        lemma_product_bound(y as int, ay, c as int, 1_000_000);
        lemma_round_div_bounds(x * c - y * s, 1_000_000);
        lemma_round_div_bounds(x * s + y * c, 1_000_000);
    }
    let px: i128 = div_round((x as i128) * c - (y as i128) * s, UNIT as i128);
    let py: i128 = div_round((x as i128) * s + (y as i128) * c, UNIT as i128);
    (px as i64, py as i64)
}

} // verus!
