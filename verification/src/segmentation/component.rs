//! The largest connected set of edge pixels.
use vstd::prelude::*;
use crate::grid::correlate::scanned_before;
use crate::image_processing::connect::{connected, flood_fill, is_component, open_at, sealed};
use crate::plane::Plane;

verus! {

/// Whether the set cell `(ty, tx)` belongs to the connected set of `seed`,
/// which `cells` lists, and that set does not outrank the best: it is no
/// larger, and smaller if its seed comes before the seed of the best.
pub open spec fn outranked(
    mask: Plane<bool>,
    ty: int,
    tx: int,
    seed: (int, int),
    cells: Seq<(usize, usize)>,
    best_seed: (int, int),
    best_len: int,
) -> bool {
    &&& is_component(mask, seed.0, seed.1, cells)
    &&& connected(mask, seed.0, seed.1, ty, tx)
    &&& cells.len() <= best_len
    &&& scanned_before(seed.0, seed.1, best_seed.0, best_seed.1) ==> cells.len() < best_len
}

/// Whether `best` lists the largest connected set of the set cells of
/// `mask`: it is empty if no cell is set; else it lists the connected set of
/// its first cell, and every set cell belongs to a connected set that is no
/// larger. Of several largest sets it is the one that is met first when the
/// raster is read row by row.
pub open spec fn is_largest_component(mask: Plane<bool>, best: Seq<(usize, usize)>) -> bool {
    if best.len() == 0 {
        forall|y: int, x: int| mask.inside(y, x) ==> !#[trigger] mask.at(y, x)
    } else {
        &&& is_component(mask, best[0].0 as int, best[0].1 as int, best)
        &&& forall|i: int|
            0 <= i < best.len() ==> mask.inside((#[trigger] best[i]).0 as int, best[i].1 as int)
        &&& forall|y: int, x: int|
            open_at(mask, y, x) ==> exists|seed: (int, int), cells: Seq<(usize, usize)>| #[trigger]
                outranked(
                    mask,
                    y,
                    x,
                    seed,
                    cells,
                    (best[0].0 as int, best[0].1 as int),
                    best.len() as int,
                )
    }
}

spec fn best_seed(best: Seq<(usize, usize)>) -> (int, int) {
    if best.len() == 0 {
        (-1, -1)
    } else {
        (best[0].0 as int, best[0].1 as int)
    }
}

spec fn sweeping(mask: Plane<bool>, marked: Plane<bool>, best: Seq<(usize, usize)>, y: int, x: int) -> bool {
    &&& marked.wf() && marked.height == mask.height && marked.width == mask.width
    &&& sealed(mask, marked)
    &&& forall|v: int, u: int|
        mask.inside(v, u) && scanned_before(v, u, y, x) && mask.at(v, u) ==> #[trigger] marked.at(
            v,
            u,
        )
    &&& forall|v: int, u: int| mask.inside(v, u) && #[trigger] marked.at(v, u) ==> mask.at(v, u)
    &&& (best.len() == 0 ==> forall|v: int, u: int| mask.inside(v, u) ==> !#[trigger] marked.at(v, u))
    &&& (best.len() > 0 ==> is_component(mask, best[0].0 as int, best[0].1 as int, best))
    &&& (best.len() > 0 ==> scanned_before(best[0].0 as int, best[0].1 as int, y, x))
    &&& forall|i: int|
        0 <= i < best.len() ==> mask.inside((#[trigger] best[i]).0 as int, best[i].1 as int)
    &&& forall|v: int, u: int|
        mask.inside(v, u) && #[trigger] marked.at(v, u) ==> exists|
            seed: (int, int),
            cells: Seq<(usize, usize)>,
        | #[trigger] outranked(mask, v, u, seed, cells, best_seed(best), best.len() as int)
}

/// The largest connected set of the set cells of a raster, as a list of its
/// cells `(row, column)`; the empty list for a raster without set cells.
#[verifier::loop_isolation(false)]
pub fn largest_component(mask: &Plane<bool>) -> (best: Vec<(usize, usize)>)
    requires
        mask.wf(),
    ensures
        is_largest_component(*mask, best@),
{
    let height: usize = mask.height;
    let width: usize = mask.width;
    let mut marked: Plane<bool> = Plane::filled(height, width, false);
    let mut best: Vec<(usize, usize)> = Vec::new();
    let mut y: usize = 0;
    while y < height
        invariant
            y <= height,
            sweeping(*mask, marked, best@, y as int, 0),
        decreases height - y,
    {
        let mut x: usize = 0;
        while x < width
            invariant
                y < height,
                x <= width,
                sweeping(*mask, marked, best@, y as int, x as int),
            decreases width - x,
        {
            if mask.get(y, x) && !marked.get(y, x) {
                let ghost marked0 = marked;
                let ghost best0 = best@;
                let cells = flood_fill(mask, &mut marked, y, x);
                let replace: bool = cells.len() > best.len();
                proof {
                    let new_best = if replace {
                        cells@
                    } else {
                        best0
                    };
                    assert(cells@[0] == (y, x));
                    assert forall|v: int, u: int| mask.inside(v, u) && #[trigger] marked.at(v, u) implies exists|
                        seed: (int, int),
                        cells2: Seq<(usize, usize)>,
                    | #[trigger]
                        outranked(*mask, v, u, seed, cells2, best_seed(new_best), new_best.len() as int) by {
                        if marked0.at(v, u) {
                            let (seed, cells2) = choose|seed: (int, int), cells2: Seq<(usize, usize)>| #[trigger]
                                outranked(*mask, v, u, seed, cells2, best_seed(best0), best0.len() as int);
                            assert(outranked(
                                *mask,
                                v,
                                u,
                                seed,
                                cells2,
                                best_seed(new_best),
                                new_best.len() as int,
                            ));
                        } else {
                            assert(connected(*mask, y as int, x as int, v, u));
                            assert(outranked(
                                *mask,
                                v,
                                u,
                                (y as int, x as int),
                                cells@,
                                best_seed(new_best),
                                new_best.len() as int,
                            ));
                        }
                    }
                }
                if replace {
                    best = cells;
                }
            }
            x += 1;
        }
        y += 1;
    }
    proof {
        if best@.len() > 0 {
            assert forall|v: int, u: int| open_at(*mask, v, u) implies exists|
                seed: (int, int),
                cells: Seq<(usize, usize)>,
            | #[trigger]
                outranked(
                    *mask,
                    v,
                    u,
                    seed,
                    cells,
                    (best@[0].0 as int, best@[0].1 as int),
                    best@.len() as int,
                ) by {
                assert(scanned_before(v, u, height as int, 0));
                assert(marked.at(v, u));
            }
        } else {
            assert forall|v: int, u: int| mask.inside(v, u) implies !#[trigger] mask.at(v, u) by {
                if mask.at(v, u) {
                    assert(scanned_before(v, u, height as int, 0));
                    assert(marked.at(v, u));
                }
            }
        }
    }
    best
}

} // verus!
