//! Votes for circle centres: every marked pixel votes for the centres of the
//! circles of a given radius through it, at a fixed step of the angle.
use vstd::prelude::*;
use crate::fixed::{div_round, lemma_product_bound, lemma_round_div_bounds, round_div, UNIT};
use crate::plane::{lemma_cell_index, Plane};
use crate::trig::{cosine, cosine_of, sine, sine_of};
use crate::types::SIDE_MAX;

verus! {

/// Largest radius of a circle that is voted for, in pixels.
pub const RADIUS_MAX: usize = 100_000;

/// Most votes that the pixels of a raster can give to one centre at one
/// radius: 36 from each of a million times a million pixels.
pub const RING_MAX: i64 = 36_000_000_000_000;

/// The centre that the pixel `(x, y)` votes for at the angle `degrees`: the
/// pixel nearest to the point at the distance `radius` in that direction. A
/// vote for a centre off the raster is a vote for no cell of it.
pub open spec fn vote_target(x: int, y: int, radius: int, degrees: int) -> (int, int) {
    let tx = x + round_div(radius * cosine(degrees), UNIT as int);
    let ty = y + round_div(radius * sine(degrees), UNIT as int);
    (tx, ty)
}

/// How many of the first `k` angles, `step` degrees apart, have the pixel
/// `(x, y)` vote for the centre `(tx, ty)`.
pub open spec fn angle_votes(
    x: int,
    y: int,
    radius: int,
    step: int,
    ty: int,
    tx: int,
    k: nat,
) -> int
    decreases k,
{
    if k == 0 {
        0
    } else {
        angle_votes(x, y, radius, step, ty, tx, (k - 1) as nat) + if vote_target(
            x,
            y,
            radius,
            (k - 1) * step,
        ) == (tx, ty) {
            1int
        } else {
            0int
        }
    }
}

/// How many votes the marked pixels among the first `n` pixels give to the
/// centre `(tx, ty)`, each at every angle of the full turn.
pub open spec fn pixel_votes(
    mask: Plane<bool>,
    radius: int,
    step: int,
    ty: int,
    tx: int,
    n: nat,
) -> int
    decreases n,
{
    if n == 0 {
        0
    } else {
        let y = (n - 1) / (mask.width as int);
        let x = (n - 1) % (mask.width as int);
        pixel_votes(mask, radius, step, ty, tx, (n - 1) as nat) + if mask.at(y, x) {
            angle_votes(x, y, radius, step, ty, tx, (360int / step) as nat)
        } else {
            0
        }
    }
}

/// How many votes the centre `(tx, ty)` gets for circles of radius `radius`.
pub open spec fn ring_votes(mask: Plane<bool>, radius: int, step: int, ty: int, tx: int) -> int {
    pixel_votes(mask, radius, step, ty, tx, (mask.height * mask.width) as nat)
}

proof fn lemma_angle_votes_bound(
    x: int,
    y: int,
    radius: int,
    step: int,
    ty: int,
    tx: int,
    k: nat,
)
    ensures
        0 <= angle_votes(x, y, radius, step, ty, tx, k) <= k,
    decreases k,
{
    if k > 0 {
        lemma_angle_votes_bound(x, y, radius, step, ty, tx, (k - 1) as nat);
    }
}

proof fn lemma_pixel_votes_bound(
    mask: Plane<bool>,
    radius: int,
    step: int,
    ty: int,
    tx: int,
    n: nat,
)
    requires
        step == 10 || step == 15,
    ensures
        0 <= pixel_votes(mask, radius, step, ty, tx, n) <= 36 * n,
    decreases n,
{
    if n > 0 {
        lemma_pixel_votes_bound(mask, radius, step, ty, tx, (n - 1) as nat);
        let y = (n - 1) / (mask.width as int);
        let x = (n - 1) % (mask.width as int);
        lemma_angle_votes_bound(x, y, radius, step, ty, tx, (360int / step) as nat);
    }
}

fn target_of(x: usize, y: usize, radius: usize, degrees: u32) -> (t: (i64, i64))
    requires
        x <= SIDE_MAX,
        y <= SIDE_MAX,
        radius <= RADIUS_MAX,
        degrees < 360,
    ensures
        (t.0 as int, t.1 as int) == vote_target(
            x as int,
            y as int,
            radius as int,
            degrees as int,
        ),
{
    let c: i64 = cosine_of(degrees);
    let s: i64 = sine_of(degrees);
    proof {
        lemma_product_bound(radius as int, 100_000, c as int, 1_000_000);
        lemma_product_bound(radius as int, 100_000, s as int, 1_000_000);
        lemma_round_div_bounds(radius * c, UNIT as int);
        lemma_round_div_bounds(radius * s, UNIT as int);
    }
    let dx: i64 = div_round((radius as i128) * (c as i128), UNIT as i128) as i64;
    let dy: i64 = div_round((radius as i128) * (s as i128), UNIT as i128) as i64;
    let tx: i64 = x as i64 + dx;
    let ty: i64 = y as i64 + dy;
    (tx, ty)
}

/// The votes that every centre gets for circles of radius `radius`, from the
/// marked pixels of `mask`, at angles `step` degrees apart.
#[verifier::loop_isolation(false)]
pub fn ring_plane(mask: &Plane<bool>, radius: usize, step: u32) -> (votes: Plane<i64>)
    requires
        mask.wf(),
        mask.height <= SIDE_MAX,
        mask.width <= SIDE_MAX,
        radius <= RADIUS_MAX,
        step == 10 || step == 15,
    ensures
        votes.wf(),
        votes.height == mask.height,
        votes.width == mask.width,
        forall|ty: int, tx: int|
            mask.inside(ty, tx) ==> #[trigger] votes.at(ty, tx) == ring_votes(
                *mask,
                radius as int,
                step as int,
                ty,
                tx,
            ),
        votes.between(0, RING_MAX as int),
{
    let height: usize = mask.height;
    let width: usize = mask.width;
    let count: u32 = 360 / step;
    let mut votes: Plane<i64> = Plane::filled(height, width, 0);
    assert(height * width <= 1_000_000 * 1_000_000) by (nonlinear_arith)
        requires
            0 <= height <= 1_000_000,
            0 <= width <= 1_000_000,
    ;
    assert(0 * width == 0) by (nonlinear_arith);
    let mut y: usize = 0;
    while y < height
        invariant
            y <= height,
            votes.wf() && votes.height == height && votes.width == width,
            forall|ty: int, tx: int|
                mask.inside(ty, tx) ==> #[trigger] votes.at(ty, tx) == pixel_votes(
                    *mask,
                    radius as int,
                    step as int,
                    ty,
                    tx,
                    (y * width) as nat,
                ),
        decreases height - y,
    {
        let mut x: usize = 0;
        while x < width
            invariant
                y < height,
                x <= width,
                votes.wf() && votes.height == height && votes.width == width,
                forall|ty: int, tx: int|
                    mask.inside(ty, tx) ==> #[trigger] votes.at(ty, tx) == pixel_votes(
                        *mask,
                        radius as int,
                        step as int,
                        ty,
                        tx,
                        (y * width + x) as nat,
                    ),
            decreases width - x,
        {
            let ghost n = (y * width + x) as nat;
            proof {
                lemma_cell_index(height as int, width as int, y as int, x as int);
            }
            if mask.get(y, x) {
                let mut k: u32 = 0;
                while k < count
                    invariant
                        k <= count,
                        votes.wf() && votes.height == height && votes.width == width,
                        forall|ty: int, tx: int|
                            mask.inside(ty, tx) ==> #[trigger] votes.at(ty, tx) == pixel_votes(
                                *mask,
                                radius as int,
                                step as int,
                                ty,
                                tx,
                                n,
                            ) + angle_votes(
                                x as int,
                                y as int,
                                radius as int,
                                step as int,
                                ty,
                                tx,
                                k as nat,
                            ),
                    decreases count - k,
                {
                    let degrees: u32 = if step == 10 {
                        k * 10
                    } else {
                        k * 15
                    };
                    assert(degrees == k * step);
                    let t = target_of(x, y, radius, degrees);
                    let ghost before = votes;
                    if t.0 >= 0 && t.0 < width as i64 && t.1 >= 0 && t.1 < height as i64 {
                        let ty: usize = t.1 as usize;
                        let tx: usize = t.0 as usize;
                        proof {
                            lemma_pixel_votes_bound(
                                *mask,
                                radius as int,
                                step as int,
                                ty as int,
                                tx as int,
                                n,
                            );
                            lemma_angle_votes_bound(
                                x as int,
                                y as int,
                                radius as int,
                                step as int,
                                ty as int,
                                tx as int,
                                k as nat,
                            );
                        }
                        let old_votes: i64 = votes.get(ty, tx);
                        votes.set(ty, tx, old_votes + 1);
                    }
                    proof {
                        assert forall|ty: int, tx: int| mask.inside(ty, tx) implies #[trigger] votes.at(
                            ty,
                            tx,
                        ) == pixel_votes(*mask, radius as int, step as int, ty, tx, n)
                            + angle_votes(
                            x as int,
                            y as int,
                            radius as int,
                            step as int,
                            ty,
                            tx,
                            (k + 1) as nat,
                        ) by {
                            assert(before.at(ty, tx) == pixel_votes(
                                *mask,
                                radius as int,
                                step as int,
                                ty,
                                tx,
                                n,
                            ) + angle_votes(
                                x as int,
                                y as int,
                                radius as int,
                                step as int,
                                ty,
                                tx,
                                k as nat,
                            ));
                        }
                    }
                    k += 1;
                }
            }
            x += 1;
        }
        assert((y + 1) * width == y * width + width) by (nonlinear_arith);
        y += 1;
    }
    proof {
        assert forall|ty: int, tx: int| votes.inside(ty, tx) implies 0 <= #[trigger] votes.at(ty, tx)
            <= RING_MAX by {
            lemma_pixel_votes_bound(
                *mask,
                radius as int,
                step as int,
                ty,
                tx,
                (height * width) as nat,
            );
        }
    }
    votes
}

} // verus!
