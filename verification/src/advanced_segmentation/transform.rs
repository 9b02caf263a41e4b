//! Votes over centre and radius, and the choice of the best circles.
use vstd::prelude::*;
use crate::fixed::{lemma_product_bound, UNIT};
use crate::plane::Plane;
use crate::segmentation::hough::MIN_VOTES;
use crate::segmentation::votes::{ring_plane, ring_votes, RADIUS_MAX, RING_MAX};
use crate::types::SIDE_MAX;

verus! {

/// A circle with the votes that it got: centre and radius in millionths of a
/// pixel.
#[derive(Debug, Clone, Copy, PartialEq, Eq, Structural)]
pub struct Circle {
    pub x: i64,
    pub y: i64,
    pub radius: i64,
    pub votes: usize,
}

/// Most circles that the choice keeps.
pub const MAX_CANDIDATES: usize = 3;

/// A place in the votes: row and column of the centre, and the radius as its
/// distance from the smallest radius.
pub type Bin = (usize, usize, usize);

/// The votes of a bin: those of its centre for circles of its radius, from
/// the edge pixels, at angles fifteen degrees apart.
pub open spec fn bin_votes(edges: Plane<bool>, min_radius: int, bin: Bin) -> int {
    ring_votes(edges, min_radius + bin.2, 15, bin.0 as int, bin.1 as int)
}

/// Whether a bin lies in the votes for a raster of the size of `edges` and
/// the radii `min_radius ..= max_radius`.
pub open spec fn is_bin(edges: Plane<bool>, min_radius: int, max_radius: int, bin: Bin) -> bool {
    edges.inside(bin.0 as int, bin.1 as int) && min_radius + bin.2 <= max_radius
}

/// Whether the bin `a` comes before the bin `b` when the votes are read by
/// rows, columns and radii.
pub open spec fn read_before(a: Bin, b: Bin) -> bool {
    a.0 < b.0 || (a.0 == b.0 && (a.1 < b.1 || (a.1 == b.1 && a.2 < b.2)))
}

/// Whether the circles of two bins overlap: their centres are closer than
/// the mean of their radii.
pub open spec fn overlapping(a: Bin, b: Bin, min_radius: int) -> bool {
    4 * ((a.0 - b.0) * (a.0 - b.0) + (a.1 - b.1) * (a.1 - b.1)) < (2 * min_radius + a.2 + b.2) * (2
        * min_radius + a.2 + b.2)
}

/// Whether a bin can still be chosen after `chosen`: it has ten votes or
/// more, it is none of the chosen, and its circle overlaps none of theirs.
pub open spec fn is_eligible(
    edges: Plane<bool>,
    min_radius: int,
    max_radius: int,
    chosen: Seq<Bin>,
    bin: Bin,
) -> bool {
    &&& is_bin(edges, min_radius, max_radius, bin)
    &&& bin_votes(edges, min_radius, bin) >= MIN_VOTES
    &&& forall|i: int|
        0 <= i < chosen.len() ==> bin != #[trigger] chosen[i] && !overlapping(
            bin,
            chosen[i],
            min_radius,
        )
}

/// Whether `bin` is the next to be chosen after `chosen`: it is eligible, and
/// no eligible bin has more votes, or as many and is read before it.
pub open spec fn is_next_choice(
    edges: Plane<bool>,
    min_radius: int,
    max_radius: int,
    chosen: Seq<Bin>,
    bin: Bin,
) -> bool {
    &&& is_eligible(edges, min_radius, max_radius, chosen, bin)
    &&& forall|other: Bin| #[trigger]
        is_eligible(edges, min_radius, max_radius, chosen, other) ==> {
            &&& bin_votes(edges, min_radius, other) <= bin_votes(edges, min_radius, bin)
            &&& read_before(other, bin) ==> bin_votes(edges, min_radius, other) < bin_votes(
                edges,
                min_radius,
                bin,
            )
        }
}

/// Whether `bins` are the bins that the choice keeps, in the order in which
/// they are chosen: each is the next choice after those before it, and the
/// choice ends after three bins or when no bin is eligible.
pub open spec fn is_choice(edges: Plane<bool>, min_radius: int, max_radius: int, bins: Seq<Bin>) -> bool {
    &&& bins.len() <= MAX_CANDIDATES
    &&& forall|k: int|
        0 <= k < bins.len() ==> is_next_choice(
            edges,
            min_radius,
            max_radius,
            bins.subrange(0, k),
            #[trigger] bins[k],
        )
    &&& bins.len() < MAX_CANDIDATES ==> forall|other: Bin|
        !#[trigger] is_eligible(edges, min_radius, max_radius, bins, other)
}

/// The circle of a bin.
pub open spec fn circle_of(edges: Plane<bool>, min_radius: int, bin: Bin) -> Circle {
    Circle {
        x: (bin.1 * UNIT) as i64,
        y: (bin.0 * UNIT) as i64,
        radius: ((min_radius + bin.2) * UNIT) as i64,
        votes: bin_votes(edges, min_radius, bin) as usize,
    }
}

fn overlaps(a: Bin, b: Bin, min_radius: usize) -> (hit: bool)
    requires
        a.0 <= SIDE_MAX && a.1 <= SIDE_MAX && a.2 <= RADIUS_MAX,
        b.0 <= SIDE_MAX && b.1 <= SIDE_MAX && b.2 <= RADIUS_MAX,
        min_radius <= RADIUS_MAX,
    ensures
        hit == overlapping(a, b, min_radius as int),
{
    let dy: i64 = a.0 as i64 - b.0 as i64;
    let dx: i64 = a.1 as i64 - b.1 as i64;
    let reach: i64 = 2 * (min_radius as i64) + a.2 as i64 + b.2 as i64;
    proof {
        lemma_product_bound(dy as int, 1_000_000, dy as int, 1_000_000);
        lemma_product_bound(dx as int, 1_000_000, dx as int, 1_000_000);
        lemma_product_bound(reach as int, 400_000, reach as int, 400_000);
    }
    4 * (dy * dy + dx * dx) < reach * reach
}

fn clear_of(chosen: &Vec<Bin>, bin: Bin, min_radius: usize) -> (clear: bool)
    requires
        bin.0 <= SIDE_MAX && bin.1 <= SIDE_MAX && bin.2 <= RADIUS_MAX,
        min_radius <= RADIUS_MAX,
        forall|i: int|
            0 <= i < chosen@.len() ==> (#[trigger] chosen@[i]).0 <= SIDE_MAX && chosen@[i].1
                <= SIDE_MAX && chosen@[i].2 <= RADIUS_MAX,
    ensures
        clear == (forall|i: int|
            0 <= i < chosen@.len() ==> bin != #[trigger] chosen@[i] && !overlapping(
                bin,
                chosen@[i],
                min_radius as int,
            )),
{
    let mut i: usize = 0;
    while i < chosen.len()
        invariant
            i <= chosen@.len(),
            bin.0 <= SIDE_MAX && bin.1 <= SIDE_MAX && bin.2 <= RADIUS_MAX,
            min_radius <= RADIUS_MAX,
            forall|k: int|
                0 <= k < chosen@.len() ==> (#[trigger] chosen@[k]).0 <= SIDE_MAX && chosen@[k].1
                    <= SIDE_MAX && chosen@[k].2 <= RADIUS_MAX,
            forall|k: int|
                0 <= k < i ==> bin != #[trigger] chosen@[k] && !overlapping(
                    bin,
                    chosen@[k],
                    min_radius as int,
                ),
        decreases chosen@.len() - i,
    {
        let c: Bin = chosen[i];
        if (c.0 == bin.0 && c.1 == bin.1 && c.2 == bin.2) || overlaps(bin, c, min_radius) {
            return false;
        }
        i += 1;
    }
    true
}

/// The votes of every bin: one raster for each radius.
fn all_rings(edges: &Plane<bool>, min_radius: usize, max_radius: usize) -> (rings: Vec<Plane<i64>>)
    requires
        edges.wf(),
        edges.height <= SIDE_MAX,
        edges.width <= SIDE_MAX,
        min_radius <= max_radius <= RADIUS_MAX,
    ensures
        rings@.len() == max_radius - min_radius + 1,
        forall|k: int|
            0 <= k < rings@.len() ==> {
                &&& (#[trigger] rings@[k]).wf()
                &&& rings@[k].height == edges.height
                &&& rings@[k].width == edges.width
                &&& rings@[k].between(0, RING_MAX as int)
                &&& forall|y: int, x: int|
                    edges.inside(y, x) ==> #[trigger] rings@[k].at(y, x) == ring_votes(
                        *edges,
                        min_radius + k,
                        15,
                        y,
                        x,
                    )
            },
{
    let mut rings: Vec<Plane<i64>> = Vec::new();
    let mut radius: usize = min_radius;
    while radius <= max_radius
        invariant
            edges.wf(),
            edges.height <= SIDE_MAX,
            edges.width <= SIDE_MAX,
            min_radius <= radius <= max_radius + 1,
            max_radius <= RADIUS_MAX,
            rings@.len() == radius - min_radius,
            forall|k: int|
                0 <= k < rings@.len() ==> {
                    &&& (#[trigger] rings@[k]).wf()
                    &&& rings@[k].height == edges.height
                    &&& rings@[k].width == edges.width
                    &&& rings@[k].between(0, RING_MAX as int)
                    &&& forall|y: int, x: int|
                        edges.inside(y, x) ==> #[trigger] rings@[k].at(y, x) == ring_votes(
                            *edges,
                            min_radius + k,
                            15,
                            y,
                            x,
                        )
                },
        decreases max_radius + 1 - radius,
    {
        let ring = ring_plane(edges, radius, 15);
        rings.push(ring);
        radius += 1;
    }
    rings
}

/// The next bin to be chosen after `chosen`, if a bin is eligible.
#[verifier::loop_isolation(false)]
fn next_choice(
    edges: &Plane<bool>,
    rings: &Vec<Plane<i64>>,
    min_radius: usize,
    max_radius: usize,
    chosen: &Vec<Bin>,
) -> (next: Option<(Bin, i64)>)
    requires
        edges.wf(),
        edges.height <= SIDE_MAX,
        edges.width <= SIDE_MAX,
        min_radius <= max_radius <= RADIUS_MAX,
        rings@.len() == max_radius - min_radius + 1,
        forall|k: int|
            0 <= k < rings@.len() ==> {
                &&& (#[trigger] rings@[k]).wf()
                &&& rings@[k].height == edges.height
                &&& rings@[k].width == edges.width
                &&& rings@[k].between(0, RING_MAX as int)
                &&& forall|y: int, x: int|
                    edges.inside(y, x) ==> #[trigger] rings@[k].at(y, x) == ring_votes(
                        *edges,
                        min_radius + k,
                        15,
                        y,
                        x,
                    )
            },
        forall|i: int|
            0 <= i < chosen@.len() ==> (#[trigger] chosen@[i]).0 <= SIDE_MAX && chosen@[i].1
                <= SIDE_MAX && chosen@[i].2 <= RADIUS_MAX,
    ensures
        match next {
            Some((bin, votes)) => is_next_choice(
                *edges,
                min_radius as int,
                max_radius as int,
                chosen@,
                bin,
            ) && votes == bin_votes(*edges, min_radius as int, bin) && MIN_VOTES <= votes
                <= RING_MAX,
            None => forall|other: Bin|
                !#[trigger] is_eligible(*edges, min_radius as int, max_radius as int, chosen@, other),
        },
{
    let height: usize = edges.height;
    let width: usize = edges.width;
    let count: usize = max_radius - min_radius + 1;
    let mut best: Option<(Bin, i64)> = None;
    let mut y: usize = 0;
    while y < height
        invariant
            y <= height,
            sought(*edges, min_radius as int, max_radius as int, chosen@, best, (y, 0, 0)),
        decreases height - y,
    {
        let mut x: usize = 0;
        while x < width
            invariant
                y < height,
                x <= width,
                sought(*edges, min_radius as int, max_radius as int, chosen@, best, (y, x, 0)),
            decreases width - x,
        {
            let mut k: usize = 0;
            while k < count
                invariant
                    y < height,
                    x < width,
                    k <= count,
                    sought(*edges, min_radius as int, max_radius as int, chosen@, best, (y, x, k)),
                decreases count - k,
            {
                assert(rings@[k as int].wf());
                assert(rings@[k as int].inside(y as int, x as int));
                let votes: i64 = rings[k].get(y, x);
                assert(0 <= votes <= RING_MAX);
                let bin: Bin = (y, x, k);
                assert(votes == bin_votes(*edges, min_radius as int, bin));
                let beats: bool = match best {
                    None => true,
                    Some((_, most)) => votes > most,
                };
                if votes >= MIN_VOTES && beats {
                    if clear_of(chosen, bin, min_radius) {
                        assert(is_eligible(
                            *edges,
                            min_radius as int,
                            max_radius as int,
                            chosen@,
                            bin,
                        ));
                        best = Some((bin, votes));
                    }
                }
                k += 1;
            }
            x += 1;
        }
        y += 1;
    }
    proof {
        assert forall|other: Bin| #[trigger]
            is_eligible(
                *edges,
                min_radius as int,
                max_radius as int,
                chosen@,
                other,
            ) implies read_before(other, (height, 0, 0)) by {}
    }
    best
}

/// The state of the search for the next choice when the bins before `upto`
/// have been read: `best` is the eligible bin among them with the most votes,
/// the first of several.
spec fn sought(
    edges: Plane<bool>,
    min_radius: int,
    max_radius: int,
    chosen: Seq<Bin>,
    best: Option<(Bin, i64)>,
    upto: Bin,
) -> bool {
    match best {
        Some((bin, votes)) => {
            &&& is_eligible(edges, min_radius, max_radius, chosen, bin)
            &&& votes == bin_votes(edges, min_radius, bin)
            &&& MIN_VOTES <= votes <= RING_MAX
            &&& read_before(bin, upto)
            &&& forall|other: Bin|
                #[trigger] is_eligible(edges, min_radius, max_radius, chosen, other) && read_before(
                    other,
                    upto,
                ) ==> {
                    &&& bin_votes(edges, min_radius, other) <= votes
                    &&& read_before(other, bin) ==> bin_votes(edges, min_radius, other) < votes
                }
        },
        None => forall|other: Bin|
            #[trigger] is_eligible(edges, min_radius, max_radius, chosen, other) ==> !read_before(
                other,
                upto,
            ),
    }
}

/// Whether `circles` are the circles of the bins `bins`.
pub open spec fn are_circles_of(
    circles: Seq<Circle>,
    edges: Plane<bool>,
    min_radius: int,
    bins: Seq<Bin>,
) -> bool {
    &&& circles.len() == bins.len()
    &&& forall|k: int|
        0 <= k < bins.len() ==> #[trigger] circles[k] == circle_of(edges, min_radius, bins[k])
}

/// Finds circles in an edge map by votes: every edge pixel votes for the
/// centres of the circles through it, for each radius. Of the circles with
/// ten votes or more, the one with the most votes is kept, then the one with
/// the most votes among those that overlap no kept circle, and so on up to
/// three circles.
pub fn hough_transform(edges: &Plane<bool>, min_radius: usize, max_radius: usize) -> (circles: Vec<
    Circle,
>)
    requires
        edges.wf(),
        edges.height <= SIDE_MAX,
        edges.width <= SIDE_MAX,
        min_radius <= max_radius <= RADIUS_MAX,
    ensures
        exists|bins: Seq<Bin>|
            {
                &&& #[trigger] is_choice(*edges, min_radius as int, max_radius as int, bins)
                &&& are_circles_of(circles@, *edges, min_radius as int, bins)
            },
        forall|k: int|
            0 <= k < circles@.len() ==> {
                &&& 0 <= (#[trigger] circles@[k]).x < edges.width * UNIT
                &&& 0 <= circles@[k].y < edges.height * UNIT
                &&& min_radius * UNIT <= circles@[k].radius <= max_radius * UNIT
            },
{
    let rings = all_rings(edges, min_radius, max_radius);
    let mut chosen: Vec<Bin> = Vec::new();
    let mut circles: Vec<Circle> = Vec::new();
    let mut done: bool = false;
    while chosen.len() < MAX_CANDIDATES && !done
        invariant
            edges.wf(),
            edges.height <= SIDE_MAX,
            edges.width <= SIDE_MAX,
            min_radius <= max_radius <= RADIUS_MAX,
            rings@.len() == max_radius - min_radius + 1,
            forall|k: int|
                0 <= k < rings@.len() ==> {
                    &&& (#[trigger] rings@[k]).wf()
                    &&& rings@[k].height == edges.height
                    &&& rings@[k].width == edges.width
                    &&& rings@[k].between(0, RING_MAX as int)
                    &&& forall|y: int, x: int|
                        edges.inside(y, x) ==> #[trigger] rings@[k].at(y, x) == ring_votes(
                            *edges,
                            min_radius + k,
                            15,
                            y,
                            x,
                        )
                },
            chosen@.len() <= MAX_CANDIDATES,
            forall|k: int|
                0 <= k < chosen@.len() ==> is_next_choice(
                    *edges,
                    min_radius as int,
                    max_radius as int,
                    chosen@.subrange(0, k),
                    #[trigger] chosen@[k],
                ),
            done ==> forall|other: Bin|
                !#[trigger] is_eligible(
                    *edges,
                    min_radius as int,
                    max_radius as int,
                    chosen@,
                    other,
                ),
            are_circles_of(circles@, *edges, min_radius as int, chosen@),
            forall|k: int|
                0 <= k < circles@.len() ==> {
                    &&& 0 <= (#[trigger] circles@[k]).x < edges.width * UNIT
                    &&& 0 <= circles@[k].y < edges.height * UNIT
                    &&& min_radius * UNIT <= circles@[k].radius <= max_radius * UNIT
                },
            forall|i: int|
                0 <= i < chosen@.len() ==> (#[trigger] chosen@[i]).0 <= SIDE_MAX && chosen@[i].1
                    <= SIDE_MAX && chosen@[i].2 <= RADIUS_MAX,
        decreases MAX_CANDIDATES - chosen@.len() + if done { 0int } else { 1int },
    {
        match next_choice(edges, &rings, min_radius, max_radius, &chosen) {
            None => {
                done = true;
            },
            Some((bin, votes)) => {
                let ghost before = chosen@;
                chosen.push(bin);
                circles.push(
                    Circle {
                        x: (bin.1 as i64) * UNIT,
                        y: (bin.0 as i64) * UNIT,
                        radius: ((min_radius + bin.2) as i64) * UNIT,
                        votes: votes as usize,
                    },
                );
                proof {
                    assert forall|k: int| 0 <= k < chosen@.len() implies is_next_choice(
                        *edges,
                        min_radius as int,
                        max_radius as int,
                        chosen@.subrange(0, k),
                        #[trigger] chosen@[k],
                    ) by {
                        if k < before.len() {
                            assert(chosen@.subrange(0, k) =~= before.subrange(0, k));
                            assert(chosen@[k] == before[k]);
                        } else {
                            assert(chosen@.subrange(0, k) =~= before);
                        }
                    }
                }
            },
        }
    }
    proof {
        assert(is_choice(*edges, min_radius as int, max_radius as int, chosen@));
    }
    circles
}

} // verus!
