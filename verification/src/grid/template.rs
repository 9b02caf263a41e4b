//! The binary template of a lattice: a disk at each reference entry.
use vstd::prelude::*;
use crate::error::Error;
use crate::fixed::{div_round, lemma_round_div_bounds, nearest_whole, round_div, round_to_whole, Rotation, COORD_MAX, UNIT};
use crate::grid::disk::{create_disk_coordinates, disk_coordinates};
use crate::grid::lattice::{
    has_regular, lattice_bounds, lattice_bounds_of, layout_within_limits, nominal_position, place,
    LatticeBounds, CENTER_MAX, PITCH_MAX,
};
use crate::plane::Plane;
use crate::types::{LayoutEntry, SIDE_MAX};
use crate::config::RATIO_MAX;

verus! {

/// The nominal positions of the reference entries among the first `n`
/// entries, in the order of the entries.
pub open spec fn reference_scan(
    layout: Seq<LayoutEntry>,
    n: nat,
    bounds: LatticeBounds,
    anchor: (int, int),
    rotation: Rotation,
    pitch: int,
) -> Seq<(i64, i64)>
    decreases n,
{
    if n == 0 {
        Seq::empty()
    } else {
        let before = reference_scan(layout, (n - 1) as nat, bounds, anchor, rotation, pitch);
        let e = layout[n - 1];
        if e.1 {
            let p = nominal_position(e.2 as int, e.3 as int, bounds, anchor, rotation, pitch);
            before.push((p.0 as i64, p.1 as i64))
        } else {
            before
        }
    }
}

/// Where the reference entries of a layout lie when the midpoint of the
/// lattice is put at `midpoint`; `None` for a degenerate layout.
pub fn calculate_grid_coordinates(
    layout: &[LayoutEntry],
    midpoint: (i64, i64),
    spot_pitch: i64,
    rotation: Rotation,
) -> (coords: Option<Vec<(i64, i64)>>)
    requires
        rotation.wf(),
        0 <= spot_pitch <= PITCH_MAX,
        -CENTER_MAX <= midpoint.0 <= CENTER_MAX,
        -CENTER_MAX <= midpoint.1 <= CENTER_MAX,
        layout_within_limits(layout@),
    ensures
        coords.is_some() <==> has_regular(layout@),
        coords matches Some(c) ==> {
            &&& c@ == reference_scan(
                layout@,
                layout@.len(),
                lattice_bounds_of(layout@).unwrap(),
                (midpoint.0 as int, midpoint.1 as int),
                rotation,
                spot_pitch as int,
            )
            &&& forall|i: int|
                0 <= i < c@.len() ==> -COORD_MAX <= (#[trigger] c@[i]).0 <= COORD_MAX && -COORD_MAX
                    <= c@[i].1 <= COORD_MAX
        },
{
    let bounds: LatticeBounds = match lattice_bounds(layout) {
        None => {
            return None;
        },
        Some(b) => b,
    };
    let mut coords: Vec<(i64, i64)> = Vec::new();
    let ghost anchor = (midpoint.0 as int, midpoint.1 as int);
    let mut i: usize = 0;
    while i < layout.len()
        invariant
            i <= layout@.len(),
            rotation.wf(),
            0 <= spot_pitch <= PITCH_MAX,
            -CENTER_MAX <= midpoint.0 <= CENTER_MAX,
            -CENTER_MAX <= midpoint.1 <= CENTER_MAX,
            anchor == (midpoint.0 as int, midpoint.1 as int),
            layout_within_limits(layout@),
            bounds.within_limits(),
            coords@ == reference_scan(layout@, i as nat, bounds, anchor, rotation, spot_pitch as int),
            forall|k: int|
                0 <= k < coords@.len() ==> -COORD_MAX <= (#[trigger] coords@[k]).0 <= COORD_MAX
                    && -COORD_MAX <= coords@[k].1 <= COORD_MAX,
        decreases layout@.len() - i,
    {
        if layout[i].1 {
            let p: (i64, i64) = place(layout[i].2, layout[i].3, &bounds, midpoint, rotation, spot_pitch);
            coords.push(p);
        }
        i += 1;
    }
    Some(coords)
}

/// Whether the disk offset `b`, put at the pixel nearest to the mark `a`,
/// falls on the pixel of column `x` and row `y`. The first coordinate of a
/// mark counts columns.
pub open spec fn hits(
    marks: Seq<(i64, i64)>,
    disk: Seq<(i32, i32)>,
    a: int,
    b: int,
    y: int,
    x: int,
) -> bool {
    &&& 0 <= a < marks.len()
    &&& 0 <= b < disk.len()
    &&& nearest_whole(marks[a].0 as int) + disk[b].0 == x
    &&& nearest_whole(marks[a].1 as int) + disk[b].1 == y
}

/// Whether the pixel is hit by a disk offset that comes before offset `j` of
/// mark `i`, going through the marks and, for each, through the offsets.
pub open spec fn stamped_before(
    marks: Seq<(i64, i64)>,
    disk: Seq<(i32, i32)>,
    i: int,
    j: int,
    y: int,
    x: int,
) -> bool {
    exists|a: int, b: int| (a < i || (a == i && b < j)) && #[trigger] hits(marks, disk, a, b, y, x)
}

/// Whether the pixel lies in the disk of some mark.
pub open spec fn stamped(marks: Seq<(i64, i64)>, disk: Seq<(i32, i32)>, y: int, x: int) -> bool {
    stamped_before(marks, disk, marks.len() as int, 0, y, x)
}

/// A raster in which exactly the pixels in the disk of some mark are set.
pub fn stamp_disks(
    height: usize,
    width: usize,
    marks: &Vec<(i64, i64)>,
    disk: &Vec<(i32, i32)>,
) -> (t: Plane<bool>)
    requires
        height * width <= usize::MAX,
    ensures
        t.wf(),
        t.height == height,
        t.width == width,
        forall|y: int, x: int| t.inside(y, x) ==> #[trigger] t.at(y, x) == stamped(marks@, disk@, y, x),
{
    let mut t: Plane<bool> = Plane::filled(height, width, false);
    let mut i: usize = 0;
    while i < marks.len()
        invariant
            i <= marks@.len(),
            t.wf(),
            t.height == height,
            t.width == width,
            forall|y: int, x: int|
                t.inside(y, x) ==> #[trigger] t.at(y, x) == stamped_before(
                    marks@,
                    disk@,
                    i as int,
                    0,
                    y,
                    x,
                ),
        decreases marks@.len() - i,
    {
        let cx: i64 = round_to_whole(marks[i].0);
        let cy: i64 = round_to_whole(marks[i].1);
        let mut j: usize = 0;
        while j < disk.len()
            invariant
                i < marks@.len(),
                j <= disk@.len(),
                cx == nearest_whole(marks@[i as int].0 as int),
                cy == nearest_whole(marks@[i as int].1 as int),
                t.wf(),
                t.height == height,
                t.width == width,
                forall|y: int, x: int|
                    t.inside(y, x) ==> #[trigger] t.at(y, x) == stamped_before(
                        marks@,
                        disk@,
                        i as int,
                        j as int,
                        y,
                        x,
                    ),
            decreases disk@.len() - j,
        {
            let x: i128 = cx as i128 + disk[j].0 as i128;
            let y: i128 = cy as i128 + disk[j].1 as i128;
            let ghost before = t;
            if x >= 0 && x < width as i128 && y >= 0 && y < height as i128 {
                t.set(y as usize, x as usize, true);
            }
            proof {
                assert forall|v: int, u: int| t.inside(v, u) implies #[trigger] t.at(v, u)
                    == stamped_before(marks@, disk@, i as int, j + 1, v, u) by {
                    let was = stamped_before(marks@, disk@, i as int, j as int, v, u);
                    let now = stamped_before(marks@, disk@, i as int, j + 1, v, u);
                    let hit = hits(marks@, disk@, i as int, j as int, v, u);
                    assert(before.at(v, u) == was);
                    assert(hit <==> (v == y && u == x));
                    if was {
                        let (a, b) = choose|a: int, b: int|
                            (a < i || (a == i && b < j)) && #[trigger] hits(marks@, disk@, a, b, v, u);
                        assert(hits(marks@, disk@, a, b, v, u) && (a < i || (a == i && b < j + 1)));
                    }
                    if hit {
                        assert(hits(marks@, disk@, i as int, j as int, v, u) && (i < i || (i == i
                            && j < j + 1)));
                    }
                    if now {
                        let (a, b) = choose|a: int, b: int|
                            (a < i || (a == i && b < j + 1)) && #[trigger] hits(
                                marks@,
                                disk@,
                                a,
                                b,
                                v,
                                u,
                            );
                        if a == i && b == j {
                            assert(hit);
                        } else {
                            assert(hits(marks@, disk@, a, b, v, u) && (a < i || (a == i && b < j)));
                            assert(was);
                        }
                    }
                }
            }
            j += 1;
        }
        proof {
            assert forall|v: int, u: int| t.inside(v, u) implies #[trigger] t.at(v, u)
                == stamped_before(marks@, disk@, i + 1, 0, v, u) by {
                let was = stamped_before(marks@, disk@, i as int, disk@.len() as int, v, u);
                let now = stamped_before(marks@, disk@, i + 1, 0, v, u);
                if was {
                    let (a, b) = choose|a: int, b: int|
                        (a < i || (a == i && b < disk@.len())) && #[trigger] hits(
                            marks@,
                            disk@,
                            a,
                            b,
                            v,
                            u,
                        );
                    assert(hits(marks@, disk@, a, b, v, u) && (a < i + 1 || (a == i + 1 && b < 0)));
                }
                if now {
                    let (a, b) = choose|a: int, b: int|
                        (a < i + 1 || (a == i + 1 && b < 0)) && #[trigger] hits(
                            marks@,
                            disk@,
                            a,
                            b,
                            v,
                            u,
                        );
                    assert(hits(marks@, disk@, a, b, v, u) && (a < i || (a == i && b < disk@.len())));
                }
            }
        }
        i += 1;
    }
    t
}

/// Where the midpoint of the lattice is put in a template of `height` rows and
/// `width` columns: at half the width and half the height, each rounded to a
/// whole pixel.
pub open spec fn template_anchor(height: int, width: int) -> (int, int) {
    (((width + 1) / 2) * UNIT, ((height + 1) / 2) * UNIT)
}

/// The radius, in pixels, of the disk that stands for a spot: half the spot
/// size, rounded.
pub open spec fn template_radius(spot_size: int) -> int {
    if spot_size <= 0 {
        0
    } else {
        round_div(spot_size, 2 * UNIT)
    }
}

/// The marks of a template: the nominal positions of the reference entries.
pub open spec fn template_marks(
    layout: Seq<LayoutEntry>,
    height: int,
    width: int,
    pitch: int,
    rotation: Rotation,
) -> Seq<(i64, i64)> {
    reference_scan(
        layout,
        layout.len(),
        lattice_bounds_of(layout).unwrap(),
        template_anchor(height, width),
        rotation,
        pitch,
    )
}

/// Whether `t` is the template of the layout for a frame of its size: set
/// exactly in the disks about the reference entries.
pub open spec fn is_template(
    t: Plane<bool>,
    layout: Seq<LayoutEntry>,
    spot_size: int,
    pitch: int,
    rotation: Rotation,
) -> bool {
    &&& t.wf()
    &&& forall|y: int, x: int|
        t.inside(y, x) ==> #[trigger] t.at(y, x) == stamped(
            template_marks(layout, t.height as int, t.width as int, pitch, rotation),
            disk_coordinates(template_radius(spot_size)),
            y,
            x,
        )
}

/// The binary template of a layout for a frame of the size `image_size`
/// (rows, then columns). A degenerate layout has no midpoint and so no
/// template.
pub fn make_template(
    image_size: (usize, usize),
    layout: &[LayoutEntry],
    spot_size: i64,
    spot_pitch: i64,
    rotation: Rotation,
) -> (res: Result<Plane<bool>, Error>)
    requires
        image_size.0 <= SIDE_MAX,
        image_size.1 <= SIDE_MAX,
        image_size.0 * image_size.1 <= usize::MAX,
        rotation.wf(),
        0 <= spot_pitch <= PITCH_MAX,
        -RATIO_MAX <= spot_size <= RATIO_MAX,
        layout_within_limits(layout@),
    ensures
        res.is_ok() <==> has_regular(layout@),
        res matches Err(e) ==> e matches Error::GridDetectionFailed(_),
        res matches Ok(t) ==> t.height == image_size.0 && t.width == image_size.1 && is_template(
            t,
            layout@,
            spot_size as int,
            spot_pitch as int,
            rotation,
        ),
{
    let (height, width) = image_size;
    let midpoint: (i64, i64) = (((width as i64 + 1) / 2) * UNIT, ((height as i64 + 1) / 2) * UNIT);
    let radius: usize = if spot_size <= 0 {
        0
    } else {
        proof {
            lemma_round_div_bounds(spot_size as int, 2 * UNIT);
        }
        let r: i128 = div_round(spot_size as i128, 2 * (UNIT as i128));
        r as usize
    };
    let marks = match calculate_grid_coordinates(layout, midpoint, spot_pitch, rotation) {
        None => {
            return Err(
                Error::GridDetectionFailed(
                    "the layout has no regular spot to take the midpoint from".to_string(),
                ),
            );
        },
        Some(m) => m,
    };
    let disk = create_disk_coordinates(radius);
    let t = stamp_disks(height, width, &marks, &disk);
    Ok(t)
}

} // verus!
