//! From a layout to the nominal positions of its spots.
use vstd::prelude::*;
use crate::fixed::{
    div_round, lemma_product_bound, lemma_round_div_bounds, magnitude, round_div, rotated, Rotation, COORD_MAX,
};
use crate::grid::turn::rotate_point;
use crate::types::{LayoutEntry, Spot};

verus! {

/// Largest magnitude of a row or column index of a layout entry.
pub const INDEX_MAX: i32 = 1_000_000;

/// Largest spot pitch, in millionths of a pixel.
pub const PITCH_MAX: i64 = 10_000_000_000;

/// Largest magnitude of a coordinate of the lattice centre, in millionths of a
/// pixel.
pub const CENTER_MAX: i64 = 10_000_000_000_000_000;

/// Whether an entry counts for the midpoint of the lattice: it is no
/// reference and both its indices are positive.
pub open spec fn is_regular(entry: LayoutEntry) -> bool {
    !entry.1 && entry.2 > 0 && entry.3 > 0
}

/// Whether any of the first `n` entries counts for the midpoint.
pub open spec fn has_regular_before(layout: Seq<LayoutEntry>, n: int) -> bool {
    exists|i: int| 0 <= i < n && i < layout.len() && is_regular(#[trigger] layout[i])
}

/// Whether the layout has an entry that counts for the midpoint. A layout
/// without one is degenerate: it has no midpoint.
pub open spec fn has_regular(layout: Seq<LayoutEntry>) -> bool {
    has_regular_before(layout, layout.len() as int)
}

/// Whether every index of the layout is small enough to compute with.
pub open spec fn layout_within_limits(layout: Seq<LayoutEntry>) -> bool {
    forall|i: int|
        0 <= i < layout.len() ==> {
            &&& -INDEX_MAX <= (#[trigger] layout[i]).2 <= INDEX_MAX
            &&& -INDEX_MAX <= layout[i].3 <= INDEX_MAX
        }
}

/// Whether every index of the layout is small enough to compute with.
pub fn layout_fits(layout: &[LayoutEntry]) -> (ok: bool)
    ensures
        ok == layout_within_limits(layout@),
{
    let mut i: usize = 0;
    while i < layout.len()
        invariant
            i <= layout@.len(),
            forall|k: int|
                0 <= k < i ==> {
                    &&& -INDEX_MAX <= (#[trigger] layout@[k]).2 <= INDEX_MAX
                    &&& -INDEX_MAX <= layout@[k].3 <= INDEX_MAX
                },
        decreases layout@.len() - i,
    {
        let row: i32 = layout[i].2;
        let col: i32 = layout[i].3;
        if !(-INDEX_MAX <= row && row <= INDEX_MAX && -INDEX_MAX <= col && col <= INDEX_MAX) {
            return false;
        }
        i += 1;
    }
    true
}

/// The smallest and largest row and column among the entries that count for
/// the midpoint.
#[derive(Clone, Copy, Debug, PartialEq, Eq, Structural)]
pub struct LatticeBounds {
    pub row_min: i32,
    pub row_max: i32,
    pub col_min: i32,
    pub col_max: i32,
}

impl LatticeBounds {
    /// No regular entry among the first `n` lies outside the bounds.
    pub open spec fn encloses(&self, layout: Seq<LayoutEntry>, n: int) -> bool {
        forall|i: int|
            0 <= i < n && i < layout.len() && is_regular(#[trigger] layout[i]) ==> {
                &&& self.row_min <= layout[i].2 <= self.row_max
                &&& self.col_min <= layout[i].3 <= self.col_max
            }
    }

    /// Each bound is the index of a regular entry among the first `n`.
    pub open spec fn attained(&self, layout: Seq<LayoutEntry>, n: int) -> bool {
        &&& exists|i: int|
            0 <= i < n && i < layout.len() && is_regular(#[trigger] layout[i]) && layout[i].2
                == self.row_min
        &&& exists|i: int|
            0 <= i < n && i < layout.len() && is_regular(#[trigger] layout[i]) && layout[i].2
                == self.row_max
        &&& exists|i: int|
            0 <= i < n && i < layout.len() && is_regular(#[trigger] layout[i]) && layout[i].3
                == self.col_min
        &&& exists|i: int|
            0 <= i < n && i < layout.len() && is_regular(#[trigger] layout[i]) && layout[i].3
                == self.col_max
    }

    pub open spec fn is_bounds_of(&self, layout: Seq<LayoutEntry>) -> bool {
        self.encloses(layout, layout.len() as int) && self.attained(layout, layout.len() as int)
    }

    pub open spec fn within_limits(&self) -> bool {
        &&& 0 < self.row_min <= self.row_max <= INDEX_MAX
        &&& 0 < self.col_min <= self.col_max <= INDEX_MAX
    }

    /// Twice the row of the midpoint, which is `row_min + (row_max - row_min) / 2`.
    pub open spec fn twice_mid_row(&self) -> int {
        self.row_min + self.row_max
    }

    /// Twice the column of the midpoint.
    pub open spec fn twice_mid_col(&self) -> int {
        self.col_min + self.col_max
    }
}

/// A layout has at most one set of bounds.
pub proof fn lemma_bounds_unique(layout: Seq<LayoutEntry>, a: LatticeBounds, b: LatticeBounds)
    requires
        a.is_bounds_of(layout),
        b.is_bounds_of(layout),
    ensures
        a == b,
{
}

/// The bounds of a layout, where it has an entry that counts for them.
pub open spec fn lattice_bounds_of(layout: Seq<LayoutEntry>) -> Option<LatticeBounds> {
    if has_regular(layout) {
        Some(choose|b: LatticeBounds| b.is_bounds_of(layout))
    } else {
        None
    }
}

/// The bounds from which the midpoint of the lattice is taken; `None` for a
/// degenerate layout.
pub fn lattice_bounds(layout: &[LayoutEntry]) -> (bounds: Option<LatticeBounds>)
    ensures
        bounds == lattice_bounds_of(layout@),
        bounds.is_some() <==> has_regular(layout@),
        bounds matches Some(b) ==> b.is_bounds_of(layout@),
        bounds matches Some(b) ==> (layout_within_limits(layout@) ==> b.within_limits()),
{
    let mut found: Option<LatticeBounds> = None;
    let mut i: usize = 0;
    while i < layout.len()
        invariant
            i <= layout@.len(),
            found.is_some() <==> has_regular_before(layout@, i as int),
            found matches Some(b) ==> b.encloses(layout@, i as int) && b.attained(layout@, i as int),
        decreases layout@.len() - i,
    {
        let is_ref: bool = layout[i].1;
        let row: i32 = layout[i].2;
        let col: i32 = layout[i].3;
        if !is_ref && row > 0 && col > 0 {
            assert(is_regular(layout@[i as int]));
            found =
            match found {
                None => Some(LatticeBounds { row_min: row, row_max: row, col_min: col, col_max: col }),
                Some(b) => Some(
                    LatticeBounds {
                        row_min: if row < b.row_min {
                            row
                        } else {
                            b.row_min
                        },
                        row_max: if row > b.row_max {
                            row
                        } else {
                            b.row_max
                        },
                        col_min: if col < b.col_min {
                            col
                        } else {
                            b.col_min
                        },
                        col_max: if col > b.col_max {
                            col
                        } else {
                            b.col_max
                        },
                    },
                ),
            };
        }
        i += 1;
    }
    proof {
        if let Some(b) = found {
            lemma_bounds_unique(layout@, b, choose|c: LatticeBounds| c.is_bounds_of(layout@));
            if layout_within_limits(layout@) {
                assert(b.within_limits());
            }
        }
    }
    found
}

/// How far along one axis an entry with the index `index` lies from the
/// midpoint of a lattice whose regular indices run from `low` to `high`:
/// `pitch * (|index| - (low + (high - low) / 2))`.
pub open spec fn axis_offset(index: int, low: int, high: int, pitch: int) -> int {
    round_div(pitch * (2 * magnitude(index) - (low + high)), 2)
}

/// Where an entry with the indices `row` and `col` lies: its offsets from the
/// midpoint, turned by `rotation` and moved to `center`. The first
/// coordinate goes with the row.
pub open spec fn nominal_position(
    row: int,
    col: int,
    bounds: LatticeBounds,
    center: (int, int),
    rotation: Rotation,
    pitch: int,
) -> (int, int) {
    let turned = rotated(
        axis_offset(row, bounds.row_min as int, bounds.row_max as int, pitch),
        axis_offset(col, bounds.col_min as int, bounds.col_max as int, pitch),
        rotation,
    );
    (center.0 + turned.0, center.1 + turned.1)
}

fn offset_along(index: i32, low: i32, high: i32, pitch: i64) -> (d: i64)
    requires
        -INDEX_MAX <= index <= INDEX_MAX,
        0 < low <= high <= INDEX_MAX,
        0 <= pitch <= PITCH_MAX,
    ensures
        d == axis_offset(index as int, low as int, high as int, pitch as int),
        magnitude(d as int) <= 40_000_000_000_000_000,
{
    let m: i64 = if index < 0 {
        -(index as i64)
    } else {
        index as i64
    };
    let k: i64 = 2 * m - (low as i64 + high as i64);
    proof {
        lemma_product_bound(pitch as int, 10_000_000_000, k as int, 4_000_000);
        lemma_round_div_bounds(pitch * k, 2);
    }
    let d: i128 = div_round((pitch as i128) * (k as i128), 2);
    d as i64
}

pub(crate) fn place(
    row: i32,
    col: i32,
    bounds: &LatticeBounds,
    center: (i64, i64),
    rotation: Rotation,
    pitch: i64,
) -> (p: (i64, i64))
    requires
        -INDEX_MAX <= row <= INDEX_MAX,
        -INDEX_MAX <= col <= INDEX_MAX,
        bounds.within_limits(),
        rotation.wf(),
        0 <= pitch <= PITCH_MAX,
        -CENTER_MAX <= center.0 <= CENTER_MAX,
        -CENTER_MAX <= center.1 <= CENTER_MAX,
    ensures
        (p.0 as int, p.1 as int) == nominal_position(
            row as int,
            col as int,
            *bounds,
            (center.0 as int, center.1 as int),
            rotation,
            pitch as int,
        ),
        -COORD_MAX <= p.0 <= COORD_MAX,
        -COORD_MAX <= p.1 <= COORD_MAX,
{
    let dx: i64 = offset_along(row, bounds.row_min, bounds.row_max, pitch);
    let dy: i64 = offset_along(col, bounds.col_min, bounds.col_max, pitch);
    let turned: (i64, i64) = rotate_point(dx, dy, rotation);
    (center.0 + turned.0, center.1 + turned.1)
}

/// The spot that an entry gives before anything is measured: its nominal
/// position, no diameter, no flag set.
pub open spec fn nominal_spot(
    entry: LayoutEntry,
    bounds: LatticeBounds,
    center: (int, int),
    rotation: Rotation,
    pitch: int,
) -> Spot {
    let p = nominal_position(entry.2 as int, entry.3 as int, bounds, center, rotation, pitch);
    Spot {
        id: entry.0,
        row: entry.2,
        col: entry.3,
        is_reference: entry.1,
        x_offset: 0,
        y_offset: 0,
        x_fixed: 0,
        y_fixed: 0,
        grid_x: p.0 as i64,
        grid_y: p.1 as i64,
        diameter: 0,
        is_manual: false,
        is_bad: false,
        is_empty: false,
        rotation: rotation.degrees,
    }
}

/// The spots of a layout at their nominal positions, one for each entry and
/// in the order of the entries. A degenerate layout has no midpoint and
/// gives no spots.
pub fn generate_grid_coordinates(
    center: (i64, i64),
    rotation: Rotation,
    spot_pitch: i64,
    layout: &[LayoutEntry],
) -> (spots: Vec<Spot>)
    requires
        rotation.wf(),
        0 <= spot_pitch <= PITCH_MAX,
        -CENTER_MAX <= center.0 <= CENTER_MAX,
        -CENTER_MAX <= center.1 <= CENTER_MAX,
        layout_within_limits(layout@),
    ensures
        !has_regular(layout@) ==> spots@.len() == 0,
        has_regular(layout@) ==> spots@.len() == layout@.len(),
        forall|i: int|
            0 <= i < spots@.len() ==> #[trigger] spots@[i] == nominal_spot(
                layout@[i],
                lattice_bounds_of(layout@).unwrap(),
                (center.0 as int, center.1 as int),
                rotation,
                spot_pitch as int,
            ),
        forall|i: int| 0 <= i < spots@.len() ==> (#[trigger] spots@[i]).wf(),
{
    let mut spots: Vec<Spot> = Vec::new();
    let bounds: LatticeBounds = match lattice_bounds(layout) {
        None => {
            return spots;
        },
        Some(b) => b,
    };
    let mut i: usize = 0;
    while i < layout.len()
        invariant
            i <= layout@.len(),
            spots@.len() == i,
            rotation.wf(),
            0 <= spot_pitch <= PITCH_MAX,
            -CENTER_MAX <= center.0 <= CENTER_MAX,
            -CENTER_MAX <= center.1 <= CENTER_MAX,
            layout_within_limits(layout@),
            bounds.within_limits(),
            lattice_bounds_of(layout@) == Some(bounds),
            forall|k: int|
                0 <= k < i ==> #[trigger] spots@[k] == nominal_spot(
                    layout@[k],
                    bounds,
                    (center.0 as int, center.1 as int),
                    rotation,
                    spot_pitch as int,
                ),
            forall|k: int| 0 <= k < i ==> (#[trigger] spots@[k]).wf(),
        decreases layout@.len() - i,
    {
        let row: i32 = layout[i].2;
        let col: i32 = layout[i].3;
        let p: (i64, i64) = place(row, col, &bounds, center, rotation, spot_pitch);
        let spot = Spot {
            id: layout[i].0.clone(),
            row,
            col,
            is_reference: layout[i].1,
            x_offset: 0,
            y_offset: 0,
            x_fixed: 0,
            y_fixed: 0,
            grid_x: p.0,
            grid_y: p.1,
            diameter: 0,
            is_manual: false,
            is_bad: false,
            is_empty: false,
            rotation: rotation.degrees,
        };
        spots.push(spot);
        i += 1;
    }
    spots
}

} // verus!
