//! The filled disk that stands for a spot in a template.
use vstd::prelude::*;
use crate::plane::{cell_index, lemma_cell_index};

verus! {

/// Largest radius of the disk that stands for a spot in a template, in pixels.
pub const DISK_RADIUS_MAX: usize = 1_000_000_000;

/// Side of the square that is scanned for the disk of radius `radius`:
/// 2.1 times the radius, rounded up.
pub open spec fn disk_side(radius: int) -> int {
    (21 * radius + 9) / 10
}

/// Whether the cell `(x, y)` of that square lies within `radius` of the
/// square's middle, `disk_side / 2` in both directions.
pub open spec fn in_disk(radius: int, x: int, y: int) -> bool {
    let s = disk_side(radius);
    (2 * x - s) * (2 * x - s) + (2 * y - s) * (2 * y - s) <= 4 * radius * radius
}

/// The disk cells among the first `n` cells of the square, row by row, each
/// as its offset from the cell `(disk_side / 2, disk_side / 2)`.
pub open spec fn disk_scan(radius: int, n: nat) -> Seq<(i32, i32)>
    decreases n,
{
    if n == 0 {
        Seq::empty()
    } else {
        let s = disk_side(radius);
        let y = (n - 1) / s;
        let x = (n - 1) % s;
        let before = disk_scan(radius, (n - 1) as nat);
        if in_disk(radius, x, y) {
            before.push(((x - s / 2) as i32, (y - s / 2) as i32))
        } else {
            before
        }
    }
}

/// The offsets that make up the disk of radius `radius`.
pub open spec fn disk_coordinates(radius: int) -> Seq<(i32, i32)> {
    disk_scan(radius, (disk_side(radius) * disk_side(radius)) as nat)
}

/// The offsets of the pixels of a filled disk, for drawing a spot into a
/// template.
pub fn create_disk_coordinates(radius: usize) -> (coords: Vec<(i32, i32)>)
    requires
        radius <= DISK_RADIUS_MAX,
    ensures
        coords@ == disk_coordinates(radius as int),
{
    let size: usize = ((21 * (radius as u64) + 9) / 10) as usize;
    let half: i32 = (size / 2) as i32;
    assert(4 * radius * radius <= 4_000_000_000_000_000_000) by (nonlinear_arith)
        requires
            0 <= radius <= 1_000_000_000,
    ;
    assert(4 * (radius as u64) * (radius as u64) == 4 * radius * radius) by (nonlinear_arith);
    assert(4 * (radius as u64) <= 4_000_000_000);
    let limit: u64 = 4 * (radius as u64) * (radius as u64);
    let mut coords: Vec<(i32, i32)> = Vec::new();
    assert(disk_scan(radius as int, 0) =~= Seq::empty());
    let mut y: usize = 0;
    while y < size
        invariant
            radius <= DISK_RADIUS_MAX,
            size == disk_side(radius as int),
            half == size / 2,
            limit == 4 * radius * radius,
            y <= size,
            coords@ == disk_scan(radius as int, (y * size) as nat),
        decreases size - y,
    {
        let mut x: usize = 0;
        while x < size
            invariant
                radius <= DISK_RADIUS_MAX,
                size == disk_side(radius as int),
                half == size / 2,
                limit == 4 * radius * radius,
                y < size,
                x <= size,
                coords@ == disk_scan(radius as int, (y * size + x) as nat),
            decreases size - x,
        {
            proof {
                lemma_cell_index(size as int, size as int, y as int, x as int);
                assert(cell_index(size as int, y as int, x as int) == y * size + x);
            }
            let dx: i64 = 2 * (x as i64) - (size as i64);
            let dy: i64 = 2 * (y as i64) - (size as i64);
            assert(dx * dx <= 2_100_000_001 * 2_100_000_001 && dx * dx >= 0) by (nonlinear_arith)
                requires
                    -2_100_000_001 <= dx <= 2_100_000_001,
            ;
            assert(dy * dy <= 2_100_000_001 * 2_100_000_001 && dy * dy >= 0) by (nonlinear_arith)
                requires
                    -2_100_000_001 <= dy <= 2_100_000_001,
            ;
            let dist: u64 = (dx * dx + dy * dy) as u64;
            if dist <= limit {
                coords.push(((x as i32) - half, (y as i32) - half));
            }
            assert(coords@ == disk_scan(radius as int, (y * size + x + 1) as nat));
            x += 1;
        }
        assert((y + 1) * size == y * size + size) by (nonlinear_arith);
        y += 1;
    }
    coords
}

} // verus!
