//! What holds of the nominal positions of a lattice that is not turned.
use vstd::prelude::*;
use crate::fixed::{is_whole, lemma_round_div_exact, magnitude, rotated, Rotation, UNIT};
use crate::grid::lattice::{axis_offset, nominal_position, LatticeBounds};

verus! {

/// For a lattice that is not turned, or turned by right angles, a pitch and a
/// centre of whole pixels put every spot on whole pixels, provided that the
/// pitch is even or the smallest and largest regular index of each axis add
/// up to an even number (the midpoint is then no half index).
pub proof fn lemma_whole_pitch_gives_whole_positions(
    row: int,
    col: int,
    bounds: LatticeBounds,
    center: (int, int),
    rotation: Rotation,
    pitch: int,
)
    requires
        rotation.is_axis_aligned(),
        is_whole(pitch),
        is_whole(center.0),
        is_whole(center.1),
        (pitch / (UNIT as int)) % 2 == 0 || (bounds.twice_mid_row() % 2 == 0
            && bounds.twice_mid_col() % 2 == 0),
    ensures
        is_whole(nominal_position(row, col, bounds, center, rotation, pitch).0),
        is_whole(nominal_position(row, col, bounds, center, rotation, pitch).1),
{
    let dx = axis_offset(row, bounds.row_min as int, bounds.row_max as int, pitch);
    let dy = axis_offset(col, bounds.col_min as int, bounds.col_max as int, pitch);
    lemma_whole_offset(row, bounds.row_min as int, bounds.row_max as int, pitch);
    lemma_whole_offset(col, bounds.col_min as int, bounds.col_max as int, pitch);
    lemma_axis_turn(dx, dy, rotation);
    let t = rotated(dx, dy, rotation);
    assert(dx % 1_000_000 == 0 && dy % 1_000_000 == 0);
    assert((-dx) % 1_000_000 == 0 && (-dy) % 1_000_000 == 0);
    assert(t.0 % 1_000_000 == 0 && t.1 % 1_000_000 == 0);
    assert((center.0 + t.0) % 1_000_000 == 0);
    assert((center.1 + t.1) % 1_000_000 == 0);
}

/// With a pitch of whole pixels, an offset from the midpoint is a whole
/// number of pixels if the pitch is even or the midpoint is a whole index.
proof fn lemma_whole_offset(index: int, low: int, high: int, pitch: int)
    requires
        pitch % (UNIT as int) == 0,
        (pitch / (UNIT as int)) % 2 == 0 || (low + high) % 2 == 0,
    ensures
        axis_offset(index, low, high, pitch) % (UNIT as int) == 0,
{
    let k = 2 * magnitude(index) - (low + high);
    let p = pitch / 1_000_000;
    assert(pitch == p * 1_000_000);
    if p % 2 == 0 {
        let half = p / 2;
        let w = half * k;
        assert(pitch * k == (w * 1_000_000) * 2) by (nonlinear_arith)
            requires
                pitch == 2 * half * 1_000_000,
                w == half * k,
        ;
        lemma_round_div_exact(w * 1_000_000, 2);
        vstd::arithmetic::div_mod::lemma_mod_multiples_basic(w, 1_000_000);
    } else {
        let k2 = k / 2;
        let w = p * k2;
        assert(pitch * k == (w * 1_000_000) * 2) by (nonlinear_arith)
            requires
                pitch == p * 1_000_000,
                k == 2 * k2,
                w == p * k2,
        ;
        lemma_round_div_exact(w * 1_000_000, 2);
        vstd::arithmetic::div_mod::lemma_mod_multiples_basic(w, 1_000_000);
    }
}

/// A turn by right angles takes a point to its coordinates, exchanged or
/// negated.
proof fn lemma_axis_turn(x: int, y: int, rotation: Rotation)
    requires
        rotation.is_axis_aligned(),
    ensures
        ({
            let t = rotated(x, y, rotation);
            &&& (t.0 == x || t.0 == -x || t.0 == y || t.0 == -y)
            &&& (t.1 == x || t.1 == -x || t.1 == y || t.1 == -y)
        }),
{
    lemma_round_div_exact(x, 1_000_000);
    lemma_round_div_exact(-x, 1_000_000);
    lemma_round_div_exact(y, 1_000_000);
    lemma_round_div_exact(-y, 1_000_000);
    if rotation.cos == 1_000_000 {
        assert(rotated(x, y, rotation) == (x, y));
    } else if rotation.cos == -1_000_000 {
        assert(rotated(x, y, rotation) == (-x, -y));
    } else if rotation.sin == 1_000_000 {
        assert(rotated(x, y, rotation) == (-y, x));
    } else {
        assert(rotation.cos == 0 && rotation.sin == -1_000_000);
        assert(x * rotation.cos - y * rotation.sin == y * 1_000_000);
        assert(x * rotation.sin + y * rotation.cos == (-x) * 1_000_000);
        assert(rotated(x, y, rotation) == (y, -x));
    }
}

/// With a pitch of whole or half pixels, an offset from the midpoint is a
/// whole number of quarter pixels: half the pitch, in half pixels, times the
/// doubled distance of the index from the midpoint.
proof fn lemma_half_pitch_steps(index: int, low: int, high: int, pitch: int)
    requires
        (2 * pitch) % (UNIT as int) == 0,
    ensures
        axis_offset(index, low, high, pitch) == ((2 * pitch) / (UNIT as int)) * 250_000 * (2
            * magnitude(index) - (low + high)),
{
    let k = 2 * magnitude(index) - (low + high);
    let h = (2 * pitch) / 1_000_000;
    assert(2 * pitch == h * 1_000_000);
    assert(pitch == h * 500_000);
    let q = h * 250_000 * k;
    assert(pitch * k == q * 2) by (nonlinear_arith)
        requires
            pitch == h * 500_000,
            q == h * 250_000 * k,
    ;
    lemma_round_div_exact(q, 2);
}

/// In a lattice that is not turned, two entries whose row indices are both
/// even or both odd lie a whole number of pixels apart along the first axis,
/// for a pitch of whole or half pixels: their first coordinates have the same
/// fractional part. The same holds of the columns and the second axis.
pub proof fn lemma_same_parity_same_fraction(
    index_a: int,
    index_b: int,
    low: int,
    high: int,
    pitch: int,
)
    requires
        is_whole(2 * pitch),
        magnitude(index_a) % 2 == magnitude(index_b) % 2,
    ensures
        is_whole(axis_offset(index_a, low, high, pitch) - axis_offset(index_b, low, high, pitch)),
{
    let ka = 2 * magnitude(index_a) - (low + high);
    let kb = 2 * magnitude(index_b) - (low + high);
    let j = (magnitude(index_a) - magnitude(index_b)) / 2;
    assert(ka - kb == 4 * j);
    let h = (2 * pitch) / 1_000_000;
    lemma_half_pitch_steps(index_a, low, high, pitch);
    lemma_half_pitch_steps(index_b, low, high, pitch);
    assert(h * 250_000 * ka - h * 250_000 * kb == (h * j) * 1_000_000) by (nonlinear_arith)
        requires
            ka - kb == 4 * j,
    ;
    vstd::arithmetic::div_mod::lemma_mod_multiples_basic(h * j, 1_000_000);
}

/// In a lattice that is not turned, two entries whose row and column indices
/// add up to numbers that are both even or both odd have positions whose
/// coordinate sums differ by a whole number of pixels, for a pitch of whole or
/// half pixels: the fractional parts do not depend on the diagonal.
pub proof fn lemma_diagonal_parity(
    row_a: int,
    col_a: int,
    row_b: int,
    col_b: int,
    bounds: LatticeBounds,
    center: (int, int),
    pitch: int,
)
    requires
        is_whole(2 * pitch),
        (magnitude(row_a) + magnitude(col_a)) % 2 == (magnitude(row_b) + magnitude(col_b)) % 2,
    ensures
        ({
            let none = Rotation { degrees: 0, cos: UNIT, sin: 0 };
            let a = nominal_position(row_a, col_a, bounds, center, none, pitch);
            let b = nominal_position(row_b, col_b, bounds, center, none, pitch);
            is_whole((a.0 + a.1) - (b.0 + b.1))
        }),
{
    let none = Rotation { degrees: 0, cos: UNIT, sin: 0 };
    let xa = axis_offset(row_a, bounds.row_min as int, bounds.row_max as int, pitch);
    let ya = axis_offset(col_a, bounds.col_min as int, bounds.col_max as int, pitch);
    let xb = axis_offset(row_b, bounds.row_min as int, bounds.row_max as int, pitch);
    let yb = axis_offset(col_b, bounds.col_min as int, bounds.col_max as int, pitch);
    lemma_round_div_exact(xa, 1_000_000);
    lemma_round_div_exact(ya, 1_000_000);
    lemma_round_div_exact(xb, 1_000_000);
    lemma_round_div_exact(yb, 1_000_000);
    assert(rotated(xa, ya, none) == (xa, ya));
    assert(rotated(xb, yb, none) == (xb, yb));
    lemma_half_pitch_steps(row_a, bounds.row_min as int, bounds.row_max as int, pitch);
    lemma_half_pitch_steps(col_a, bounds.col_min as int, bounds.col_max as int, pitch);
    lemma_half_pitch_steps(row_b, bounds.row_min as int, bounds.row_max as int, pitch);
    lemma_half_pitch_steps(col_b, bounds.col_min as int, bounds.col_max as int, pitch);
    let h = (2 * pitch) / 1_000_000;
    let ka = 2 * magnitude(row_a) - (bounds.row_min + bounds.row_max);
    let la = 2 * magnitude(col_a) - (bounds.col_min + bounds.col_max);
    let kb = 2 * magnitude(row_b) - (bounds.row_min + bounds.row_max);
    let lb = 2 * magnitude(col_b) - (bounds.col_min + bounds.col_max);
    let j = ((magnitude(row_a) + magnitude(col_a)) - (magnitude(row_b) + magnitude(col_b))) / 2;
    assert((ka + la) - (kb + lb) == 4 * j);
    assert((h * 250_000 * ka + h * 250_000 * la) - (h * 250_000 * kb + h * 250_000 * lb) == (h
        * j) * 1_000_000) by (nonlinear_arith)
        requires
            (ka + la) - (kb + lb) == 4 * j,
    ;
    vstd::arithmetic::div_mod::lemma_mod_multiples_basic(h * j, 1_000_000);
}

} // verus!
