//! Fixed-point numbers: an `i64` that counts millionths.
use vstd::prelude::*;

verus! {

/// The number 1 (one pixel, one degree, the ratio 1) in millionths.
pub const UNIT: i64 = 1_000_000;

/// Largest magnitude of a position or a length that the library works with,
/// in millionths of a pixel.
pub const COORD_MAX: i64 = 100_000_000_000_000_000;

pub open spec fn magnitude(x: int) -> int {
    if x < 0 {
        -x
    } else {
        x
    }
}

/// `n / d` rounded to the nearest integer, a tie going away from zero.
pub open spec fn round_div(n: int, d: int) -> int
    recommends
        d > 0,
{
    if n >= 0 {
        (2 * n + d) / (2 * d)
    } else {
        -((2 * (-n) + d) / (2 * d))
    }
}

/// The whole number nearest to a fixed-point value.
pub open spec fn nearest_whole(x: int) -> int {
    round_div(x, UNIT as int)
}

/// The largest whole number not above a fixed-point value.
pub open spec fn whole_part(x: int) -> int {
    x / (UNIT as int)
}

/// Whether a fixed-point value is a whole number.
pub open spec fn is_whole(x: int) -> bool {
    x % (UNIT as int) == 0
}

pub proof fn lemma_round_div_bounds(n: int, d: int)
    requires
        d > 0,
    ensures
        2 * d * round_div(n, d) - d <= 2 * n,
        2 * n <= 2 * d * round_div(n, d) + d,
        magnitude(round_div(n, d)) <= magnitude(n),
        n >= 0 ==> round_div(n, d) >= 0,
        n <= 0 ==> round_div(n, d) <= 0,
        round_div(-n, d) == -round_div(n, d),
{
    let m = magnitude(n);
    let q = (2 * m + d) / (2 * d);
    assert(2 * (d * q) <= 2 * m + d < 2 * (d * q) + 2 * d && 0 <= q <= m) by (nonlinear_arith)
        requires
            d > 0,
            m >= 0,
            q == (2 * m + d) / (2 * d),
    ;
    assert(2 * d * q == 2 * (d * q) && 2 * d * (-q) == -(2 * (d * q))) by (nonlinear_arith);
    if n > 0 {
        assert(round_div(n, d) == q);
        assert(round_div(-n, d) == -q);
    } else if n == 0 {
        assert(q == 0);
    } else {
        assert(round_div(n, d) == -q);
        assert(round_div(-n, d) == q);
    }
}

/// The mean of numbers within a bound lies within the bound.
pub proof fn lemma_round_div_mean(n: int, d: int, bound: int)
    requires
        d > 0,
        bound >= 0,
        -(bound * d) <= n <= bound * d,
    ensures
        -bound <= round_div(n, d) <= bound,
{
    lemma_round_div_bounds(n, d);
    let r = round_div(n, d);
    assert(r <= bound) by (nonlinear_arith)
        requires
            2 * d * r - d <= 2 * n,
            n <= bound * d,
            d > 0,
    ;
    assert(-bound <= r) by (nonlinear_arith)
        requires
            2 * n <= 2 * d * r + d,
            -(bound * d) <= n,
            d > 0,
    ;
}

/// An exact quotient is its own rounding.
pub proof fn lemma_round_div_exact(k: int, d: int)
    requires
        d > 0,
    ensures
        round_div(k * d, d) == k,
{
    if k >= 0 {
        assert((2 * (k * d) + d) / (2 * d) == k) by (nonlinear_arith)
            requires
                d > 0,
                k >= 0,
        ;
        assert(k * d >= 0) by (nonlinear_arith)
            requires
                d > 0,
                k >= 0,
        ;
    } else {
        assert((2 * (-(k * d)) + d) / (2 * d) == -k) by (nonlinear_arith)
            requires
                d > 0,
                k < 0,
        ;
        assert(k * d < 0) by (nonlinear_arith)
            requires
                d > 0,
                k < 0,
        ;
    }
}

/// A product of two bounded numbers is bounded by the product of the bounds.
pub proof fn lemma_product_bound(x: int, a: int, y: int, b: int)
    requires
        -a <= x <= a,
        -b <= y <= b,
    ensures
        -(a * b) <= x * y <= a * b,
        x * y == y * x,
{
    assert(-(a * b) <= x * y <= a * b) by (nonlinear_arith)
        requires
            -a <= x <= a,
            -b <= y <= b,
    ;
    assert(x * y == y * x) by (nonlinear_arith);
}

/// `n / d`, rounded to the nearest integer.
pub fn div_round(n: i128, d: i128) -> (q: i128)
    requires
        d > 0,
        d <= 0x1000_0000_0000_0000_0000_0000_0000,
        -0x1000_0000_0000_0000_0000_0000_0000_0000 <= n <= 0x1000_0000_0000_0000_0000_0000_0000_0000,
    ensures
        q == round_div(n as int, d as int),
{
    proof {
        lemma_round_div_bounds(n as int, d as int);
    }
    if n >= 0 {
        (2 * n + d) / (2 * d)
    } else {
        -((2 * (-n) + d) / (2 * d))
    }
}

/// `n / d`, rounded down.
pub fn div_floor(n: i128, d: i128) -> (q: i128)
    requires
        d > 0,
        n > i128::MIN,
    ensures
        q == n as int / d as int,
{
    if n >= 0 {
        n / d
    } else {
        let m: i128 = -n;
        let q: i128 = m / d;
        let r: i128 = m % d;
        proof {
            assert(m == q * d + r && 0 <= r < d && q >= 0) by (nonlinear_arith)
                requires
                    m >= 0,
                    d > 0,
                    q == m / d,
                    r == m % d,
            ;
            if r == 0 {
                assert((n as int) / (d as int) == -q) by (nonlinear_arith)
                    requires
                        n == -(q * d),
                        d > 0,
                ;
            } else {
                assert((n as int) / (d as int) == -q - 1) by (nonlinear_arith)
                    requires
                        n == -(q * d + r),
                        0 < r < d,
                ;
            }
        }
        if r == 0 {
            -q
        } else {
            -q - 1
        }
    }
}

/// The whole number nearest to `x`.
pub fn round_to_whole(x: i64) -> (w: i64)
    ensures
        w == nearest_whole(x as int),
        magnitude(w as int) <= magnitude(x as int),
{
    proof {
        lemma_round_div_bounds(x as int, UNIT as int);
    }
    let q: i128 = div_round(x as i128, UNIT as i128);
    q as i64
}

/// The largest whole number not above `x`.
pub fn floor_to_whole(x: i64) -> (w: i64)
    ensures
        w == whole_part(x as int),
{
    let q: i128 = div_floor(x as i128, UNIT as i128);
    assert(-0x8000_0000_0000_0000 <= (x as int) / 1_000_000 <= 0x7fff_ffff_ffff_ffff);
    q as i64
}

/// A turn of the lattice about its midpoint: the angle in millionths of a
/// degree, with its cosine and sine in millionths.
#[derive(Clone, Copy, Debug, PartialEq, Eq, Structural)]
pub struct Rotation {
    pub degrees: i64,
    pub cos: i64,
    pub sin: i64,
}

impl Rotation {
    /// Cosine and sine are those of one angle, as far as their rounding to
    /// millionths shows: each is at most 1 in magnitude, and their squares
    /// add up to 1, give or take two millionths.
    pub open spec fn wf(&self) -> bool {
        &&& -UNIT <= self.cos <= UNIT
        &&& -UNIT <= self.sin <= UNIT
        &&& -2 * UNIT <= self.cos * self.cos + self.sin * self.sin - UNIT * UNIT <= 2 * UNIT
    }

    /// Whether cosine and sine are those of one angle.
    pub fn is_wf(&self) -> (ok: bool)
        ensures
            ok == self.wf(),
    {
        if !(-UNIT <= self.cos && self.cos <= UNIT && -UNIT <= self.sin && self.sin <= UNIT) {
            return false;
        }
        proof {
            lemma_product_bound(self.cos as int, 1_000_000, self.cos as int, 1_000_000);
            lemma_product_bound(self.sin as int, 1_000_000, self.sin as int, 1_000_000);
        }
        let off: i64 = self.cos * self.cos + self.sin * self.sin - 1_000_000_000_000;
        -2_000_000 <= off && off <= 2_000_000
    }

    /// Whether the turn is by a whole number of right angles, so that it maps
    /// whole coordinates to whole coordinates.
    pub open spec fn is_axis_aligned(&self) -> bool {
        ||| (magnitude(self.cos as int) == UNIT && self.sin == 0)
        ||| (self.cos == 0 && magnitude(self.sin as int) == UNIT)
    }

    /// No turn at all.
    pub fn none() -> (r: Rotation)
        ensures
            r == (Rotation { degrees: 0, cos: UNIT, sin: 0 }),
            r.wf(),
            r.is_axis_aligned(),
    {
        Rotation { degrees: 0, cos: UNIT, sin: 0 }
    }

    /// A turn by `quarters` right angles.
    pub fn quarter_turns(quarters: u8) -> (r: Rotation)
        ensures
            r.wf(),
            r.is_axis_aligned(),
            r.degrees == 90 * UNIT * (quarters % 4),
            quarters % 4 == 0 ==> r.cos == UNIT && r.sin == 0,
            quarters % 4 == 1 ==> r.cos == 0 && r.sin == UNIT,
            quarters % 4 == 2 ==> r.cos == -UNIT && r.sin == 0,
            quarters % 4 == 3 ==> r.cos == 0 && r.sin == -UNIT,
    {
        let q: u8 = quarters % 4;
        if q == 0 {
            Rotation { degrees: 0, cos: UNIT, sin: 0 }
        } else if q == 1 {
            Rotation { degrees: 90 * UNIT, cos: 0, sin: UNIT }
        } else if q == 2 {
            Rotation { degrees: 180 * UNIT, cos: -UNIT, sin: 0 }
        } else {
            Rotation { degrees: 270 * UNIT, cos: 0, sin: -UNIT }
        }
    }
}

/// The point `(x, y)` turned about the origin.
pub open spec fn rotated(x: int, y: int, r: Rotation) -> (int, int) {
    (
        round_div(x * r.cos - y * r.sin, UNIT as int),
        round_div(x * r.sin + y * r.cos, UNIT as int),
    )
}

} // verus!
