//! Sobel gradients, their magnitude and direction, and the thinning of
//! gradient ridges.
use vstd::prelude::*;
use crate::plane::Plane;

verus! {

/// Largest magnitude of a cell of a raster whose gradient is taken: a million,
/// in millionths.
pub const SAMPLE_MAX: i64 = 1_000_000_000_000;

/// Whether `r` is the square root of `n`, rounded down.
pub open spec fn is_sqrt(n: int, r: int) -> bool {
    r >= 0 && r * r <= n < (r + 1) * (r + 1)
}

/// The square root of `n`, rounded down.
pub open spec fn int_sqrt(n: int) -> int {
    choose|r: int| is_sqrt(n, r)
}

/// A number has one rounded square root.
pub proof fn lemma_sqrt_unique(n: int, a: int, b: int)
    requires
        is_sqrt(n, a),
        is_sqrt(n, b),
    ensures
        a == b,
{
    if a < b {
        assert((a + 1) * (a + 1) <= b * b) by (nonlinear_arith)
            requires
                0 <= a,
                a + 1 <= b,
        ;
    }
    if b < a {
        assert((b + 1) * (b + 1) <= a * a) by (nonlinear_arith)
            requires
                0 <= b,
                b + 1 <= a,
        ;
    }
}

/// The square root of `n`, rounded down.
pub fn isqrt(n: u128) -> (r: u64)
    requires
        n < 0x4000_0000_0000_0000_0000_0000_0000_0000,
    ensures
        is_sqrt(n as int, r as int),
        r == int_sqrt(n as int),
        r < 0x8000_0000_0000_0000,
        n < 0x1_0000_0000_0000_0000_0000_0000 ==> r < 0x1_0000_0000_0000,
{
    let mut lo: u128 = 0;
    let mut hi: u128 = 0x8000_0000_0000_0000;
    assert(hi * hi == 0x4000_0000_0000_0000_0000_0000_0000_0000) by (nonlinear_arith)
        requires
            hi == 0x8000_0000_0000_0000,
    ;
    while hi - lo > 1
        invariant
            lo < hi <= 0x8000_0000_0000_0000,
            lo * lo <= n,
            n < hi * hi,
        decreases hi - lo,
    {
        let mid: u128 = lo + (hi - lo) / 2;
        assert(mid * mid <= 0x8000_0000_0000_0000 * 0x8000_0000_0000_0000) by (nonlinear_arith)
            requires
                0 <= mid <= 0x8000_0000_0000_0000,
        ;
        let sq: u128 = mid * mid;
        if sq <= n {
            lo = mid;
        } else {
            hi = mid;
        }
    }
    proof {
        assert(is_sqrt(n as int, lo as int));
        lemma_sqrt_unique(n as int, lo as int, int_sqrt(n as int));
        if n < 0x1_0000_0000_0000_0000_0000_0000 && lo >= 0x1_0000_0000_0000 {
            assert(lo * lo >= 0x1_0000_0000_0000 * 0x1_0000_0000_0000) by (nonlinear_arith)
                requires
                    lo >= 0x1_0000_0000_0000,
            ;
        }
    }
    lo as u64
}

/// Whether the cell has all eight neighbours inside the raster.
pub open spec fn interior(height: int, width: int, y: int, x: int) -> bool {
    1 <= y < height - 1 && 1 <= x < width - 1
}

/// The horizontal Sobel response at a cell; 0 on the border.
pub open spec fn sobel_x(data: Plane<i64>, y: int, x: int) -> int {
    if interior(data.height as int, data.width as int, y, x) {
        -data.at(y - 1, x - 1) + data.at(y - 1, x + 1) - 2 * data.at(y, x - 1) + 2 * data.at(
            y,
            x + 1,
        ) - data.at(y + 1, x - 1) + data.at(y + 1, x + 1)
    } else {
        0
    }
}

/// The vertical Sobel response at a cell; 0 on the border.
pub open spec fn sobel_y(data: Plane<i64>, y: int, x: int) -> int {
    if interior(data.height as int, data.width as int, y, x) {
        -data.at(y - 1, x - 1) - 2 * data.at(y - 1, x) - data.at(y - 1, x + 1) + data.at(
            y + 1,
            x - 1,
        ) + 2 * data.at(y + 1, x) + data.at(y + 1, x + 1)
    } else {
        0
    }
}

/// The horizontal and the vertical Sobel response of a raster.
#[verifier::loop_isolation(false)]
pub fn compute_gradients_sobel(image: &Plane<i64>) -> (g: (Plane<i64>, Plane<i64>))
    requires
        image.wf(),
        image.bounded(SAMPLE_MAX as int),
    ensures
        g.0.wf() && g.0.height == image.height && g.0.width == image.width,
        g.1.wf() && g.1.height == image.height && g.1.width == image.width,
        forall|y: int, x: int| image.inside(y, x) ==> #[trigger] g.0.at(y, x) == sobel_x(*image, y, x),
        forall|y: int, x: int| image.inside(y, x) ==> #[trigger] g.1.at(y, x) == sobel_y(*image, y, x),
        g.0.bounded(8 * SAMPLE_MAX),
        g.1.bounded(8 * SAMPLE_MAX),
{
    let height: usize = image.height;
    let width: usize = image.width;
    let mut grad_x: Plane<i64> = Plane::filled(height, width, 0);
    let mut grad_y: Plane<i64> = Plane::filled(height, width, 0);
    if height < 3 || width < 3 {
        return (grad_x, grad_y);
    }
    let mut y: usize = 1;
    while y < height - 1
        invariant
            1 <= y <= height - 1,
            grad_x.wf() && grad_x.height == height && grad_x.width == width,
            grad_y.wf() && grad_y.height == height && grad_y.width == width,
            forall|v: int, u: int|
                image.inside(v, u) ==> #[trigger] grad_x.at(v, u) == if v < y {
                    sobel_x(*image, v, u)
                } else {
                    0
                },
            forall|v: int, u: int|
                image.inside(v, u) ==> #[trigger] grad_y.at(v, u) == if v < y {
                    sobel_y(*image, v, u)
                } else {
                    0
                },
        decreases height - y,
    {
        let mut x: usize = 1;
        while x < width - 1
            invariant
                1 <= y < height - 1,
                1 <= x <= width - 1,
                grad_x.wf() && grad_x.height == height && grad_x.width == width,
                grad_y.wf() && grad_y.height == height && grad_y.width == width,
                forall|v: int, u: int|
                    image.inside(v, u) ==> #[trigger] grad_x.at(v, u) == if v < y || (v == y && u
                        < x) {
                        sobel_x(*image, v, u)
                    } else {
                        0
                    },
                forall|v: int, u: int|
                    image.inside(v, u) ==> #[trigger] grad_y.at(v, u) == if v < y || (v == y && u
                        < x) {
                        sobel_y(*image, v, u)
                    } else {
                        0
                    },
            decreases width - x,
        {
            let a: i64 = image.get(y - 1, x - 1);
            let b: i64 = image.get(y - 1, x);
            let c: i64 = image.get(y - 1, x + 1);
            let d: i64 = image.get(y, x - 1);
            let e: i64 = image.get(y, x + 1);
            let f: i64 = image.get(y + 1, x - 1);
            let g: i64 = image.get(y + 1, x);
            let h: i64 = image.get(y + 1, x + 1);
            let gx: i64 = -a + c - 2 * d + 2 * e - f + h;
            let gy: i64 = -a - 2 * b - c + f + 2 * g + h;
            grad_x.set(y, x, gx);
            grad_y.set(y, x, gy);
            x += 1;
        }
        y += 1;
    }
    (grad_x, grad_y)
}

/// The bucket of the direction of a gradient: 0 for a gradient along the
/// rows (within 22.5 degrees of the horizontal), 2 for one along the columns,
/// 1 for a diagonal one whose components have the same sign, 3 for a
/// diagonal one whose components have opposite signs.
pub open spec fn direction_bucket(gx: int, gy: int) -> int {
    let a = if gx < 0 {
        -gx
    } else {
        gx
    };
    let b = if gy < 0 {
        -gy
    } else {
        gy
    };
    if b == 0 || (a + b) * (a + b) < 2 * (a * a) {
        0
    } else if (a + b) * (a + b) < 2 * (b * b) {
        2
    } else if (gx > 0) == (gy > 0) {
        1
    } else {
        3
    }
}

fn bucket_of(gx: i64, gy: i64) -> (bucket: u8)
    requires
        -8 * SAMPLE_MAX <= gx <= 8 * SAMPLE_MAX,
        -8 * SAMPLE_MAX <= gy <= 8 * SAMPLE_MAX,
    ensures
        bucket == direction_bucket(gx as int, gy as int),
        bucket < 4,
{
    let a: i128 = if gx < 0 {
        -(gx as i128)
    } else {
        gx as i128
    };
    let b: i128 = if gy < 0 {
        -(gy as i128)
    } else {
        gy as i128
    };
    assert((a + b) * (a + b) <= 16_000_000_000_000 * 16_000_000_000_000 && a * a
        <= 8_000_000_000_000 * 8_000_000_000_000 && b * b <= 8_000_000_000_000
        * 8_000_000_000_000 && 0 <= (a + b) * (a + b) && 0 <= a * a && 0 <= b * b)
        by (nonlinear_arith)
        requires
            0 <= a <= 8_000_000_000_000,
            0 <= b <= 8_000_000_000_000,
    ;
    let s: i128 = (a + b) * (a + b);
    if b == 0 || s < 2 * (a * a) {
        0
    } else if s < 2 * (b * b) {
        2
    } else if (gx > 0) == (gy > 0) {
        1
    } else {
        3
    }
}

/// Whether `magnitude` and `direction` hold, cell by cell, the length of the
/// gradient `(grad_x, grad_y)`, rounded down, and the bucket of its
/// direction.
pub open spec fn is_polar_form(
    grad_x: Plane<i64>,
    grad_y: Plane<i64>,
    magnitude: Plane<i64>,
    direction: Plane<u8>,
) -> bool {
    &&& magnitude.wf() && magnitude.height == grad_x.height && magnitude.width == grad_x.width
    &&& direction.wf() && direction.height == grad_x.height && direction.width == grad_x.width
    &&& forall|y: int, x: int|
        grad_x.inside(y, x) ==> is_sqrt(
            grad_x.at(y, x) * grad_x.at(y, x) + grad_y.at(y, x) * grad_y.at(y, x),
            #[trigger] magnitude.at(y, x) as int,
        )
    &&& forall|y: int, x: int|
        grad_x.inside(y, x) ==> #[trigger] direction.at(y, x) == direction_bucket(
            grad_x.at(y, x) as int,
            grad_y.at(y, x) as int,
        )
}

fn length_of(gx: i64, gy: i64) -> (m: i64)
    requires
        -8 * SAMPLE_MAX <= gx <= 8 * SAMPLE_MAX,
        -8 * SAMPLE_MAX <= gy <= 8 * SAMPLE_MAX,
    ensures
        is_sqrt(gx * gx + gy * gy, m as int),
        0 <= m <= 12 * SAMPLE_MAX,
{
    assert(0 <= gx * gx <= 8_000_000_000_000 * 8_000_000_000_000) by (nonlinear_arith)
        requires
            -8_000_000_000_000 <= gx <= 8_000_000_000_000,
    ;
    assert(0 <= gy * gy <= 8_000_000_000_000 * 8_000_000_000_000) by (nonlinear_arith)
        requires
            -8_000_000_000_000 <= gy <= 8_000_000_000_000,
    ;
    let n: u128 = ((gx as i128) * (gx as i128) + (gy as i128) * (gy as i128)) as u128;
    let r: u64 = isqrt(n);
    proof {
        if r > 12_000_000_000_000 {
            assert(r * r > 128_000_000_000_000_000_000_000_000) by (nonlinear_arith)
                requires
                    r > 12_000_000_000_000,
            ;
        }
    }
    r as i64
}

/// The length of the gradient, rounded down, and the bucket of its direction,
/// cell by cell.
#[verifier::loop_isolation(false)]
pub fn compute_gradient_magnitude_direction(grad_x: &Plane<i64>, grad_y: &Plane<i64>) -> (polar: (
    Plane<i64>,
    Plane<u8>,
))
    requires
        grad_x.wf(),
        grad_y.wf(),
        grad_x.height == grad_y.height,
        grad_x.width == grad_y.width,
        grad_x.bounded(8 * SAMPLE_MAX),
        grad_y.bounded(8 * SAMPLE_MAX),
    ensures
        is_polar_form(*grad_x, *grad_y, polar.0, polar.1),
        polar.0.between(0, 12 * SAMPLE_MAX),
        forall|y: int, x: int| grad_x.inside(y, x) ==> #[trigger] polar.1.at(y, x) < 4,
{
    let height: usize = grad_x.height;
    let width: usize = grad_x.width;
    let mut magnitude: Plane<i64> = Plane::filled(height, width, 0);
    let mut direction: Plane<u8> = Plane::filled(height, width, 0);
    let mut y: usize = 0;
    while y < height
        invariant
            y <= height,
            magnitude.wf() && magnitude.height == height && magnitude.width == width,
            direction.wf() && direction.height == height && direction.width == width,
            magnitude.between(0, 12 * SAMPLE_MAX),
            forall|v: int, u: int| grad_x.inside(v, u) ==> #[trigger] direction.at(v, u) < 4,
            forall|v: int, u: int|
                grad_x.inside(v, u) && v < y ==> is_sqrt(
                    grad_x.at(v, u) * grad_x.at(v, u) + grad_y.at(v, u) * grad_y.at(v, u),
                    #[trigger] magnitude.at(v, u) as int,
                ),
            forall|v: int, u: int|
                grad_x.inside(v, u) && v < y ==> #[trigger] direction.at(v, u) == direction_bucket(
                    grad_x.at(v, u) as int,
                    grad_y.at(v, u) as int,
                ),
        decreases height - y,
    {
        let mut x: usize = 0;
        while x < width
            invariant
                y < height,
                x <= width,
                magnitude.wf() && magnitude.height == height && magnitude.width == width,
                direction.wf() && direction.height == height && direction.width == width,
                magnitude.between(0, 12 * SAMPLE_MAX),
                forall|v: int, u: int| grad_x.inside(v, u) ==> #[trigger] direction.at(v, u) < 4,
                forall|v: int, u: int|
                    grad_x.inside(v, u) && (v < y || (v == y && u < x)) ==> is_sqrt(
                        grad_x.at(v, u) * grad_x.at(v, u) + grad_y.at(v, u) * grad_y.at(v, u),
                        #[trigger] magnitude.at(v, u) as int,
                    ),
                forall|v: int, u: int|
                    grad_x.inside(v, u) && (v < y || (v == y && u < x)) ==> #[trigger] direction.at(
                        v,
                        u,
                    ) == direction_bucket(grad_x.at(v, u) as int, grad_y.at(v, u) as int),
            decreases width - x,
        {
            let gx: i64 = grad_x.get(y, x);
            let gy: i64 = grad_y.get(y, x);
            magnitude.set(y, x, length_of(gx, gy));
            direction.set(y, x, bucket_of(gx, gy));
            x += 1;
        }
        y += 1;
    }
    (magnitude, direction)
}

/// Whether `gradient` holds, cell by cell, the length of the Sobel gradient
/// of `data`, rounded down.
pub open spec fn is_gradient_of(gradient: Plane<i64>, data: Plane<i64>) -> bool {
    &&& gradient.wf() && gradient.height == data.height && gradient.width == data.width
    &&& forall|y: int, x: int|
        data.inside(y, x) ==> is_sqrt(
            sobel_x(data, y, x) * sobel_x(data, y, x) + sobel_y(data, y, x) * sobel_y(data, y, x),
            #[trigger] gradient.at(y, x) as int,
        )
}

/// The length of the Sobel gradient of a raster; 0 on the border.
pub fn compute_gradient(data: &Plane<i64>) -> (gradient: Plane<i64>)
    requires
        data.wf(),
        data.bounded(SAMPLE_MAX as int),
    ensures
        is_gradient_of(gradient, *data),
        gradient.between(0, 12 * SAMPLE_MAX),
{
    let (grad_x, grad_y) = compute_gradients_sobel(data);
    let (magnitude, direction) = compute_gradient_magnitude_direction(&grad_x, &grad_y);
    proof {
        assert forall|y: int, x: int| data.inside(y, x) implies is_sqrt(
            sobel_x(*data, y, x) * sobel_x(*data, y, x) + sobel_y(*data, y, x) * sobel_y(
                *data,
                y,
                x,
            ),
            #[trigger] magnitude.at(y, x) as int,
        ) by {
            assert(grad_x.at(y, x) == sobel_x(*data, y, x));
            assert(grad_y.at(y, x) == sobel_y(*data, y, x));
        }
    }
    magnitude
}

/// The raster of the cells that are larger than `level`.
#[verifier::loop_isolation(false)]
pub fn threshold(data: &Plane<i64>, level: i64) -> (marked: Plane<bool>)
    requires
        data.wf(),
    ensures
        marked.wf() && marked.height == data.height && marked.width == data.width,
        forall|y: int, x: int|
            data.inside(y, x) ==> #[trigger] marked.at(y, x) == (data.at(y, x) > level),
{
    let mut marked: Plane<bool> = Plane::filled(data.height, data.width, false);
    let mut y: usize = 0;
    while y < data.height
        invariant
            y <= data.height,
            marked.wf() && marked.height == data.height && marked.width == data.width,
            forall|v: int, u: int|
                data.inside(v, u) && v < y ==> #[trigger] marked.at(v, u) == (data.at(v, u)
                    > level),
        decreases data.height - y,
    {
        let mut x: usize = 0;
        while x < data.width
            invariant
                y < data.height,
                x <= data.width,
                marked.wf() && marked.height == data.height && marked.width == data.width,
                forall|v: int, u: int|
                    data.inside(v, u) && (v < y || (v == y && u < x)) ==> #[trigger] marked.at(v, u)
                        == (data.at(v, u) > level),
            decreases data.width - x,
        {
            marked.set(y, x, data.get(y, x) > level);
            x += 1;
        }
        y += 1;
    }
    marked
}

/// The two neighbours with which a cell of direction `bucket` is compared
/// when ridges are thinned, as offsets `(dy, dx)`: the neighbours along the
/// gradient, across the ridge. They are left and right for bucket 0, upper
/// left and lower right for 1 (a gradient whose components have one sign
/// points down and to the right, or up and to the left), above and below for
/// 2, upper right and lower left for 3.
pub open spec fn ridge_neighbours(bucket: int) -> ((int, int), (int, int)) {
    if bucket == 0 {
        ((0, -1), (0, 1))
    } else if bucket == 1 {
        ((-1, -1), (1, 1))
    } else if bucket == 2 {
        ((-1, 0), (1, 0))
    } else {
        ((-1, 1), (1, -1))
    }
}

/// What thinning leaves of a cell: its magnitude if the cell is no border
/// cell, is larger than the first of the two neighbours of its direction and
/// no smaller than the second, else 0. Of cells of one magnitude in a row
/// along the direction, the first alone stays, so that a ridge is one cell
/// wide.
pub open spec fn thinned(magnitude: Plane<i64>, direction: Plane<u8>, y: int, x: int) -> int {
    let n = ridge_neighbours(direction.at(y, x) as int);
    if interior(magnitude.height as int, magnitude.width as int, y, x) && magnitude.at(y, x)
        > magnitude.at(y + n.0.0, x + n.0.1) && magnitude.at(y, x) >= magnitude.at(
        y + n.1.0,
        x + n.1.1,
    ) {
        magnitude.at(y, x) as int
    } else {
        0
    }
}

/// Thins the ridges of a gradient magnitude to the cells that are local
/// maxima along the direction of the gradient.
#[verifier::loop_isolation(false)]
pub fn non_maximum_suppression(magnitude: &Plane<i64>, direction: &Plane<u8>) -> (suppressed: Plane<
    i64,
>)
    requires
        magnitude.wf(),
        direction.wf(),
        direction.height == magnitude.height,
        direction.width == magnitude.width,
    ensures
        suppressed.wf() && suppressed.height == magnitude.height && suppressed.width
            == magnitude.width,
        forall|y: int, x: int|
            magnitude.inside(y, x) ==> #[trigger] suppressed.at(y, x) == thinned(
                *magnitude,
                *direction,
                y,
                x,
            ),
{
    let height: usize = magnitude.height;
    let width: usize = magnitude.width;
    let mut suppressed: Plane<i64> = Plane::filled(height, width, 0);
    if height < 3 || width < 3 {
        return suppressed;
    }
    let mut y: usize = 1;
    while y < height - 1
        invariant
            1 <= y <= height - 1,
            suppressed.wf() && suppressed.height == height && suppressed.width == width,
            forall|v: int, u: int|
                magnitude.inside(v, u) ==> #[trigger] suppressed.at(v, u) == if v < y {
                    thinned(*magnitude, *direction, v, u)
                } else {
                    0
                },
        decreases height - y,
    {
        let mut x: usize = 1;
        while x < width - 1
            invariant
                1 <= y < height - 1,
                1 <= x <= width - 1,
                suppressed.wf() && suppressed.height == height && suppressed.width == width,
                forall|v: int, u: int|
                    magnitude.inside(v, u) ==> #[trigger] suppressed.at(v, u) == if v < y || (v == y
                        && u < x) {
                        thinned(*magnitude, *direction, v, u)
                    } else {
                        0
                    },
            decreases width - x,
        {
            let mag: i64 = magnitude.get(y, x);
            let bucket: u8 = direction.get(y, x);
            let (n1, n2): (i64, i64) = if bucket == 0 {
                (magnitude.get(y, x - 1), magnitude.get(y, x + 1))
            } else if bucket == 1 {
                (magnitude.get(y - 1, x - 1), magnitude.get(y + 1, x + 1))
            } else if bucket == 2 {
                (magnitude.get(y - 1, x), magnitude.get(y + 1, x))
            } else {
                (magnitude.get(y - 1, x + 1), magnitude.get(y + 1, x - 1))
            };
            if mag > n1 && mag >= n2 {
                suppressed.set(y, x, mag);
            }
            x += 1;
        }
        y += 1;
    }
    suppressed
}

} // verus!
