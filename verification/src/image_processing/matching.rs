//! Normalised cross-correlation of a raster with a template, window by
//! window.
use vstd::prelude::*;
use crate::fixed::{div_round, lemma_product_bound, lemma_round_div_mean, round_div, UNIT};
use crate::image_processing::gradient::{int_sqrt, is_sqrt, isqrt};
use crate::plane::Plane;

verus! {

/// The largest number of cells of a template that is matched.
pub const TEMPLATE_CELLS_MAX: usize = 4_000_000;

/// The sum of the products of the first `n` cells of the row `ay` of `a`
/// from the column `ax` on with those of the row `by` of `b` from the column
/// `bx` on.
pub open spec fn row_dot(a: Plane<i64>, ay: int, ax: int, b: Plane<i64>, by: int, bx: int, n: nat) -> int
    decreases n,
{
    if n == 0 {
        0
    } else {
        row_dot(a, ay, ax, b, by, bx, (n - 1) as nat) + a.at(ay, ax + n - 1) * b.at(
            by,
            bx + n - 1,
        )
    }
}

/// The sum of the products of the cells of two windows of `rows` rows and
/// `width` columns: the one of `a` has its upper left corner at `(ay, ax)`,
/// the one of `b` at `(by, bx)`.
pub open spec fn window_dot(
    a: Plane<i64>,
    ay: int,
    ax: int,
    b: Plane<i64>,
    by: int,
    bx: int,
    rows: nat,
    width: nat,
) -> int
    decreases rows,
{
    if rows == 0 {
        0
    } else {
        window_dot(a, ay, ax, b, by, bx, (rows - 1) as nat, width) + row_dot(
            a,
            ay + rows - 1,
            ax,
            b,
            by + rows - 1,
            bx,
            width,
        )
    }
}

/// The ratio of `sum` to the square root of the product of the two energies,
/// in millionths; 0 where that root, rounded down, is 0.
pub open spec fn normalized_match(sum: int, image_energy: int, template_energy: int) -> int {
    let denominator = int_sqrt(image_energy * template_energy);
    if denominator > 0 {
        round_div(sum * UNIT, denominator)
    } else {
        0
    }
}

/// The normalised cross-correlation of the template with the window of the
/// raster whose upper left corner is `(y, x)`.
pub open spec fn match_at(image: Plane<i64>, template: Plane<i64>, y: int, x: int) -> int {
    let rows = template.height as nat;
    let width = template.width as nat;
    normalized_match(
        window_dot(image, y, x, template, 0, 0, rows, width),
        window_dot(image, y, x, image, y, x, rows, width),
        window_dot(template, 0, 0, template, 0, 0, rows, width),
    )
}

/// The inequality of Cauchy and Schwarz goes on holding when one more product
/// is added to the sum and one more square to each energy.
proof fn lemma_schwarz_step(s: int, p: int, q: int, a: int, b: int)
    requires
        s * s <= p * q,
        p >= 0,
        q >= 0,
    ensures
        (s + a * b) * (s + a * b) <= (p + a * a) * (q + b * b),
        p + a * a >= 0,
        q + b * b >= 0,
{
    let ab = a * b;
    let aabb = ab * ab;
    let w = s * ab;
    let u = p * (b * b);
    let v = q * (a * a);
    assert(a * a >= 0 && b * b >= 0 && aabb >= 0) by (nonlinear_arith)
        requires
            aabb == (a * b) * (a * b),
    ;
    assert(w * w == (s * s) * aabb) by (nonlinear_arith)
        requires
            w == s * ab,
            aabb == ab * ab,
    ;
    assert((s * s) * aabb <= (p * q) * aabb) by (nonlinear_arith)
        requires
            s * s <= p * q,
            aabb >= 0,
    ;
    assert(u * v == (p * q) * aabb) by (nonlinear_arith)
        requires
            u == p * (b * b),
            v == q * (a * a),
            aabb == (a * b) * (a * b),
    ;
    assert(u >= 0 && v >= 0) by (nonlinear_arith)
        requires
            u == p * (b * b),
            v == q * (a * a),
            p >= 0,
            q >= 0,
            a * a >= 0,
            b * b >= 0,
    ;
    let t = u + v;
    assert(t * t >= 4 * (u * v)) by (nonlinear_arith)
        requires
            t == u + v,
    ;
    assert(2 * w <= t) by (nonlinear_arith)
        requires
            4 * (w * w) <= t * t,
            t >= 0,
    ;
    assert((s + ab) * (s + ab) == s * s + 2 * w + aabb) by (nonlinear_arith)
        requires
            w == s * ab,
            aabb == ab * ab,
    ;
    assert((p + a * a) * (q + b * b) == p * q + u + v + (a * a) * (b * b)) by (nonlinear_arith)
        requires
            u == p * (b * b),
            v == q * (a * a),
    ;
    assert((a * a) * (b * b) == aabb) by (nonlinear_arith)
        requires
            aabb == (a * b) * (a * b),
    ;
}

/// A sum whose square is at most `product` is at most the square root of
/// `product` in magnitude.
proof fn lemma_root_bounds(sum: int, product: int, root: int)
    requires
        sum * sum <= product,
        is_sqrt(product, root),
    ensures
        -root <= sum <= root,
{
    if sum > root {
        assert(sum * sum >= (root + 1) * (root + 1)) by (nonlinear_arith)
            requires
                sum >= root + 1,
                root >= 0,
        ;
    }
    if sum < -root {
        assert(sum * sum >= (root + 1) * (root + 1)) by (nonlinear_arith)
            requires
                -sum >= root + 1,
                root >= 0,
        ;
    }
}

/// The normalised cross-correlation of the template with one window of the
/// raster.
#[verifier::loop_isolation(false)]
fn window_match(image: &Plane<i64>, template: &Plane<i64>, y: usize, x: usize) -> (value: i64)
    requires
        image.wf(),
        template.wf(),
        y + template.height <= image.height,
        x + template.width <= image.width,
        image.bounded(UNIT as int),
        template.bounded(UNIT as int),
        template.height * template.width <= TEMPLATE_CELLS_MAX,
    ensures
        value == match_at(*image, *template, y as int, x as int),
        -UNIT <= value <= UNIT,
{
    let rows = template.height;
    let width = template.width;
    let mut sum: i128 = 0;
    let mut image_energy: i128 = 0;
    let mut template_energy: i128 = 0;
    let mut seen: u64 = 0;
    let mut ty: usize = 0;
    while ty < rows
        invariant
            ty <= rows,
            seen == ty * width,
            seen <= rows * width,
            sum == window_dot(*image, y as int, x as int, *template, 0, 0, ty as nat, width as nat),
            image_energy == window_dot(
                *image,
                y as int,
                x as int,
                *image,
                y as int,
                x as int,
                ty as nat,
                width as nat,
            ),
            template_energy == window_dot(*template, 0, 0, *template, 0, 0, ty as nat, width as nat),
            sum * sum <= image_energy * template_energy,
            0 <= image_energy <= seen * 1_000_000_000_000,
            0 <= template_energy <= seen * 1_000_000_000_000,
            -seen * 1_000_000_000_000 <= sum <= seen * 1_000_000_000_000,
        decreases rows - ty,
    {
        let ghost sum_before = sum;
        let ghost image_before = image_energy;
        let ghost template_before = template_energy;
        assert((ty + 1) * width == ty * width + width && (ty + 1) * width <= rows * width)
            by (nonlinear_arith)
            requires
                ty + 1 <= rows,
                width >= 0,
        ;
        let mut tx: usize = 0;
        while tx < width
            invariant
                ty < rows,
                tx <= width,
                seen == ty * width + tx,
                sum == sum_before + row_dot(
                    *image,
                    y + ty,
                    x as int,
                    *template,
                    ty as int,
                    0,
                    tx as nat,
                ),
                image_energy == image_before + row_dot(
                    *image,
                    y + ty,
                    x as int,
                    *image,
                    y + ty,
                    x as int,
                    tx as nat,
                ),
                template_energy == template_before + row_dot(
                    *template,
                    ty as int,
                    0,
                    *template,
                    ty as int,
                    0,
                    tx as nat,
                ),
                sum * sum <= image_energy * template_energy,
                0 <= image_energy <= seen * 1_000_000_000_000,
                0 <= template_energy <= seen * 1_000_000_000_000,
                -seen * 1_000_000_000_000 <= sum <= seen * 1_000_000_000_000,
            decreases width - tx,
        {
            let a: i64 = image.get(y + ty, x + tx);
            let b: i64 = template.get(ty, tx);
            proof {
                assert(image.inside(y + ty, x + tx));
                assert(template.inside(ty as int, tx as int));
                lemma_product_bound(a as int, UNIT as int, b as int, UNIT as int);
                lemma_product_bound(a as int, UNIT as int, a as int, UNIT as int);
                lemma_product_bound(b as int, UNIT as int, b as int, UNIT as int);
                lemma_schwarz_step(
                    sum as int,
                    image_energy as int,
                    template_energy as int,
                    a as int,
                    b as int,
                );
                assert(a * a >= 0 && b * b >= 0) by (nonlinear_arith);
            }
            let wide_a: i128 = a as i128;
            let wide_b: i128 = b as i128;
            sum = sum + wide_a * wide_b;
            image_energy = image_energy + wide_a * wide_a;
            template_energy = template_energy + wide_b * wide_b;
            seen = seen + 1;
            tx += 1;
        }
        ty += 1;
    }
    proof {
        assert(0 <= image_energy * template_energy <= 4_000_000_000_000_000_000
            * 4_000_000_000_000_000_000) by (nonlinear_arith)
            requires
                0 <= image_energy <= 4_000_000_000_000_000_000,
                0 <= template_energy <= 4_000_000_000_000_000_000,
        ;
    }
    let product: i128 = image_energy * template_energy;
    let denominator: u64 = isqrt(product as u128);
    if denominator == 0 {
        return 0;
    }
    proof {
        lemma_root_bounds(sum as int, product as int, denominator as int);
        assert(-(UNIT * denominator) <= sum * UNIT <= UNIT * denominator) by (nonlinear_arith)
            requires
                -denominator <= sum <= denominator,
        ;
        lemma_round_div_mean(sum * UNIT, denominator as int, UNIT as int);
    }
    let value: i128 = div_round(sum * (UNIT as i128), denominator as i128);
    value as i64
}

/// The normalised cross-correlation of a raster with a template, for every
/// place at which the template lies within the raster: the cell `(y, x)` is
/// the sum of the products of the template with the window at `(y, x)`,
/// divided by the square root of the product of the energies of the two.
#[verifier::loop_isolation(false)]
pub fn cross_correlate(image: &Plane<i64>, template: &Plane<i64>) -> (result: Plane<i64>)
    requires
        image.wf(),
        template.wf(),
        template.height <= image.height,
        template.width <= image.width,
        image.bounded(UNIT as int),
        template.bounded(UNIT as int),
        template.height * template.width <= TEMPLATE_CELLS_MAX,
        (image.height - template.height + 1) * (image.width - template.width + 1) <= usize::MAX,
    ensures
        result.wf(),
        result.height == image.height - template.height + 1,
        result.width == image.width - template.width + 1,
        forall|y: int, x: int|
            result.inside(y, x) ==> #[trigger] result.at(y, x) == match_at(*image, *template, y, x),
        result.bounded(UNIT as int),
{
    proof {
        let h = image.height - template.height + 1;
        let w = image.width - template.width + 1;
        assert(h <= usize::MAX && w <= usize::MAX) by (nonlinear_arith)
            requires
                h >= 1,
                w >= 1,
                h * w <= usize::MAX,
        ;
    }
    let height: usize = image.height - template.height + 1;
    let width: usize = image.width - template.width + 1;
    let mut result: Plane<i64> = Plane::filled(height, width, 0);
    let mut y: usize = 0;
    while y < height
        invariant
            y <= height,
            result.wf() && result.height == height && result.width == width,
            forall|v: int, u: int|
                result.inside(v, u) && v < y ==> #[trigger] result.at(v, u) == match_at(
                    *image,
                    *template,
                    v,
                    u,
                ),
            forall|v: int, u: int|
                result.inside(v, u) ==> -UNIT <= #[trigger] result.at(v, u) <= UNIT,
        decreases height - y,
    {
        let mut x: usize = 0;
        while x < width
            invariant
                y < height,
                x <= width,
                result.wf() && result.height == height && result.width == width,
                forall|v: int, u: int|
                    result.inside(v, u) && (v < y || (v == y && u < x)) ==> #[trigger] result.at(
                        v,
                        u,
                    ) == match_at(*image, *template, v, u),
                forall|v: int, u: int|
                    result.inside(v, u) ==> -UNIT <= #[trigger] result.at(v, u) <= UNIT,
            decreases width - x,
        {
            let value = window_match(image, template, y, x);
            result.set(y, x, value);
            x += 1;
        }
        y += 1;
    }
    result
}

} // verus!
