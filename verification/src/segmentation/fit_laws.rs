//! What holds of the fit to points that lie exactly on a circle.
use vstd::prelude::*;
use crate::fixed::lemma_round_div_exact;
use crate::image_processing::gradient::{int_sqrt, is_sqrt, lemma_sqrt_unique};
use crate::order::{ascending, lemma_ascending};
use crate::segmentation::circle::Circle;
use crate::segmentation::fit_rank::{lemma_circle_points_span, lemma_regular_normal_equations};
use crate::segmentation::fit::{
    are_pixels, places_of, robust_pixel_fit, square_sum,
    are_weights, can_fit, centre_offset, det, det_x, det_y, error_sum, has_settled,
    moments, refine_fit, residual, residuals, robust_fit, scale_of, spread,
    suits, tukey_weights, unit_weights, weighted_fit, Moments, FIT_ROUNDS,
};

verus! {

/// Whether a point lies exactly on a circle.
pub open spec fn on_circle(point: (i64, i64), c: Circle) -> bool {
    (point.0 - c.x) * (point.0 - c.x) + (point.1 - c.y) * (point.1
        - c.y) == c.radius * c.radius
}

proof fn lemma_spread3(k: int, a: int, b: int, c: int)
    ensures
        k * (a + b + c) == k * a + k * b + k * c,
        (a + b + c) * k == k * a + k * b + k * c,
{
    assert(k * (a + b + c) == k * a + k * b + k * c) by (nonlinear_arith);
    assert((a + b + c) * k == k * (a + b + c)) by (nonlinear_arith);
}

proof fn lemma_swap(x: int, p: int, u: int)
    ensures
        x * (p * u) == p * (x * u),
        (x * p) * u == p * (x * u),
        (p * u) * x == p * (x * u),
{
    assert(x * (p * u) == p * (x * u)) by (nonlinear_arith);
    assert((x * p) * u == p * (x * u)) by (nonlinear_arith);
    assert((p * u) * x == p * (x * u)) by (nonlinear_arith);
}

/// An equation `q beta = e1 u + e2 v + e3`, times `x`.
proof fn lemma_weighted(x: int, q: int, beta: int, e1: int, u: int, e2: int, v: int, e3: int)
    requires
        q * beta == e1 * u + e2 * v + e3,
    ensures
        q * (x * beta) == e1 * (x * u) + e2 * (x * v) + e3 * x,
{
    lemma_swap(q, x, beta);
    assert(q * (x * beta) == x * (q * beta));
    lemma_spread3(x, e1 * u, e2 * v, e3);
    lemma_swap(x, e1, u);
    lemma_swap(x, e2, v);
    assert(x * e3 == e3 * x) by (nonlinear_arith);
}

/// The equation of a circle about `(a, b)` at the point `(u, v)`, the point
/// in pixels and the circle in `unit`ths of a pixel.
proof fn lemma_circle_equation(u: int, v: int, a: int, b: int, r: int, unit: int)
    requires
        (u * unit - a) * (u * unit - a) + (v * unit - b) * (v * unit - b) == r * r,
    ensures
        (unit * unit) * (-(u * u + v * v)) == (-2 * unit * a) * u + (-2 * unit * b) * v + (a * a + b
            * b - r * r),
{
    let s = u * unit;
    let t = v * unit;
    let q = unit * unit;
    assert((s - a) * (s - a) == s * s - 2 * (s * a) + a * a) by (nonlinear_arith);
    assert((t - b) * (t - b) == t * t - 2 * (t * b) + b * b) by (nonlinear_arith);
    assert(s * s == q * (u * u)) by (nonlinear_arith)
        requires
            s == u * unit,
            q == unit * unit,
    ;
    assert(t * t == q * (v * v)) by (nonlinear_arith)
        requires
            t == v * unit,
            q == unit * unit,
    ;
    assert((-2 * unit * a) * u == -2 * (s * a)) by (nonlinear_arith)
        requires
            s == u * unit,
    ;
    assert((-2 * unit * b) * v == -2 * (t * b)) by (nonlinear_arith)
        requires
            t == v * unit,
    ;
    let uu = u * u;
    let vv = v * v;
    assert(q * (-(uu + vv)) == -(q * uu) - (q * vv)) by (nonlinear_arith);
}

/// For points on a circle, the right-hand side of the normal equations is
/// the matrix of the system times the coefficients of the circle: with `a`
/// and `b` the centre from the first point, `q = 1`, `e1 = -2 a`,
/// `e2 = -2 b` and `e3 = a^2 + b^2 - r^2`.
proof fn lemma_moments_on_circle(
    points: Seq<(i64, i64)>,
    weights: Seq<i64>,
    c: Circle,
    n: nat,
)
    requires
        n <= points.len(),
        weights.len() == points.len(),
        points.len() > 0,
        forall|i: int| 0 <= i < points.len() ==> on_circle(#[trigger] points[i], c),
    ensures
        ({
            let m = moments(points, weights, n);
            let a = c.x - points[0].0;
            let b = c.y - points[0].1;
            let q = 1int;
            let e1 = -2 * a;
            let e2 = -2 * b;
            let e3 = a * a + b * b - c.radius * c.radius;
            &&& q * m.xb == e1 * m.xx + e2 * m.xy + e3 * m.x
            &&& q * m.yb == e1 * m.xy + e2 * m.yy + e3 * m.y
            &&& q * (-(m.xx + m.yy)) == e1 * m.x + e2 * m.y + e3 * m.w
        }),
    decreases n,
{
    if n > 0 {
        lemma_moments_on_circle(points, weights, c, (n - 1) as nat);
        let m0 = moments(points, weights, (n - 1) as nat);
        let m = moments(points, weights, n);
        let u = points[n - 1].0 - points[0].0;
        let v = points[n - 1].1 - points[0].1;
        let w = weights[n - 1] as int;
        let a = c.x - points[0].0;
        let b = c.y - points[0].1;
        let q = 1int;
        let e1 = -2 * a;
        let e2 = -2 * b;
        let r = c.radius as int;
        let e3 = a * a + b * b - r * r;
        let beta = -(u * u + v * v);
        assert(on_circle(points[n - 1], c));
        assert(points[n - 1].0 - c.x == u - a);
        assert(points[n - 1].1 - c.y == v - b);
        lemma_circle_equation(u, v, a, b, r, 1int);
        assert(q * beta == e1 * u + e2 * v + e3);
        // the equation, weighted with w u, with w v and with w
        let wu = w * u;
        let wv = w * v;
        lemma_weighted(wu, q, beta, e1, u, e2, v, e3);
        lemma_weighted(wv, q, beta, e1, u, e2, v, e3);
        lemma_weighted(w, q, beta, e1, u, e2, v, e3);
        assert(wu * u == w * (u * u) && wu * v == w * (u * v)) by (nonlinear_arith)
            requires
                wu == w * u,
        ;
        assert(wv * u == w * (u * v) && wv * v == w * (v * v)) by (nonlinear_arith)
            requires
                wv == w * v,
        ;
        let uu = u * u;
        let vv = v * v;
        assert(w * (-(uu + vv)) == -(w * uu + w * vv)) by (nonlinear_arith);
        let d_xx = w * uu;
        let d_xy = w * (u * v);
        let d_yy = w * vv;
        let d_xb = wu * beta;
        let d_yb = wv * beta;
        // every sum grows by its term
        assert(q * (m0.xb + d_xb) == q * m0.xb + q * d_xb) by (nonlinear_arith);
        assert(q * (m0.yb + d_yb) == q * m0.yb + q * d_yb) by (nonlinear_arith);
        let s0 = -(m0.xx + m0.yy);
        let ds = -(d_xx + d_yy);
        assert(q * (s0 + ds) == q * s0 + q * ds) by (nonlinear_arith);
        assert(e1 * (m0.xx + d_xx) == e1 * m0.xx + e1 * d_xx) by (nonlinear_arith);
        assert(e1 * (m0.xy + d_xy) == e1 * m0.xy + e1 * d_xy) by (nonlinear_arith);
        assert(e1 * (m0.x + wu) == e1 * m0.x + e1 * wu) by (nonlinear_arith);
        assert(e2 * (m0.xy + d_xy) == e2 * m0.xy + e2 * d_xy) by (nonlinear_arith);
        assert(e2 * (m0.yy + d_yy) == e2 * m0.yy + e2 * d_yy) by (nonlinear_arith);
        assert(e2 * (m0.y + wv) == e2 * m0.y + e2 * wv) by (nonlinear_arith);
        assert(e3 * (m0.x + wu) == e3 * m0.x + e3 * wu) by (nonlinear_arith);
        assert(e3 * (m0.y + wv) == e3 * m0.y + e3 * wv) by (nonlinear_arith);
        assert(e3 * (m0.w + w) == e3 * m0.w + e3 * w) by (nonlinear_arith);
        assert(m.xb == m0.xb + d_xb);
        assert(m.yb == m0.yb + d_yb);
        assert(-(m.xx + m.yy) == s0 + ds);
        assert(m.xx == m0.xx + d_xx && m.xy == m0.xy + d_xy && m.yy == m0.yy + d_yy);
        assert(m.x == m0.x + wu && m.y == m0.y + wv && m.w == m0.w + w);
        assert(q * d_xb == e1 * d_xx + e2 * d_xy + e3 * wu);
        assert(q * d_yb == e1 * d_xy + e2 * d_yy + e3 * wv);
        assert(q * ds == e1 * wu + e2 * wv + e3 * w);
        assert(q * m.xb == e1 * m.xx + e2 * m.xy + e3 * m.x);
        assert(q * m.yb == e1 * m.xy + e2 * m.yy + e3 * m.y);
        assert(q * (-(m.xx + m.yy)) == e1 * m.x + e2 * m.y + e3 * m.w);
    } else {
        let m = moments(points, weights, n);
        let a = c.x - points[0].0;
        let b = c.y - points[0].1;
        let q = 1int;
        let e1 = -2 * a;
        let e2 = -2 * b;
        let e3 = a * a + b * b - c.radius * c.radius;
        assert(m.xb == 0 && m.yb == 0 && m.xx == 0 && m.xy == 0 && m.yy == 0 && m.x == 0 && m.y == 0
            && m.w == 0);
        assert(q * 0 == 0 && e1 * 0 == 0 && e2 * 0 == 0 && e3 * 0 == 0) by (nonlinear_arith);
    }
}

/// The three numbers by which the right-hand side enters the determinant for
/// the first unknown.
spec fn minors_x(m: Moments) -> (int, int, int) {
    (m.yy * m.w - m.y * m.y, m.x * m.y - m.xy * m.w, m.xy * m.y - m.x * m.yy)
}

/// The three numbers by which the right-hand side enters the determinant for
/// the second unknown.
spec fn minors_y(m: Moments) -> (int, int, int) {
    (m.x * m.y - m.xy * m.w, m.xx * m.w - m.x * m.x, m.x * m.xy - m.xx * m.y)
}

spec fn combine(c: (int, int, int), k: (int, int, int)) -> int {
    c.0 * k.0 + c.1 * k.1 + c.2 * k.2
}

/// The determinants, by their columns.
proof fn lemma_determinants_by_columns(m: Moments)
    ensures
        det_x(m) == combine((m.xb, m.yb, -(m.xx + m.yy)), minors_x(m)),
        det_y(m) == combine((m.xb, m.yb, -(m.xx + m.yy)), minors_y(m)),
        det(m) == combine((m.xx, m.xy, m.x), minors_x(m)),
        det(m) == combine((m.xy, m.yy, m.y), minors_y(m)),
{
    let bs = -(m.xx + m.yy);
    let a = m.yy * m.w - m.y * m.y;
    let yw = m.yb * m.w;
    let ybs = m.y * bs;
    let yy = m.yb * m.y;
    let yybs = m.yy * bs;
    assert(m.xy * (yw - ybs) == m.xy * yw - m.xy * ybs) by (nonlinear_arith);
    assert(m.x * (yy - yybs) == m.x * yy - m.x * yybs) by (nonlinear_arith);
    assert(m.xy * yw == m.yb * (m.xy * m.w)) by (nonlinear_arith)
        requires
            yw == m.yb * m.w,
    ;
    assert(m.xy * ybs == bs * (m.xy * m.y)) by (nonlinear_arith)
        requires
            ybs == m.y * bs,
    ;
    assert(m.x * yy == m.yb * (m.x * m.y)) by (nonlinear_arith)
        requires
            yy == m.yb * m.y,
    ;
    assert(m.x * yybs == bs * (m.x * m.yy)) by (nonlinear_arith)
        requires
            yybs == m.yy * bs,
    ;
    let k1 = m.x * m.y - m.xy * m.w;
    let k2 = m.xy * m.y - m.x * m.yy;
    assert(m.yb * k1 == m.yb * (m.x * m.y) - m.yb * (m.xy * m.w)) by (nonlinear_arith)
        requires
            k1 == m.x * m.y - m.xy * m.w,
    ;
    assert(bs * k2 == bs * (m.xy * m.y) - bs * (m.x * m.yy)) by (nonlinear_arith)
        requires
            k2 == m.xy * m.y - m.x * m.yy,
    ;
    assert(det_x(m) == m.xb * a + m.yb * k1 + bs * k2);
    // the determinant of the system, by its first column
    let b1 = m.xy * m.w - m.y * m.x;
    let c1 = m.xy * m.y - m.yy * m.x;
    assert(k1 == -b1) by (nonlinear_arith)
        requires
            k1 == m.x * m.y - m.xy * m.w,
            b1 == m.xy * m.w - m.y * m.x,
    ;
    assert(c1 == k2) by (nonlinear_arith)
        requires
            c1 == m.xy * m.y - m.yy * m.x,
            k2 == m.xy * m.y - m.x * m.yy,
    ;
    assert(m.xy * k1 == -(m.xy * b1)) by (nonlinear_arith)
        requires
            k1 == -b1,
    ;
    assert(det(m) == m.xx * a + m.xy * k1 + m.x * k2);
    // the determinant for the second unknown
    let e = yw - ybs;
    let g = m.xy * bs - m.yb * m.x;
    let l1 = m.xx * m.w - m.x * m.x;
    let l2 = m.x * m.xy - m.xx * m.y;
    assert(m.xx * e == m.yb * (m.xx * m.w) - bs * (m.xx * m.y)) by (nonlinear_arith)
        requires
            e == yw - ybs,
            yw == m.yb * m.w,
            ybs == m.y * bs,
    ;
    assert(m.xb * b1 == -(m.xb * k1)) by (nonlinear_arith)
        requires
            k1 == -b1,
    ;
    assert(m.x * g == bs * (m.x * m.xy) - m.yb * (m.x * m.x)) by (nonlinear_arith)
        requires
            g == m.xy * bs - m.yb * m.x,
    ;
    assert(m.yb * l1 == m.yb * (m.xx * m.w) - m.yb * (m.x * m.x)) by (nonlinear_arith)
        requires
            l1 == m.xx * m.w - m.x * m.x,
    ;
    assert(bs * l2 == bs * (m.x * m.xy) - bs * (m.xx * m.y)) by (nonlinear_arith)
        requires
            l2 == m.x * m.xy - m.xx * m.y,
    ;
    assert(det_y(m) == m.xb * k1 + m.yb * l1 + bs * l2);
    // the determinant of the system, by its second column
    assert(m.xy * b1 == -(m.xy * k1)) by (nonlinear_arith)
        requires
            k1 == -b1,
    ;
    assert(m.xx * a == m.yy * (m.xx * m.w) - m.xx * (m.y * m.y)) by (nonlinear_arith)
        requires
            a == m.yy * m.w - m.y * m.y,
    ;
    assert(m.x * c1 == m.xy * (m.x * m.y) - m.yy * (m.x * m.x)) by (nonlinear_arith)
        requires
            c1 == m.xy * m.y - m.yy * m.x,
    ;
    assert(m.yy * l1 == m.yy * (m.xx * m.w) - m.yy * (m.x * m.x)) by (nonlinear_arith)
        requires
            l1 == m.xx * m.w - m.x * m.x,
    ;
    assert(m.y * l2 == m.xy * (m.x * m.y) - m.xx * (m.y * m.y)) by (nonlinear_arith)
        requires
            l2 == m.x * m.xy - m.xx * m.y,
    ;
    assert(det(m) == m.xy * k1 + m.yy * l1 + m.y * l2);
}

/// The other columns of the system vanish against the minors of a column.
proof fn lemma_columns_vanish(m: Moments)
    ensures
        combine((m.xy, m.yy, m.y), minors_x(m)) == 0,
        combine((m.x, m.y, m.w), minors_x(m)) == 0,
        combine((m.xx, m.xy, m.x), minors_y(m)) == 0,
        combine((m.x, m.y, m.w), minors_y(m)) == 0,
{
    let k0 = m.yy * m.w - m.y * m.y;
    let k1 = m.x * m.y - m.xy * m.w;
    let k2 = m.xy * m.y - m.x * m.yy;
    let l1 = m.xx * m.w - m.x * m.x;
    let l2 = m.x * m.xy - m.xx * m.y;
    let xy = m.xy;
    let yy = m.yy;
    let xx = m.xx;
    let x = m.x;
    let y = m.y;
    let w = m.w;
    assert(xy * k0 == xy * (yy * w) - xy * (y * y)) by (nonlinear_arith)
        requires
            k0 == yy * w - y * y,
    ;
    assert(yy * k1 == yy * (x * y) - xy * (yy * w)) by (nonlinear_arith)
        requires
            k1 == x * y - xy * w,
    ;
    assert(y * k2 == xy * (y * y) - yy * (x * y)) by (nonlinear_arith)
        requires
            k2 == xy * y - x * yy,
    ;
    assert(x * k0 == x * (yy * w) - x * (y * y)) by (nonlinear_arith)
        requires
            k0 == yy * w - y * y,
    ;
    assert(y * k1 == x * (y * y) - xy * (y * w)) by (nonlinear_arith)
        requires
            k1 == x * y - xy * w,
    ;
    assert(w * k2 == xy * (y * w) - x * (yy * w)) by (nonlinear_arith)
        requires
            k2 == xy * y - x * yy,
    ;
    assert(xx * k1 == xx * (x * y) - xx * (xy * w)) by (nonlinear_arith)
        requires
            k1 == x * y - xy * w,
    ;
    assert(xy * l1 == xx * (xy * w) - xy * (x * x)) by (nonlinear_arith)
        requires
            l1 == xx * w - x * x,
    ;
    assert(x * l2 == xy * (x * x) - xx * (x * y)) by (nonlinear_arith)
        requires
            l2 == x * xy - xx * y,
    ;
    assert(x * k1 == y * (x * x) - xy * (x * w)) by (nonlinear_arith)
        requires
            k1 == x * y - xy * w,
    ;
    assert(y * l1 == xx * (y * w) - y * (x * x)) by (nonlinear_arith)
        requires
            l1 == xx * w - x * x,
    ;
    assert(w * l2 == xy * (x * w) - xx * (y * w)) by (nonlinear_arith)
        requires
            l2 == x * xy - xx * y,
    ;
}

/// A combination of columns against minors is the combination of the
/// columns against the minors.
proof fn lemma_combine_columns(
    q: int,
    r: (int, int, int),
    e1: int,
    a: (int, int, int),
    e2: int,
    b: (int, int, int),
    e3: int,
    c: (int, int, int),
    k: (int, int, int),
)
    requires
        q * r.0 == e1 * a.0 + e2 * b.0 + e3 * c.0,
        q * r.1 == e1 * a.1 + e2 * b.1 + e3 * c.1,
        q * r.2 == e1 * a.2 + e2 * b.2 + e3 * c.2,
    ensures
        q * combine(r, k) == e1 * combine(a, k) + e2 * combine(b, k) + e3 * combine(c, k),
{
    lemma_spread3(q, r.0 * k.0, r.1 * k.1, r.2 * k.2);
    lemma_swap(q, r.0, k.0);
    lemma_swap(q, r.1, k.1);
    lemma_swap(q, r.2, k.2);
    assert(q * (r.0 * k.0) == (q * r.0) * k.0) by (nonlinear_arith);
    assert(q * (r.1 * k.1) == (q * r.1) * k.1) by (nonlinear_arith);
    assert(q * (r.2 * k.2) == (q * r.2) * k.2) by (nonlinear_arith);
    lemma_spread3(k.0, e1 * a.0, e2 * b.0, e3 * c.0);
    lemma_spread3(k.1, e1 * a.1, e2 * b.1, e3 * c.1);
    lemma_spread3(k.2, e1 * a.2, e2 * b.2, e3 * c.2);
    lemma_swap(k.0, e1, a.0);
    lemma_swap(k.0, e2, b.0);
    lemma_swap(k.0, e3, c.0);
    lemma_swap(k.1, e1, a.1);
    lemma_swap(k.1, e2, b.1);
    lemma_swap(k.1, e3, c.1);
    lemma_swap(k.2, e1, a.2);
    lemma_swap(k.2, e2, b.2);
    lemma_swap(k.2, e3, c.2);
    assert(k.0 * a.0 == a.0 * k.0 && k.0 * b.0 == b.0 * k.0 && k.0 * c.0 == c.0 * k.0) by (nonlinear_arith);
    assert(k.1 * a.1 == a.1 * k.1 && k.1 * b.1 == b.1 * k.1 && k.1 * c.1 == c.1 * k.1) by (nonlinear_arith);
    assert(k.2 * a.2 == a.2 * k.2 && k.2 * b.2 == b.2 * k.2 && k.2 * c.2 == c.2 * k.2) by (nonlinear_arith);
    lemma_spread3(e1, a.0 * k.0, a.1 * k.1, a.2 * k.2);
    lemma_spread3(e2, b.0 * k.0, b.1 * k.1, b.2 * k.2);
    lemma_spread3(e3, c.0 * k.0, c.1 * k.1, c.2 * k.2);
}

/// Cramer's rule: where the right-hand side of the normal equations is the
/// matrix times `(e1, e2, e3) / q`, the determinants for the first two
/// unknowns are `e1 / q` and `e2 / q` times the determinant of the system.
proof fn lemma_cramer(m: Moments, q: int, e1: int, e2: int, e3: int)
    requires
        q * m.xb == e1 * m.xx + e2 * m.xy + e3 * m.x,
        q * m.yb == e1 * m.xy + e2 * m.yy + e3 * m.y,
        q * (-(m.xx + m.yy)) == e1 * m.x + e2 * m.y + e3 * m.w,
    ensures
        q * det_x(m) == e1 * det(m),
        q * det_y(m) == e2 * det(m),
{
    lemma_determinants_by_columns(m);
    lemma_columns_vanish(m);
    let rhs = (m.xb, m.yb, -(m.xx + m.yy));
    let first = (m.xx, m.xy, m.x);
    let second = (m.xy, m.yy, m.y);
    let third = (m.x, m.y, m.w);
    lemma_combine_columns(q, rhs, e1, first, e2, second, e3, third, minors_x(m));
    lemma_combine_columns(q, rhs, e1, first, e2, second, e3, third, minors_y(m));
    assert(e2 * 0 == 0 && e3 * 0 == 0 && e1 * 0 == 0);
}

/// For points on a circle, the spread about its centre is the square of its
/// radius times the sum of the weights.
proof fn lemma_spread_on_circle(
    points: Seq<(i64, i64)>,
    weights: Seq<i64>,
    c: Circle,
    n: nat,
)
    requires
        n <= points.len(),
        weights.len() == points.len(),
        forall|i: int| 0 <= i < points.len() ==> on_circle(#[trigger] points[i], c),
    ensures
        spread(points, weights, c.x as int, c.y as int, n) == (c.radius * c.radius) * moments(
            points,
            weights,
            n,
        ).w,
    decreases n,
{
    let r2 = c.radius * c.radius;
    if n > 0 {
        lemma_spread_on_circle(points, weights, c, (n - 1) as nat);
        assert(on_circle(points[n - 1], c));
        let w0 = moments(points, weights, (n - 1) as nat).w;
        let w = weights[n - 1] as int;
        assert(r2 * (w0 + w) == r2 * w0 + w * r2) by (nonlinear_arith);
        assert(moments(points, weights, n).w == w0 + w);
    } else {
        assert(moments(points, weights, n).w == 0);
        assert(r2 * 0 == 0) by (nonlinear_arith);
    }
}

/// The sum of the weights is not below 0.
proof fn lemma_weight_sum(points: Seq<(i64, i64)>, weights: Seq<i64>, n: nat)
    requires
        are_weights(weights, points),
        n <= points.len(),
    ensures
        moments(points, weights, n).w >= 0,
    decreases n,
{
    if n > 0 {
        lemma_weight_sum(points, weights, (n - 1) as nat);
    }
}

/// Where all weights are 0, so are the sums.
proof fn lemma_no_weight(points: Seq<(i64, i64)>, weights: Seq<i64>, n: nat)
    requires
        can_fit(points),
        are_weights(weights, points),
        n <= points.len(),
        moments(points, weights, n).w <= 0,
    ensures
        moments(points, weights, n).w == 0,
        moments(points, weights, n).x == 0,
        moments(points, weights, n).y == 0,
    decreases n,
{
    if n > 0 {
        lemma_weight_sum(points, weights, (n - 1) as nat);
        let w = weights[n - 1] as int;
        assert(w == 0);
        lemma_no_weight(points, weights, (n - 1) as nat);
        let u = points[n - 1].0 - points[0].0;
        let v = points[n - 1].1 - points[0].1;
        assert(w * u == 0 && w * v == 0) by (nonlinear_arith)
            requires
                w == 0,
        ;
    }
}

/// Where the determinant for a coordinate is `-2 a` times the determinant
/// of the system, the coordinate of the centre is `a`.
proof fn lemma_offset_exact(n: int, d: int, a: int)
    requires
        d != 0,
        n == (-2 * a) * d,
    ensures
        centre_offset(n, d) == a,
{
    let ad = a * d;
    assert((-2 * a) * d == -2 * ad) by (nonlinear_arith)
        requires
            ad == a * d,
    ;
    assert(n == -2 * ad);
    if d > 0 {
        assert(a * (2 * d) == 2 * ad) by (nonlinear_arith)
            requires
                ad == a * d,
        ;
        lemma_round_div_exact(a, 2 * d);
    } else {
        assert(a * (-2 * d) == -2 * ad) by (nonlinear_arith)
            requires
                ad == a * d,
        ;
        lemma_round_div_exact(a, -2 * d);
    }
}

/// With any weights, the circle that fits points on a circle best is that
/// circle, where the normal equations are not singular.
pub proof fn lemma_weighted_fit_where_regular(points: Seq<(i64, i64)>, weights: Seq<i64>, c: Circle)
    requires
        suits(c, points),
        are_weights(weights, points),
        forall|i: int| 0 <= i < points.len() ==> on_circle(#[trigger] points[i], c),
        det(moments(points, weights, points.len())) != 0,
    ensures
        weighted_fit(points, weights) == Some(c),
{
    let m = moments(points, weights, points.len());
    let d = det(m);
    let a = c.x - points[0].0;
    let b = c.y - points[0].1;
    let q = 1int;
    let e1 = -2 * a;
    let e2 = -2 * b;
    let e3 = a * a + b * b - c.radius * c.radius;
    lemma_moments_on_circle(points, weights, c, points.len());
    lemma_cramer(m, q, e1, e2, e3);
    lemma_offset_exact(det_x(m), d, a);
    lemma_offset_exact(det_y(m), d, b);
    // the weights do not all vanish, or the system would be singular
    if m.w <= 0 {
        lemma_no_weight(points, weights, points.len());
        let t1 = m.yy * m.w - m.y * m.y;
        let t2 = m.xy * m.w - m.y * m.x;
        let t3 = m.xy * m.y - m.yy * m.x;
        assert(t1 == 0 && t2 == 0 && t3 == 0) by (nonlinear_arith)
            requires
                t1 == m.yy * m.w - m.y * m.y,
                t2 == m.xy * m.w - m.y * m.x,
                t3 == m.xy * m.y - m.yy * m.x,
                m.w == 0,
                m.x == 0,
                m.y == 0,
        ;
        assert(m.xx * t1 == 0 && m.xy * t2 == 0 && m.x * t3 == 0) by (nonlinear_arith)
            requires
                t1 == 0,
                t2 == 0,
                t3 == 0,
        ;
        assert(false);
    }
    lemma_spread_on_circle(points, weights, c, points.len());
    let r2 = c.radius * c.radius;
    lemma_round_div_exact(r2, m.w);
    lemma_square_root(c.radius as int);
    assert(c.x == points[0].0 + a);
    assert(c.y == points[0].1 + b);
}

/// A number that is not negative is the square root of its square.
proof fn lemma_square_root(r: int)
    requires
        r >= 0,
    ensures
        is_sqrt(r * r, r),
        int_sqrt(r * r) == r,
        r > 0 ==> r * r > 0,
{
    assert(r * r < (r + 1) * (r + 1) && (r > 0 ==> r * r > 0)) by (nonlinear_arith)
        requires
            r >= 0,
    ;
    lemma_sqrt_unique(r * r, r, int_sqrt(r * r));
}

proof fn lemma_zero_sum(e: Seq<i64>, n: nat)
    requires
        n <= e.len(),
        forall|i: int| 0 <= i < e.len() ==> #[trigger] e[i] == 0,
    ensures
        square_sum(e, n) == 0,
    decreases n,
{
    if n > 0 {
        lemma_zero_sum(e, (n - 1) as nat);
        assert(e[n - 1] * e[n - 1] == 0) by (nonlinear_arith)
            requires
                e[n - 1] == 0,
        ;
    }
}

proof fn lemma_zero_error(e: Seq<i64>, weights: Seq<i64>, n: nat)
    requires
        n <= e.len(),
        weights.len() == e.len(),
        forall|i: int| 0 <= i < e.len() ==> #[trigger] e[i] == 0,
    ensures
        error_sum(e, weights, n) == 0,
    decreases n,
{
    if n > 0 {
        lemma_zero_error(e, weights, (n - 1) as nat);
        assert(weights[n - 1] * (e[n - 1] * e[n - 1]) == 0) by (nonlinear_arith)
            requires
                e[n - 1] == 0,
        ;
    }
}

/// No circle is fitted to points whose normal equations are singular.
pub proof fn lemma_no_fit_where_singular(points: Seq<(i64, i64)>)
    requires
        det(moments(points, unit_weights(points), points.len())) == 0,
    ensures
        robust_fit(points).is_none(),
        weighted_fit(points, unit_weights(points)).is_none(),
{
}

/// A circle is recovered exactly from points that lie exactly on it: the
/// robust fit to three or more points on a circle is that circle, centre and
/// radius, where the normal equations of the points are not singular.
pub proof fn lemma_robust_fit_where_regular(points: Seq<(i64, i64)>, c: Circle)
    requires
        suits(c, points),
        forall|i: int| 0 <= i < points.len() ==> on_circle(#[trigger] points[i], c),
        det(moments(points, unit_weights(points), points.len())) != 0,
    ensures
        robust_fit(points) == Some(c),
{
    let units = unit_weights(points);
    lemma_weighted_fit_where_regular(points, units, c);
    // all residuals are 0: the weights stay 1, and so does the circle
    let e = residuals(points, c);
    lemma_square_root(c.radius as int);
    assert forall|i: int| 0 <= i < e.len() implies #[trigger] e[i] == 0 by {
        assert(on_circle(points[i], c));
        let dx = points[i].0 - c.x;
        let dy = points[i].1 - c.y;
        assert(dx * dx + dy * dy == c.radius * c.radius);
        let gap = int_sqrt(dx * dx + dy * dy) - c.radius;
        assert(gap == 0);
        assert(residual(points[i], c) == 0);
    }
    lemma_zero_sum(e, e.len());
    lemma_ascending(e);
    let sorted = ascending(e);
    assert forall|i: int| 0 <= i < sorted.len() implies #[trigger] sorted[i] == 0 by {
        assert(e.contains(sorted[i]));
    }
    let n = e.len() as int;
    assert(sorted[n / 2] * sorted[n / 2] == 0) by (nonlinear_arith)
        requires
            sorted[n / 2] == 0,
    ;
    if n % 2 == 0 {
        assert(sorted[n / 2 - 1] * sorted[n / 2 - 1] == 0) by (nonlinear_arith)
            requires
                sorted[n / 2 - 1] == 0,
        ;
    }
    assert(scale_of(e).0 == 0);
    let weights = tukey_weights(e);
    assert(weights =~= units);
    lemma_zero_error(e, units, points.len());
    assert(has_settled(0, 0));
    assert(refine_fit(points, c, 0, FIT_ROUNDS as nat) == c);
}

/// Whether the points at `i`, `j` and `k` are three different points.
pub open spec fn are_three_points(points: Seq<(i64, i64)>, i: int, j: int, k: int) -> bool {
    &&& 0 <= i < points.len()
    &&& 0 <= j < points.len()
    &&& 0 <= k < points.len()
    &&& points[i] != points[j]
    &&& points[i] != points[k]
    &&& points[j] != points[k]
}

/// The normal equations of points on a circle, three of which differ and
/// count, are not singular.
pub proof fn lemma_circle_is_regular(
    points: Seq<(i64, i64)>,
    weights: Seq<i64>,
    c: Circle,
    i: int,
    j: int,
    k: int,
)
    requires
        are_weights(weights, points),
        forall|n: int| 0 <= n < points.len() ==> on_circle(#[trigger] points[n], c),
        are_three_points(points, i, j, k),
        weights[i] > 0,
        weights[j] > 0,
        weights[k] > 0,
    ensures
        det(moments(points, weights, points.len())) != 0,
{
    assert(on_circle(points[i], c));
    assert(on_circle(points[j], c));
    assert(on_circle(points[k], c));
    lemma_circle_points_span(
        points[i],
        points[j],
        points[k],
        c.x as int,
        c.y as int,
        c.radius * c.radius,
        1int,
    );
    lemma_regular_normal_equations(points, weights, i, j, k);
}

/// With any weights, the circle that fits points on a circle best is that
/// circle, where three different points have a weight above 0.
pub proof fn lemma_weighted_fit_of_circle(
    points: Seq<(i64, i64)>,
    weights: Seq<i64>,
    c: Circle,
    i: int,
    j: int,
    k: int,
)
    requires
        suits(c, points),
        are_weights(weights, points),
        forall|n: int| 0 <= n < points.len() ==> on_circle(#[trigger] points[n], c),
        are_three_points(points, i, j, k),
        weights[i] > 0,
        weights[j] > 0,
        weights[k] > 0,
    ensures
        weighted_fit(points, weights) == Some(c),
{
    lemma_circle_is_regular(points, weights, c, i, j, k);
    lemma_weighted_fit_where_regular(points, weights, c);
}

/// A circle is recovered exactly from points that lie exactly on it: the
/// robust fit to points on a circle, three of which differ, is that circle,
/// centre and radius.
pub proof fn lemma_robust_fit_of_circle(
    points: Seq<(i64, i64)>,
    c: Circle,
    i: int,
    j: int,
    k: int,
)
    requires
        suits(c, points),
        forall|n: int| 0 <= n < points.len() ==> on_circle(#[trigger] points[n], c),
        are_three_points(points, i, j, k),
    ensures
        robust_fit(points) == Some(c),
{
    lemma_circle_is_regular(points, unit_weights(points), c, i, j, k);
    lemma_robust_fit_where_regular(points, c);
}

/// The same of pixels: the robust fit to pixels on a circle, three of which
/// differ, is that circle.
pub proof fn lemma_robust_fit_of_pixels(
    pixels: Seq<(usize, usize)>,
    c: Circle,
    i: int,
    j: int,
    k: int,
)
    requires
        are_pixels(pixels),
        suits(c, places_of(pixels)),
        forall|n: int| 0 <= n < pixels.len() ==> on_circle(#[trigger] places_of(pixels)[n], c),
        are_three_points(places_of(pixels), i, j, k),
    ensures
        robust_pixel_fit(pixels) == Some(c),
{
    lemma_robust_fit_of_circle(places_of(pixels), c, i, j, k);
}

} // verus!
