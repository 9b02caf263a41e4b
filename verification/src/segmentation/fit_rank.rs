//! When the normal equations of a fit have one solution: where three of the
//! points that count do not lie on one line.
use vstd::prelude::*;
use crate::segmentation::fit::{are_weights, det, moments, Moments};

verus! {

/// Twice the area of the triangle of three points, with its sign; 0 where
/// the points lie on one line.
pub open spec fn area2(p: (i64, i64), q: (i64, i64), r: (i64, i64)) -> int {
    (q.0 - p.0) * (r.1 - p.1) - (r.0 - p.0) * (q.1 - p.1)
}

/// The three rows of the normal equations, applied to `(a, b, c)`.
pub open spec fn row_x(m: Moments, a: int, b: int, c: int) -> int {
    m.xx * a + m.xy * b + m.x * c
}

pub open spec fn row_y(m: Moments, a: int, b: int, c: int) -> int {
    m.xy * a + m.yy * b + m.y * c
}

pub open spec fn row_w(m: Moments, a: int, b: int, c: int) -> int {
    m.x * a + m.y * b + m.w * c
}

/// The form of the normal equations at `(a, b, c)`: the weighted sum of the
/// squares of `a u + b v + c` over the points `(u, v)`.
pub open spec fn quad(m: Moments, a: int, b: int, c: int) -> int {
    a * row_x(m, a, b, c) + b * row_y(m, a, b, c) + c * row_w(m, a, b, c)
}

proof fn lemma_add_mul(p: int, k: int, q: int, a: int)
    ensures
        (p + k * q) * a == p * a + k * (q * a),
{
    assert((p + k * q) * a == p * a + (k * q) * a) by (nonlinear_arith);
    assert((k * q) * a == k * (q * a)) by (nonlinear_arith);
}

proof fn lemma_three(k: int, x: int, y: int, z: int)
    ensures
        k * x + k * y + k * z == k * (x + y + z),
{
    assert(k * (x + y + z) == k * x + k * y + k * z) by (nonlinear_arith);
}

proof fn lemma_line_times(t: int, a: int, u: int, b: int, v: int, c: int)
    ensures
        (t * u) * a + (t * v) * b + t * c == t * (a * u + b * v + c),
{
    assert((t * u) * a == t * (a * u)) by (nonlinear_arith);
    assert((t * v) * b == t * (b * v)) by (nonlinear_arith);
    lemma_three(t, a * u, b * v, c);
}

/// One row of the normal equations with one more point.
proof fn lemma_row_step(
    p: int,
    q: int,
    r: int,
    k: int,
    t: int,
    u: int,
    v: int,
    a: int,
    b: int,
    c: int,
)
    ensures
        (p + k * (t * u)) * a + (q + k * (t * v)) * b + (r + k * t) * c == (p * a + q * b + r * c)
            + k * (t * (a * u + b * v + c)),
{
    lemma_add_mul(p, k, t * u, a);
    lemma_add_mul(q, k, t * v, b);
    lemma_add_mul(r, k, t, c);
    lemma_three(k, (t * u) * a, (t * v) * b, t * c);
    lemma_line_times(t, a, u, b, v, c);
}

proof fn lemma_factor(a: int, k: int, t: int, l: int)
    ensures
        a * (k * (t * l)) == (a * t) * (k * l),
{
    assert(a * (k * (t * l)) == (a * t) * (k * l)) by (nonlinear_arith);
}

/// The form with one more point `(u, v)` of the weight `k`.
proof fn lemma_quad_step(m0: Moments, m: Moments, u: int, v: int, k: int, a: int, b: int, c: int)
    requires
        m.w == m0.w + k,
        m.x == m0.x + k * u,
        m.y == m0.y + k * v,
        m.xx == m0.xx + k * (u * u),
        m.xy == m0.xy + k * (u * v),
        m.yy == m0.yy + k * (v * v),
    ensures
        quad(m, a, b, c) == quad(m0, a, b, c) + k * ((a * u + b * v + c) * (a * u + b * v + c)),
{
    let l = a * u + b * v + c;
    assert(k * u == k * (1 * u) && k == k * 1 && k * v == k * (1 * v));
    lemma_row_step(m0.xx, m0.xy, m0.x, k, u, u, v, a, b, c);
    assert(u * v == v * u) by (nonlinear_arith);
    lemma_row_step(m0.xy, m0.yy, m0.y, k, v, u, v, a, b, c);
    lemma_row_step(m0.x, m0.y, m0.w, k, 1, u, v, a, b, c);
    assert(1 * l == l);
    assert(row_x(m, a, b, c) == row_x(m0, a, b, c) + k * (u * l));
    assert(row_y(m, a, b, c) == row_y(m0, a, b, c) + k * (v * l));
    assert(row_w(m, a, b, c) == row_w(m0, a, b, c) + k * l);
    let x0 = row_x(m0, a, b, c);
    let y0 = row_y(m0, a, b, c);
    let w0 = row_w(m0, a, b, c);
    assert(a * (x0 + k * (u * l)) == a * x0 + a * (k * (u * l))) by (nonlinear_arith);
    assert(b * (y0 + k * (v * l)) == b * y0 + b * (k * (v * l))) by (nonlinear_arith);
    assert(c * (w0 + k * l) == c * w0 + c * (k * l)) by (nonlinear_arith);
    lemma_factor(a, k, u, l);
    lemma_factor(b, k, v, l);
    let kl = k * l;
    assert((a * u) * kl + (b * v) * kl + c * kl == (a * u + b * v + c) * kl) by (nonlinear_arith);
    assert(l * (k * l) == k * (l * l)) by (nonlinear_arith);
}

/// The form is never negative, and where it is 0, every point that counts
/// lies on the line `a u + b v + c = 0`.
proof fn lemma_quad_zero(
    points: Seq<(i64, i64)>,
    weights: Seq<i64>,
    n: nat,
    a: int,
    b: int,
    c: int,
)
    requires
        are_weights(weights, points),
        n <= points.len(),
    ensures
        quad(moments(points, weights, n), a, b, c) >= 0,
        quad(moments(points, weights, n), a, b, c) == 0 ==> forall|i: int|
            0 <= i < n && weights[i] > 0 ==> a * (#[trigger] points[i].0 - points[0].0) + b * (
            points[i].1 - points[0].1) + c == 0,
    decreases n,
{
    if n == 0 {
        let m = moments(points, weights, 0);
        assert(m.xx * a + m.xy * b + m.x * c == 0) by (nonlinear_arith)
            requires
                m.xx == 0,
                m.xy == 0,
                m.x == 0,
        ;
        assert(m.xy * a + m.yy * b + m.y * c == 0) by (nonlinear_arith)
            requires
                m.xy == 0,
                m.yy == 0,
                m.y == 0,
        ;
        assert(m.x * a + m.y * b + m.w * c == 0) by (nonlinear_arith)
            requires
                m.x == 0,
                m.y == 0,
                m.w == 0,
        ;
        assert(a * 0 + b * 0 + c * 0 == 0);
    } else {
        lemma_quad_zero(points, weights, (n - 1) as nat, a, b, c);
        let m0 = moments(points, weights, (n - 1) as nat);
        let m = moments(points, weights, n);
        let u = points[n - 1].0 - points[0].0;
        let v = points[n - 1].1 - points[0].1;
        let k = weights[n - 1] as int;
        let l = a * u + b * v + c;
        lemma_quad_step(m0, m, u, v, k, a, b, c);
        assert(l * l >= 0) by (nonlinear_arith);
        assert(k * (l * l) >= 0) by (nonlinear_arith)
            requires
                k >= 0,
                l * l >= 0,
        ;
        if quad(m, a, b, c) == 0 {
            assert(quad(m0, a, b, c) == 0);
            assert(k * (l * l) == 0);
            if k > 0 {
                assert(l == 0) by (nonlinear_arith)
                    requires
                        k > 0,
                        k * (l * l) == 0,
                ;
            }
        }
    }
}

/// The first column of the adjugate of the normal equations.
pub open spec fn minor_a(m: Moments) -> int {
    m.yy * m.w - m.y * m.y
}

pub open spec fn minor_b(m: Moments) -> int {
    m.x * m.y - m.xy * m.w
}

pub open spec fn minor_c(m: Moments) -> int {
    m.xy * m.y - m.yy * m.x
}

/// The normal equations take the first column of their adjugate to the
/// determinant, 0 and 0; so the form there is the determinant times the first
/// minor.
proof fn lemma_adjugate_column(m: Moments)
    ensures
        quad(m, minor_a(m), minor_b(m), minor_c(m)) == minor_a(m) * det(m),
{
    let xx = m.xx;
    let xy = m.xy;
    let yy = m.yy;
    let x = m.x;
    let y = m.y;
    let w = m.w;
    let a = yy * w - y * y;
    let b = x * y - xy * w;
    let c = xy * y - yy * x;
    // the first row gives the determinant
    assert(xy * (x * y - xy * w) == -(xy * (xy * w - y * x))) by (nonlinear_arith);
    assert(row_x(m, a, b, c) == det(m));
    // the second row gives 0
    assert(xy * (yy * w - y * y) == xy * (yy * w) - xy * (y * y)) by (nonlinear_arith);
    assert(yy * (x * y - xy * w) == yy * (x * y) - yy * (xy * w)) by (nonlinear_arith);
    assert(y * (xy * y - yy * x) == y * (xy * y) - y * (yy * x)) by (nonlinear_arith);
    assert(xy * (yy * w) == yy * (xy * w)) by (nonlinear_arith);
    assert(xy * (y * y) == y * (xy * y)) by (nonlinear_arith);
    assert(yy * (x * y) == y * (yy * x)) by (nonlinear_arith);
    assert(row_y(m, a, b, c) == 0);
    // the third row gives 0
    assert(x * (yy * w - y * y) == x * (yy * w) - x * (y * y)) by (nonlinear_arith);
    assert(y * (x * y - xy * w) == y * (x * y) - y * (xy * w)) by (nonlinear_arith);
    assert(w * (xy * y - yy * x) == w * (xy * y) - w * (yy * x)) by (nonlinear_arith);
    assert(x * (yy * w) == w * (yy * x)) by (nonlinear_arith);
    assert(x * (y * y) == y * (x * y)) by (nonlinear_arith);
    assert(y * (xy * w) == w * (xy * y)) by (nonlinear_arith);
    assert(row_w(m, a, b, c) == 0);
    assert(b * 0 == 0 && c * 0 == 0);
}

/// The form at `(0, w, -y)` is the first minor times the sum of the weights.
proof fn lemma_first_minor(m: Moments)
    ensures
        quad(m, 0, m.w, -m.y) == m.w * minor_a(m),
{
    let yy = m.yy;
    let y = m.y;
    let w = m.w;
    assert(m.xx * 0 == 0 && m.xy * 0 == 0 && m.x * 0 == 0);
    assert(0 * row_x(m, 0, w, -y) == 0);
    assert(y * w + w * (-y) == 0) by (nonlinear_arith);
    assert(row_w(m, 0, w, -y) == 0);
    assert((-y) * 0 == 0);
    assert(m.xy * 0 + yy * w + y * (-y) == yy * w - y * y) by (nonlinear_arith);
    assert(row_y(m, 0, w, -y) == minor_a(m));
}

/// The form at `(0, 0, 1)` is the sum of the weights.
proof fn lemma_weight_form(m: Moments)
    ensures
        quad(m, 0, 0, 1) == m.w,
{
    assert(m.x * 0 + m.y * 0 + m.w * 1 == m.w);
    assert(0 * row_x(m, 0, 0, 1) == 0);
    assert(0 * row_y(m, 0, 0, 1) == 0);
}

/// Two lines through the origin that are both perpendicular to `(a, b)` span
/// no area, unless `a` is 0.
proof fn lemma_perpendicular(a: int, b: int, dx: int, dy: int, ex: int, ey: int)
    requires
        a * dx + b * dy == 0,
        a * ex + b * ey == 0,
        dx * ey - ex * dy != 0,
    ensures
        a == 0,
{
    let t = dx * ey - ex * dy;
    assert(a * t == (a * dx) * ey - (a * ex) * dy) by (nonlinear_arith)
        requires
            t == dx * ey - ex * dy,
    ;
    assert((a * dx) * ey == -((b * dy) * ey)) by (nonlinear_arith)
        requires
            a * dx == -(b * dy),
    ;
    assert((a * ex) * dy == -((b * ey) * dy)) by (nonlinear_arith)
        requires
            a * ex == -(b * ey),
    ;
    assert((b * dy) * ey == (b * ey) * dy) by (nonlinear_arith);
    assert(a * t == 0);
    assert(a == 0) by (nonlinear_arith)
        requires
            a * t == 0,
            t != 0,
    ;
}

proof fn lemma_difference(a: int, b: int, c: int, u1: int, v1: int, u2: int, v2: int)
    requires
        a * u1 + b * v1 + c == 0,
        a * u2 + b * v2 + c == 0,
    ensures
        a * (u2 - u1) + b * (v2 - v1) == 0,
{
    assert(a * (u2 - u1) == a * u2 - a * u1) by (nonlinear_arith);
    assert(b * (v2 - v1) == b * v2 - b * v1) by (nonlinear_arith);
}

/// The normal equations of points have one solution where three of the
/// points that count, with a weight above 0, do not lie on one line.
pub proof fn lemma_regular_normal_equations(
    points: Seq<(i64, i64)>,
    weights: Seq<i64>,
    i: int,
    j: int,
    k: int,
)
    requires
        are_weights(weights, points),
        0 <= i < points.len(),
        0 <= j < points.len(),
        0 <= k < points.len(),
        weights[i] > 0,
        weights[j] > 0,
        weights[k] > 0,
        area2(points[i], points[j], points[k]) != 0,
    ensures
        det(moments(points, weights, points.len())) != 0,
{
    let n = points.len();
    let m = moments(points, weights, n);
    if det(m) == 0 {
        let a = minor_a(m);
        let b = minor_b(m);
        let c = minor_c(m);
        lemma_adjugate_column(m);
        assert(a * 0 == 0);
        lemma_quad_zero(points, weights, n, a, b, c);
        let ui = points[i].0 - points[0].0;
        let vi = points[i].1 - points[0].1;
        let uj = points[j].0 - points[0].0;
        let vj = points[j].1 - points[0].1;
        let uk = points[k].0 - points[0].0;
        let vk = points[k].1 - points[0].1;
        assert(a * ui + b * vi + c == 0);
        assert(a * uj + b * vj + c == 0);
        assert(a * uk + b * vk + c == 0);
        lemma_difference(a, b, c, ui, vi, uj, vj);
        lemma_difference(a, b, c, ui, vi, uk, vk);
        assert((uj - ui) * (vk - vi) - (uk - ui) * (vj - vi) == area2(
            points[i],
            points[j],
            points[k],
        ));
        lemma_perpendicular(a, b, uj - ui, vj - vi, uk - ui, vk - vi);
        // the first minor is 0: the points have one second coordinate
        lemma_first_minor(m);
        assert(m.w * 0 == 0);
        lemma_quad_zero(points, weights, n, 0, m.w as int, -m.y);
        lemma_weight_form(m);
        lemma_quad_zero(points, weights, n, 0, 0, 1);
        if m.w == 0 {
            assert(0 * ui + 0 * vi + 1 == 0);
        }
        assert(0 * ui + m.w * vi + (-m.y) == 0);
        assert(0 * uj + m.w * vj + (-m.y) == 0);
        assert(0 * uk + m.w * vk + (-m.y) == 0);
        assert(m.w * (vj - vi) == 0) by (nonlinear_arith)
            requires
                m.w * vi == m.y,
                m.w * vj == m.y,
        ;
        assert(m.w * (vk - vi) == 0) by (nonlinear_arith)
            requires
                m.w * vi == m.y,
                m.w * vk == m.y,
        ;
        assert(vj - vi == 0 && vk - vi == 0) by (nonlinear_arith)
            requires
                m.w != 0,
                m.w * (vj - vi) == 0,
                m.w * (vk - vi) == 0,
        ;
        assert((uj - ui) * 0 == 0 && (uk - ui) * 0 == 0);
        assert(false);
    }
}

/// A chord `d` (times the scale `s`) of a circle and the way `g` from the
/// centre to its foot: twice their product and `s` times the square of the
/// chord cancel.
proof fn lemma_chord(gx: int, gy: int, dx: int, dy: int, s: int, rr: int)
    requires
        s > 0,
        gx * gx + gy * gy == rr,
        (gx + s * dx) * (gx + s * dx) + (gy + s * dy) * (gy + s * dy) == rr,
    ensures
        2 * (gx * dx + gy * dy) + s * (dx * dx + dy * dy) == 0,
{
    lemma_square_of_sum(gx, s, dx);
    lemma_square_of_sum(gy, s, dy);
    let t = 2 * (gx * dx + gy * dy) + s * (dx * dx + dy * dy);
    assert(s * t == 2 * (s * (gx * dx)) + 2 * (s * (gy * dy)) + s * (s * (dx * dx)) + s * (s * (dy
        * dy))) by (nonlinear_arith)
        requires
            t == 2 * (gx * dx + gy * dy) + s * (dx * dx + dy * dy),
    ;
    assert(s * t == 0);
    assert(t == 0) by (nonlinear_arith)
        requires
            s > 0,
            s * t == 0,
    ;
}

proof fn lemma_square_of_sum(g: int, s: int, d: int)
    ensures
        (g + s * d) * (g + s * d) == g * g + 2 * (s * (g * d)) + s * (s * (d * d)),
{
    let e = s * d;
    assert((g + e) * (g + e) == g * g + 2 * (g * e) + e * e) by (nonlinear_arith);
    assert(g * e == s * (g * d)) by (nonlinear_arith)
        requires
            e == s * d,
    ;
    assert(e * e == s * (s * (d * d))) by (nonlinear_arith)
        requires
            e == s * d,
    ;
}

/// Of two chords from one point of a circle that lie on one line, the second
/// has the length of its projection on the first, unless the first is no
/// chord at all.
proof fn lemma_parallel_chords(gx: int, gy: int, dx: int, dy: int, ex: int, ey: int, s: int)
    requires
        s > 0,
        2 * (gx * dx + gy * dy) + s * (dx * dx + dy * dy) == 0,
        2 * (gx * ex + gy * ey) + s * (ex * ex + ey * ey) == 0,
        dx * ey - ex * dy == 0,
        dx != 0 || dy != 0,
    ensures
        ex * ex + ey * ey == dx * ex + dy * ey,
{
    let dd = dx * dx + dy * dy;
    let ee = ex * ex + ey * ey;
    let de = dx * ex + dy * ey;
    let gd = gx * dx + gy * dy;
    let ge = gx * ex + gy * ey;
    // the second chord, times the square of the first, is the first, times
    // the product of the two
    assert(dd * ex - de * dx == dy * (dy * ex - dx * ey)) by (nonlinear_arith)
        requires
            dd == dx * dx + dy * dy,
            de == dx * ex + dy * ey,
    ;
    assert(dd * ey - de * dy == dx * (dx * ey - ex * dy)) by (nonlinear_arith)
        requires
            dd == dx * dx + dy * dy,
            de == dx * ex + dy * ey,
    ;
    assert(dy * 0 == 0 && dx * 0 == 0);
    assert(dy * ex - dx * ey == 0);
    assert(dd * ex == de * dx);
    assert(dd * ey == de * dy);
    assert(dd * ge == gx * (dd * ex) + gy * (dd * ey)) by (nonlinear_arith)
        requires
            ge == gx * ex + gy * ey,
    ;
    assert(de * gd == gx * (de * dx) + gy * (de * dy)) by (nonlinear_arith)
        requires
            gd == gx * dx + gy * dy,
    ;
    assert(dd * ge == de * gd);
    // with the two chord equations
    assert(dd * (2 * ge) == de * (2 * gd)) by (nonlinear_arith)
        requires
            dd * ge == de * gd,
    ;
    assert(dd * (s * ee) == de * (s * dd)) by (nonlinear_arith)
        requires
            dd * (2 * ge) == de * (2 * gd),
            2 * ge == -(s * ee),
            2 * gd == -(s * dd),
    ;
    assert((s * dd) * (ee - de) == 0) by (nonlinear_arith)
        requires
            dd * (s * ee) == de * (s * dd),
    ;
    assert(dx * dx >= 0 && dy * dy >= 0) by (nonlinear_arith);
    assert(dd > 0) by (nonlinear_arith)
        requires
            dd == dx * dx + dy * dy,
            dx != 0 || dy != 0,
            dx * dx >= 0,
            dy * dy >= 0,
    ;
    assert(s * dd > 0) by (nonlinear_arith)
        requires
            s > 0,
            dd > 0,
    ;
    assert(ee - de == 0) by (nonlinear_arith)
        requires
            (s * dd) * (ee - de) == 0,
            s * dd > 0,
    ;
}

/// Three different points of a circle do not lie on one line.
pub proof fn lemma_circle_points_span(
    p: (i64, i64),
    q: (i64, i64),
    r: (i64, i64),
    cx: int,
    cy: int,
    rr: int,
    s: int,
)
    requires
        s > 0,
        (p.0 * s - cx) * (p.0 * s - cx) + (p.1 * s - cy) * (p.1 * s - cy) == rr,
        (q.0 * s - cx) * (q.0 * s - cx) + (q.1 * s - cy) * (q.1 * s - cy) == rr,
        (r.0 * s - cx) * (r.0 * s - cx) + (r.1 * s - cy) * (r.1 * s - cy) == rr,
        p != q,
        p != r,
        q != r,
    ensures
        area2(p, q, r) != 0,
{
    let gx = p.0 * s - cx;
    let gy = p.1 * s - cy;
    let dx = q.0 - p.0;
    let dy = q.1 - p.1;
    let ex = r.0 - p.0;
    let ey = r.1 - p.1;
    assert(q.0 * s - cx == gx + s * dx) by (nonlinear_arith)
        requires
            gx == p.0 * s - cx,
            dx == q.0 - p.0,
    ;
    assert(q.1 * s - cy == gy + s * dy) by (nonlinear_arith)
        requires
            gy == p.1 * s - cy,
            dy == q.1 - p.1,
    ;
    assert(r.0 * s - cx == gx + s * ex) by (nonlinear_arith)
        requires
            gx == p.0 * s - cx,
            ex == r.0 - p.0,
    ;
    assert(r.1 * s - cy == gy + s * ey) by (nonlinear_arith)
        requires
            gy == p.1 * s - cy,
            ey == r.1 - p.1,
    ;
    lemma_chord(gx, gy, dx, dy, s, rr);
    lemma_chord(gx, gy, ex, ey, s, rr);
    if area2(p, q, r) == 0 {
        assert(dx * ey - ex * dy == 0);
        assert(ex * dy - dx * ey == 0);
        lemma_parallel_chords(gx, gy, dx, dy, ex, ey, s);
        lemma_parallel_chords(gx, gy, ex, ey, dx, dy, s);
        assert(dx * ex == ex * dx && dy * ey == ey * dy) by (nonlinear_arith);
        // the two chords are one
        let fx = dx - ex;
        let fy = dy - ey;
        assert(fx * fx + fy * fy == (dx * dx + dy * dy) - 2 * (dx * ex + dy * ey) + (ex * ex + ey
            * ey)) by (nonlinear_arith)
            requires
                fx == dx - ex,
                fy == dy - ey,
        ;
        assert(fx * fx >= 0 && fy * fy >= 0) by (nonlinear_arith);
        assert(fx == 0) by (nonlinear_arith)
            requires
                fx * fx <= 0,
        ;
        assert(fy == 0) by (nonlinear_arith)
            requires
                fy * fy <= 0,
        ;
        assert(q.0 == r.0 && q.1 == r.1);
        assert(false);
    }
}

} // verus!
