//! Fitting a circle to points by weighted least squares.
//!
//! The circle `x^2 + y^2 + a1 x + a2 y + a3 = 0` that fits the points best
//! solves a system of three linear equations, the normal equations. The
//! system is solved exactly, in whole numbers of any size; only the centre
//! and the radius are rounded, to millionths of a pixel.
use vstd::prelude::*;
use crate::fixed::{lemma_product_bound, magnitude, round_div, COORD_MAX, UNIT};
use crate::image_processing::gradient::{int_sqrt, is_sqrt, isqrt};
use crate::order::{ascending, lemma_ascending, sorted_values};
use crate::segmentation::circle::Circle;
use crate::wide::Wide;

verus! {

/// Largest magnitude of a coordinate of a point, in millionths of a pixel:
/// twice the longest side of a frame.
pub const FIT_COORD_MAX: i64 = 2_000_000_000_000;

/// The weight 1: weights count 256ths.
pub const WEIGHT_ONE: i64 = 256;

/// Whether a circle can be fitted to the points: there are at least three of
/// them, and they lie where a frame can lie. A point is a pair of
/// coordinates `(x, y)` in millionths of a pixel.
pub open spec fn can_fit(points: Seq<(i64, i64)>) -> bool {
    &&& 3 <= points.len()
    &&& forall|i: int|
        0 <= i < points.len() ==> -FIT_COORD_MAX <= (#[trigger] points[i]).0 <= FIT_COORD_MAX
            && -FIT_COORD_MAX <= points[i].1 <= FIT_COORD_MAX
}

/// Whether the weights are weights for the points: one for each, between 0
/// and 1.
pub open spec fn are_weights(weights: Seq<i64>, points: Seq<(i64, i64)>) -> bool {
    &&& weights.len() == points.len()
    &&& forall|i: int| 0 <= i < weights.len() ==> 0 <= #[trigger] weights[i] <= WEIGHT_ONE
}

/// The weighted sums over points that the normal equations are made of: with
/// `u` and `v` the coordinates of a point, `w` its weight and
/// `b = -(u^2 + v^2)`, the sums of `w`, `w u`, `w v`, `w u^2`, `w u v`,
/// `w v^2`, `w u b` and `w v b`.
pub struct Moments {
    pub w: int,
    pub x: int,
    pub y: int,
    pub xx: int,
    pub xy: int,
    pub yy: int,
    pub xb: int,
    pub yb: int,
}

/// The sums over the first `n` points, their coordinates taken from the
/// first point.
pub open spec fn moments(points: Seq<(i64, i64)>, weights: Seq<i64>, n: nat) -> Moments
    decreases n,
{
    if n == 0 {
        Moments { w: 0, x: 0, y: 0, xx: 0, xy: 0, yy: 0, xb: 0, yb: 0 }
    } else {
        let m = moments(points, weights, (n - 1) as nat);
        let u = points[n - 1].0 - points[0].0;
        let v = points[n - 1].1 - points[0].1;
        let w = weights[n - 1] as int;
        let b = -(u * u + v * v);
        Moments {
            w: m.w + w,
            x: m.x + w * u,
            y: m.y + w * v,
            xx: m.xx + w * (u * u),
            xy: m.xy + w * (u * v),
            yy: m.yy + w * (v * v),
            xb: m.xb + (w * u) * b,
            yb: m.yb + (w * v) * b,
        }
    }
}

/// The determinant of the normal equations.
pub open spec fn det(m: Moments) -> int {
    m.xx * (m.yy * m.w - m.y * m.y) - m.xy * (m.xy * m.w - m.y * m.x) + m.x * (m.xy * m.y - m.yy
        * m.x)
}

/// The determinant of the normal equations with the right-hand side in the
/// place of the first column.
pub open spec fn det_x(m: Moments) -> int {
    let bs = -(m.xx + m.yy);
    m.xb * (m.yy * m.w - m.y * m.y) - m.xy * (m.yb * m.w - m.y * bs) + m.x * (m.yb * m.y - m.yy
        * bs)
}

/// The determinant of the normal equations with the right-hand side in the
/// place of the second column.
pub open spec fn det_y(m: Moments) -> int {
    let bs = -(m.xx + m.yy);
    m.xx * (m.yb * m.w - m.y * bs) - m.xb * (m.xy * m.w - m.y * m.x) + m.x * (m.xy * bs - m.yb
        * m.x)
}

/// A coordinate of the centre, from the first point: with `n` the determinant
/// for the coordinate and `d` the determinant of the system, which is not 0,
/// `-n / (2 d)`, rounded.
pub open spec fn centre_offset(n: int, d: int) -> int {
    if d > 0 {
        round_div(-n, 2 * d)
    } else {
        round_div(n, -2 * d)
    }
}

/// The weighted sum, over the first `n` points, of the squares of their
/// distances from `(cx, cy)`, in millionths of a pixel.
pub open spec fn spread(
    points: Seq<(i64, i64)>,
    weights: Seq<i64>,
    cx: int,
    cy: int,
    n: nat,
) -> int
    decreases n,
{
    if n == 0 {
        0
    } else {
        let dx = points[n - 1].0 - cx;
        let dy = points[n - 1].1 - cy;
        spread(points, weights, cx, cy, (n - 1) as nat) + weights[n - 1] * (dx * dx + dy * dy)
    }
}

/// Whether a circle is one that a fit to the points can give: a circle can
/// be fitted to the points, and the circle has a centre and a radius above 0
/// that the library computes with.
pub open spec fn suits(c: Circle, points: Seq<(i64, i64)>) -> bool {
    &&& can_fit(points)
    &&& c.wf()
    &&& c.radius > 0
}

/// The circle that fits the points best, each point counting with its weight:
/// its centre solves the normal equations, and the square of its radius is
/// the weighted mean of the squared distances of the points from the centre.
/// There is none for fewer than three points, where the normal equations are
/// singular, where the radius is 0, or where centre or radius are larger
/// than a circle can hold.
pub open spec fn weighted_fit(points: Seq<(i64, i64)>, weights: Seq<i64>) -> Option<Circle> {
    let m = moments(points, weights, points.len());
    let d = det(m);
    let cx = points[0].0 + centre_offset(det_x(m), d);
    let cy = points[0].1 + centre_offset(det_y(m), d);
    let rr = round_div(spread(points, weights, cx, cy, points.len()), m.w);
    if !can_fit(points) || d == 0 || m.w <= 0 || cx < -COORD_MAX || cx > COORD_MAX || cy
        < -COORD_MAX || cy > COORD_MAX || rr <= 0 || 2 * int_sqrt(rr) > COORD_MAX {
        None
    } else {
        Some(Circle { x: cx as i64, y: cy as i64, radius: int_sqrt(rr) as i64 })
    }
}

/// A sum of many terms, held in two parts: `high * 2^64 + low`.
struct Tally {
    high: i128,
    low: i128,
}

impl Tally {
    spec fn value(&self) -> int {
        self.high * 0x1_0000_0000_0000_0000 + self.low
    }

    /// The sum of `count` terms.
    spec fn wf(&self, count: int) -> bool {
        &&& 0 <= self.low < 0x1_0000_0000_0000_0000
        &&& -(count * 0x2000_0000_0000_0000) <= self.high <= count * 0x2000_0000_0000_0000
    }

    fn new() -> (t: Tally)
        ensures
            t.value() == 0,
            t.wf(0),
    {
        Tally { high: 0, low: 0 }
    }

    fn add(&mut self, term: i128, Ghost(count): Ghost<int>)
        requires
            old(self).wf(count),
            0 <= count < 0x1_0000_0000_0000_0000,
            -0x1000_0000_0000_0000_0000_0000_0000_0000 <= term
                <= 0x1000_0000_0000_0000_0000_0000_0000_0000,
        ensures
            final(self).wf(count + 1),
            final(self).value() == old(self).value() + term,
    {
        let sum: i128 = self.low + term;
        let carry: i128 = crate::fixed::div_floor(sum, 0x1_0000_0000_0000_0000);
        self.low = sum - carry * 0x1_0000_0000_0000_0000;
        self.high = self.high + carry;
    }

    fn total(&self, Ghost(count): Ghost<int>) -> (n: Wide)
        requires
            self.wf(count),
            0 <= count <= 0x1_0000_0000_0000_0000,
        ensures
            n.wf(),
            n.value() == self.value(),
            n.len() == 8,
    {
        Wide::from_pair(self.high, self.low)
    }
}

/// The sums as the program holds them.
struct Sums {
    w: Wide,
    x: Wide,
    y: Wide,
    xx: Wide,
    xy: Wide,
    yy: Wide,
    xb: Wide,
    yb: Wide,
}

impl Sums {
    spec fn matches(&self, m: Moments) -> bool {
        &&& self.w.wf() && self.w.len() == 8 && self.w.value() == m.w
        &&& self.x.wf() && self.x.len() == 8 && self.x.value() == m.x
        &&& self.y.wf() && self.y.len() == 8 && self.y.value() == m.y
        &&& self.xx.wf() && self.xx.len() == 8 && self.xx.value() == m.xx
        &&& self.xy.wf() && self.xy.len() == 8 && self.xy.value() == m.xy
        &&& self.yy.wf() && self.yy.len() == 8 && self.yy.value() == m.yy
        &&& self.xb.wf() && self.xb.len() <= 24 && self.xb.value() == m.xb
        &&& self.yb.wf() && self.yb.len() <= 24 && self.yb.value() == m.yb
    }
}

/// Whether a circle can be fitted to the points.
fn check_points(points: &Vec<(i64, i64)>) -> (ok: bool)
    ensures
        ok == can_fit(points@),
{
    if points.len() < 3 {
        return false;
    }
    let mut i: usize = 0;
    while i < points.len()
        invariant
            i <= points@.len(),
            forall|k: int|
                0 <= k < i ==> -FIT_COORD_MAX <= (#[trigger] points@[k]).0 <= FIT_COORD_MAX
                    && -FIT_COORD_MAX <= points@[k].1 <= FIT_COORD_MAX,
        decreases points@.len() - i,
    {
        let p: (i64, i64) = points[i];
        if p.0 < -FIT_COORD_MAX || p.0 > FIT_COORD_MAX || p.1 < -FIT_COORD_MAX || p.1
            > FIT_COORD_MAX {
            return false;
        }
        i += 1;
    }
    true
}

proof fn lemma_point_bound(u: int, v: int, w: int)
    requires
        -4_000_000_000_000 <= u <= 4_000_000_000_000,
        -4_000_000_000_000 <= v <= 4_000_000_000_000,
        0 <= w <= 256,
    ensures
        -1_024_000_000_000_000 <= w * u <= 1_024_000_000_000_000,
        -1_024_000_000_000_000 <= w * v <= 1_024_000_000_000_000,
        0 <= u * u <= 16_000_000_000_000_000_000_000_000,
        0 <= v * v <= 16_000_000_000_000_000_000_000_000,
        -16_000_000_000_000_000_000_000_000 <= u * v <= 16_000_000_000_000_000_000_000_000,
        0 <= w * (u * u) <= 4_096_000_000_000_000_000_000_000_000,
        0 <= w * (v * v) <= 4_096_000_000_000_000_000_000_000_000,
        -4_096_000_000_000_000_000_000_000_000 <= w * (u * v)
            <= 4_096_000_000_000_000_000_000_000_000,
{
    lemma_product_bound(w, 256, u, 4_000_000_000_000);
    lemma_product_bound(w, 256, v, 4_000_000_000_000);
    lemma_product_bound(u, 4_000_000_000_000, u, 4_000_000_000_000);
    lemma_product_bound(v, 4_000_000_000_000, v, 4_000_000_000_000);
    lemma_product_bound(u, 4_000_000_000_000, v, 4_000_000_000_000);
    assert(u * u >= 0 && v * v >= 0) by (nonlinear_arith);
    lemma_product_bound(w, 256, u * u, 16_000_000_000_000_000_000_000_000);
    lemma_product_bound(w, 256, v * v, 16_000_000_000_000_000_000_000_000);
    lemma_product_bound(w, 256, u * v, 16_000_000_000_000_000_000_000_000);
    assert(w * (u * u) >= 0 && w * (v * v) >= 0) by (nonlinear_arith)
        requires
            w >= 0,
            u * u >= 0,
            v * v >= 0,
    ;
}

/// A product with a number that is held in two parts.
proof fn lemma_split_product(k: int, b: int, high: int, low: int)
    requires
        b == -(high * 0x1_0000_0000 + low),
    ensures
        k * b == -(k * low) + 0x1_0000_0000 * (-(k * high)),
{
    assert(k * (high * 0x1_0000_0000 + low) == 0x1_0000_0000 * (k * high) + k * low)
        by (nonlinear_arith);
    assert(k * (-(high * 0x1_0000_0000 + low)) == -(k * (high * 0x1_0000_0000 + low)))
        by (nonlinear_arith);
}

/// The sums over the points.
fn sum_moments(points: &Vec<(i64, i64)>, weights: &Vec<i64>) -> (s: Sums)
    requires
        can_fit(points@),
        are_weights(weights@, points@),
    ensures
        s.matches(moments(points@, weights@, points@.len())),
{
    let x0: i128 = points[0].0 as i128;
    let y0: i128 = points[0].1 as i128;
    let mut tw = Tally::new();
    let mut tx = Tally::new();
    let mut ty = Tally::new();
    let mut txx = Tally::new();
    let mut txy = Tally::new();
    let mut tyy = Tally::new();
    let mut txb = Tally::new();
    let mut txh = Tally::new();
    let mut tyb = Tally::new();
    let mut tyh = Tally::new();
    let mut i: usize = 0;
    while i < points.len()
        invariant
            can_fit(points@),
            are_weights(weights@, points@),
            x0 == points@[0].0,
            y0 == points@[0].1,
            i <= points@.len(),
            tw.wf(i as int),
            tx.wf(i as int),
            ty.wf(i as int),
            txx.wf(i as int),
            txy.wf(i as int),
            tyy.wf(i as int),
            txb.wf(i as int),
            txh.wf(i as int),
            tyb.wf(i as int),
            tyh.wf(i as int),
            tw.value() == moments(points@, weights@, i as nat).w,
            tx.value() == moments(points@, weights@, i as nat).x,
            ty.value() == moments(points@, weights@, i as nat).y,
            txx.value() == moments(points@, weights@, i as nat).xx,
            txy.value() == moments(points@, weights@, i as nat).xy,
            tyy.value() == moments(points@, weights@, i as nat).yy,
            txb.value() + 0x1_0000_0000 * txh.value() == moments(points@, weights@, i as nat).xb,
            tyb.value() + 0x1_0000_0000 * tyh.value() == moments(points@, weights@, i as nat).yb,
        decreases points@.len() - i,
    {
        let u: i128 = points[i].0 as i128 - x0;
        let v: i128 = points[i].1 as i128 - y0;
        let w: i128 = weights[i] as i128;
        proof {
            lemma_point_bound(u as int, v as int, w as int);
        }
        let size: i128 = u * u + v * v;
        let high: i128 = size / 0x1_0000_0000;
        let low: i128 = size % 0x1_0000_0000;
        let wu: i128 = w * u;
        let wv: i128 = w * v;
        proof {
            assert(0 <= low < 0x1_0000_0000 && 0 <= high <= 0x80_0000_0000_0000);
            lemma_product_bound(wu as int, 1_024_000_000_000_000, low as int, 0x1_0000_0000);
            lemma_product_bound(wu as int, 1_024_000_000_000_000, high as int, 0x80_0000_0000_0000);
            lemma_product_bound(wv as int, 1_024_000_000_000_000, low as int, 0x1_0000_0000);
            lemma_product_bound(wv as int, 1_024_000_000_000_000, high as int, 0x80_0000_0000_0000);
            lemma_split_product(wu as int, -(u * u + v * v), high as int, low as int);
            lemma_split_product(wv as int, -(u * u + v * v), high as int, low as int);
        }
        tw.add(w, Ghost(i as int));
        tx.add(wu, Ghost(i as int));
        ty.add(wv, Ghost(i as int));
        txx.add(w * (u * u), Ghost(i as int));
        txy.add(w * (u * v), Ghost(i as int));
        tyy.add(w * (v * v), Ghost(i as int));
        txb.add(-(wu * low), Ghost(i as int));
        txh.add(-(wu * high), Ghost(i as int));
        tyb.add(-(wv * low), Ghost(i as int));
        tyh.add(-(wv * high), Ghost(i as int));
        i += 1;
    }
    let ghost n = points@.len() as int;
    let shift = Wide::from_small(0x1_0000_0000);
    let xb = txb.total(Ghost(n)).add(&txh.total(Ghost(n)).mul(&shift));
    let yb = tyb.total(Ghost(n)).add(&tyh.total(Ghost(n)).mul(&shift));
    proof {
        assert(txh.value() * 0x1_0000_0000 == 0x1_0000_0000 * txh.value());
        assert(tyh.value() * 0x1_0000_0000 == 0x1_0000_0000 * tyh.value());
    }
    Sums {
        w: tw.total(Ghost(n)),
        x: tx.total(Ghost(n)),
        y: ty.total(Ghost(n)),
        xx: txx.total(Ghost(n)),
        xy: txy.total(Ghost(n)),
        yy: tyy.total(Ghost(n)),
        xb,
        yb,
    }
}

/// `a (b c - d e) - f (g h - i j) + k (l m - n o)`: the form of the three
/// determinants.
fn expand(
    a: &Wide,
    b: &Wide,
    c: &Wide,
    d: &Wide,
    e: &Wide,
    f: &Wide,
    g: &Wide,
    h: &Wide,
    i: &Wide,
    j: &Wide,
    k: &Wide,
    l: &Wide,
    m: &Wide,
    n: &Wide,
    o: &Wide,
) -> (r: Wide)
    requires
        a.wf() && a.len() <= 30,
        b.wf() && b.len() <= 30,
        c.wf() && c.len() <= 30,
        d.wf() && d.len() <= 30,
        e.wf() && e.len() <= 30,
        f.wf() && f.len() <= 30,
        g.wf() && g.len() <= 30,
        h.wf() && h.len() <= 30,
        i.wf() && i.len() <= 30,
        j.wf() && j.len() <= 30,
        k.wf() && k.len() <= 30,
        l.wf() && l.len() <= 30,
        m.wf() && m.len() <= 30,
        n.wf() && n.len() <= 30,
        o.wf() && o.len() <= 30,
    ensures
        r.wf(),
        r.len() <= 150,
        r.value() == a.value() * (b.value() * c.value() - d.value() * e.value()) - f.value() * (
        g.value() * h.value() - i.value() * j.value()) + k.value() * (l.value() * m.value()
            - n.value() * o.value()),
{
    let first = a.mul(&b.mul(c).sub(&d.mul(e)));
    let second = f.mul(&g.mul(h).sub(&i.mul(j)));
    let third = k.mul(&l.mul(m).sub(&n.mul(o)));
    first.sub(&second).add(&third)
}

/// The determinant of the normal equations, and those for the two
/// coordinates of the centre.
fn determinants(s: &Sums, Ghost(m): Ghost<Moments>) -> (d: (Wide, Wide, Wide))
    requires
        s.matches(m),
    ensures
        d.0.wf() && d.0.len() <= 150 && d.0.value() == det(m),
        d.1.wf() && d.1.len() <= 150 && d.1.value() == det_x(m),
        d.2.wf() && d.2.len() <= 150 && d.2.value() == det_y(m),
{
    let zero = Wide::from_small(0);
    let bs = zero.sub(&s.xx.add(&s.yy));
    let d = expand(
        &s.xx,
        &s.yy,
        &s.w,
        &s.y,
        &s.y,
        &s.xy,
        &s.xy,
        &s.w,
        &s.y,
        &s.x,
        &s.x,
        &s.xy,
        &s.y,
        &s.yy,
        &s.x,
    );
    let dx = expand(
        &s.xb,
        &s.yy,
        &s.w,
        &s.y,
        &s.y,
        &s.xy,
        &s.yb,
        &s.w,
        &s.y,
        &bs,
        &s.x,
        &s.yb,
        &s.y,
        &s.yy,
        &bs,
    );
    let dy = expand(
        &s.xx,
        &s.yb,
        &s.w,
        &s.y,
        &bs,
        &s.xb,
        &s.xy,
        &s.w,
        &s.y,
        &s.x,
        &s.x,
        &s.xy,
        &bs,
        &s.yb,
        &s.x,
    );
    (d, dx, dy)
}

/// A coordinate of the centre from the first point, where it is less than
/// `2^58` in magnitude.
fn offset_of(n: &Wide, d: &Wide) -> (offset: Option<i128>)
    requires
        n.wf() && n.len() <= 150,
        d.wf() && d.len() <= 150,
        d.value() != 0,
    ensures
        match offset {
            Some(u) => u == centre_offset(n.value(), d.value()) && magnitude(u as int)
                < 0x400_0000_0000_0000,
            None => magnitude(centre_offset(n.value(), d.value())) >= 0x400_0000_0000_0000,
        },
{
    let zero = Wide::from_small(0);
    let twice = d.add(d);
    if d.is_negative() {
        let divisor = zero.sub(&twice);
        assert(divisor.value() == -2 * d.value());
        n.round_quotient(&divisor, 0x400_0000_0000_0000)
    } else {
        let numerator = zero.sub(n);
        assert(twice.value() == 2 * d.value());
        numerator.round_quotient(&twice, 0x400_0000_0000_0000)
    }
}

/// The weighted sum of the squared distances of the points from a centre.
fn sum_spread(points: &Vec<(i64, i64)>, weights: &Vec<i64>, cx: i64, cy: i64) -> (s: Wide)
    requires
        can_fit(points@),
        are_weights(weights@, points@),
        -COORD_MAX <= cx <= COORD_MAX,
        -COORD_MAX <= cy <= COORD_MAX,
    ensures
        s.wf(),
        s.len() == 8,
        s.value() == spread(points@, weights@, cx as int, cy as int, points@.len()),
        s.value() >= 0,
{
    let mut t = Tally::new();
    let mut i: usize = 0;
    while i < points.len()
        invariant
            can_fit(points@),
            are_weights(weights@, points@),
            -COORD_MAX <= cx <= COORD_MAX,
            -COORD_MAX <= cy <= COORD_MAX,
            i <= points@.len(),
            t.wf(i as int),
            t.value() == spread(points@, weights@, cx as int, cy as int, i as nat),
            t.value() >= 0,
        decreases points@.len() - i,
    {
        let dx: i128 = points[i].0 as i128 - cx as i128;
        let dy: i128 = points[i].1 as i128 - cy as i128;
        let w: i128 = weights[i] as i128;
        proof {
            lemma_square_bound(dx as int);
            lemma_square_bound(dy as int);
            lemma_product_bound(
                w as int,
                256,
                dx * dx + dy * dy,
                20_001_000_000_000_000_000_000_000_000_000_000,
            );
            assert(w * (dx * dx + dy * dy) >= 0) by (nonlinear_arith)
                requires
                    w >= 0,
                    dx * dx + dy * dy >= 0,
            ;
        }
        t.add(w * (dx * dx + dy * dy), Ghost(i as int));
        i += 1;
    }
    t.total(Ghost(points@.len() as int))
}

/// The square of a distance along an axis between a pixel and a centre.
proof fn lemma_square_bound(d: int)
    requires
        -100_002_000_000_000_000 <= d <= 100_002_000_000_000_000,
    ensures
        0 <= d * d <= 10_000_500_000_000_000_000_000_000_000_000_000,
{
    lemma_product_bound(d, 100_002_000_000_000_000, d, 100_002_000_000_000_000);
    assert(d * d >= 0) by (nonlinear_arith);
    assert(100_002_000_000_000_000int * 100_002_000_000_000_000
        <= 10_000_500_000_000_000_000_000_000_000_000_000);
}

/// A square root of a large number is large.
proof fn lemma_large_root(n: int, bound: int)
    requires
        n >= bound * bound,
        bound >= 0,
    ensures
        int_sqrt(n) >= bound,
{
    let r = int_sqrt(n);
    assert(is_sqrt(n, r)) by {
        lemma_sqrt_exists(n);
    }
    if r < bound {
        assert((r + 1) * (r + 1) <= bound * bound) by (nonlinear_arith)
            requires
                0 <= r,
                r + 1 <= bound,
        ;
    }
}

/// Every number from 0 on has a square root, rounded down.
pub proof fn lemma_sqrt_exists(n: int)
    requires
        n >= 0,
    ensures
        is_sqrt(n, int_sqrt(n)),
    decreases n,
{
    if n == 0 {
        assert(is_sqrt(0, 0));
    } else {
        lemma_sqrt_exists(n - 1);
        let r = int_sqrt(n - 1);
        assert(is_sqrt(n - 1, r));
        if n < (r + 1) * (r + 1) {
            assert(is_sqrt(n, r));
        } else {
            assert((r + 2) * (r + 2) == (r + 1) * (r + 1) + 2 * r + 3) by (nonlinear_arith);
            assert(is_sqrt(n, r + 1));
        }
    }
}

/// Fits a circle to points by weighted least squares. The points are pairs
/// `(x, y)` in millionths of a pixel; a weight counts 256ths.
pub fn fit_places_weighted(points: &Vec<(i64, i64)>, weights: &Vec<i64>) -> (circle: Option<
    Circle,
>)
    requires
        are_weights(weights@, points@),
    ensures
        circle == weighted_fit(points@, weights@),
        circle matches Some(c) ==> suits(c, points@),
{
    if !check_points(points) {
        return None;
    }
    let ghost m = moments(points@, weights@, points@.len());
    let s = sum_moments(points, weights);
    let (d, dx, dy) = determinants(&s, Ghost(m));
    if d.is_zero() || s.w.is_negative() || s.w.is_zero() {
        return None;
    }
    let x0: i128 = points[0].0 as i128;
    let y0: i128 = points[0].1 as i128;
    let cx: i128 = match offset_of(&dx, &d) {
        None => {
            return None;
        },
        Some(u) => x0 + u,
    };
    let cy: i128 = match offset_of(&dy, &d) {
        None => {
            return None;
        },
        Some(u) => y0 + u,
    };
    if cx < -COORD_MAX as i128 || cx > COORD_MAX as i128 || cy < -COORD_MAX as i128 || cy
        > COORD_MAX as i128 {
        return None;
    }
    let total = sum_spread(points, weights, cx as i64, cy as i64);
    let rr: i128 = match total.round_quotient(&s.w, 0x1_0000_0000_0000_0000_0000_0000_0000) {
        None => {
            proof {
                let q = round_div(total.value(), s.w.value());
                crate::fixed::lemma_round_div_bounds(total.value(), s.w.value());
                assert(0x100_0000_0000_0000int * 0x100_0000_0000_0000
                    == 0x1_0000_0000_0000_0000_0000_0000_0000);
                lemma_large_root(q, 0x100_0000_0000_0000);
            }
            return None;
        },
        Some(q) => q,
    };
    if rr <= 0 {
        return None;
    }
    let radius: u64 = isqrt(rr as u128);
    if radius > 50_000_000_000_000_000 {
        return None;
    }
    proof {
        if radius == 0 {
            assert((radius + 1) * (radius + 1) == 1) by (nonlinear_arith)
                requires
                    radius == 0,
            ;
        }
    }
    Some(Circle { x: cx as i64, y: cy as i64, radius: radius as i64 })
}

/// The residual of a point: how far it lies from the boundary of the circle,
/// its distance from the centre rounded down, in millionths of a pixel.
pub open spec fn residual(point: (i64, i64), c: Circle) -> int {
    let dx = point.0 - c.x;
    let dy = point.1 - c.y;
    magnitude(int_sqrt(dx * dx + dy * dy) - c.radius)
}

/// The residuals of the points.
pub open spec fn residuals(points: Seq<(i64, i64)>, c: Circle) -> Seq<i64> {
    Seq::new(points.len(), |i: int| residual(points[i], c) as i64)
}

/// Largest residual of a point that a fit takes from a circle that the
/// library computes with.
pub const RESIDUAL_MAX: i64 = 200_000_000_000_000_000;

/// The residuals of the points.
fn residuals_of(points: &Vec<(i64, i64)>, c: &Circle) -> (e: Vec<i64>)
    requires
        suits(*c, points@),
    ensures
        e@ == residuals(points@, *c),
        forall|i: int| 0 <= i < e@.len() ==> 0 <= #[trigger] e@[i] <= RESIDUAL_MAX,
{
    let mut e: Vec<i64> = Vec::new();
    let mut i: usize = 0;
    while i < points.len()
        invariant
            suits(*c, points@),
            i <= points@.len(),
            e@.len() == i,
            forall|k: int| 0 <= k < i ==> #[trigger] e@[k] == residual(points@[k], *c),
            forall|k: int| 0 <= k < i ==> 0 <= #[trigger] e@[k] <= RESIDUAL_MAX,
        decreases points@.len() - i,
    {
        let dx: i128 = points[i].0 as i128 - c.x as i128;
        let dy: i128 = points[i].1 as i128 - c.y as i128;
        proof {
            lemma_square_bound(dx as int);
            lemma_square_bound(dy as int);
        }
        let distance: u64 = isqrt((dx * dx + dy * dy) as u128);
        proof {
            if distance > 150_000_000_000_000_000 {
                assert(distance * distance > 20_001_000_000_000_000_000_000_000_000_000_000)
                    by (nonlinear_arith)
                    requires
                        distance > 150_000_000_000_000_000,
                ;
            }
        }
        let off: i64 = distance as i64 - c.radius;
        e.push(if off < 0 {
            -off
        } else {
            off
        });
        i += 1;
    }
    assert(e@ =~= residuals(points@, *c));
    e
}

/// The sum of the squares of the first `n` residuals.
pub open spec fn square_sum(e: Seq<i64>, n: nat) -> int
    decreases n,
{
    if n == 0 {
        0
    } else {
        square_sum(e, (n - 1) as nat) + e[n - 1] * e[n - 1]
    }
}

/// The square of a residual.
fn squared(e: i64) -> (s: i128)
    requires
        0 <= e <= RESIDUAL_MAX,
    ensures
        s == e * e,
        0 <= s <= 40_000_000_000_000_000_000_000_000_000_000_000,
{
    proof {
        lemma_product_bound(e as int, 200_000_000_000_000_000, e as int, 200_000_000_000_000_000);
        assert(e * e >= 0) by (nonlinear_arith);
    }
    (e as i128) * (e as i128)
}

/// The scale of the residuals, as numerator and denominator: the median of
/// their squares, or, where that is less than a ten-thousand-millionth of a
/// square pixel, a thousandth of the mean of their squares.
pub open spec fn scale_of(e: Seq<i64>) -> (int, int) {
    let sorted = ascending(e);
    let n = e.len() as int;
    let twice_median = if n % 2 == 0 {
        sorted[n / 2 - 1] * sorted[n / 2 - 1] + sorted[n / 2] * sorted[n / 2]
    } else {
        2 * (sorted[n / 2] * sorted[n / 2])
    };
    if twice_median < 200 {
        (square_sum(e, e.len()), 1000 * n)
    } else {
        (twice_median, 2)
    }
}

/// The weight of a point whose residual has the square `e`, by Tukey's
/// biweight: with `u` the squared residual over 4.685 times the scale, where the scale is the
/// given one over 0.6745, it is `(1 - u^2)^2` for `u` below 1 and 0
/// otherwise. Where the scale is 0, which is where all residuals are 0, it is
/// 1. The weight counts 256ths, `u` is taken in 65536ths, both rounded down.
pub open spec fn tukey_weight(e: int, scale: (int, int)) -> int {
    if scale.0 <= 0 {
        WEIGHT_ONE as int
    } else {
        let u = (e * 1349 * scale.1 * 65536) / (9370 * scale.0);
        if u >= 65536 {
            0
        } else {
            ((0x1_0000_0000 - u * u) * (0x1_0000_0000 - u * u)) / 0x100_0000_0000_0000
        }
    }
}

/// The weights of the points with the residuals `e`.
pub open spec fn tukey_weights(e: Seq<i64>) -> Seq<i64> {
    Seq::new(e.len(), |i: int| tukey_weight(e[i] * e[i], scale_of(e)) as i64)
}

/// The weight of a point, from its squared residual, the denominator of the
/// scale times 1349 times 65536, and the numerator of the scale times 9370.
fn weight_of(e: i128, factor: &Wide, divisor: &Wide, Ghost(scale): Ghost<(int, int)>) -> (w: i64)
    requires
        0 <= e <= 40_000_000_000_000_000_000_000_000_000_000_000,
        factor.wf() && factor.len() <= 30,
        divisor.wf() && divisor.len() <= 30,
        scale.0 > 0,
        scale.1 > 0,
        factor.value() == 88_408_064 * scale.1,
        divisor.value() == 9370 * scale.0,
    ensures
        w == tukey_weight(e as int, scale),
        0 <= w <= WEIGHT_ONE,
{
    let top = Wide::from_small(e).mul(factor);
    proof {
        assert(e * (88_408_064 * scale.1) == e * 1349 * scale.1 * 65536) by (nonlinear_arith);
        assert(e * (88_408_064 * scale.1) >= 0) by (nonlinear_arith)
            requires
                e >= 0,
                scale.1 > 0,
        ;
    }
    match top.quotient(divisor, 65536) {
        None => 0,
        Some(u) => {
            proof {
                lemma_product_bound(u as int, 65535, u as int, 65535);
                assert(u * u >= 0) by (nonlinear_arith);
            }
            let t: i128 = 0x1_0000_0000 - u * u;
            proof {
                lemma_product_bound(t as int, 0x1_0000_0000, t as int, 0x1_0000_0000);
                assert(t * t >= 0) by (nonlinear_arith);
            }
            ((t * t) / 0x100_0000_0000_0000) as i64
        },
    }
}

/// The sum of the squares of the residuals.
fn sum_residuals(e: &Vec<i64>) -> (s: Wide)
    requires
        forall|i: int| 0 <= i < e@.len() ==> 0 <= #[trigger] e@[i] <= RESIDUAL_MAX,
    ensures
        s.wf(),
        s.len() == 8,
        s.value() == square_sum(e@, e@.len()),
        s.value() >= 0,
{
    let mut t = Tally::new();
    let mut i: usize = 0;
    while i < e.len()
        invariant
            forall|k: int| 0 <= k < e@.len() ==> 0 <= #[trigger] e@[k] <= RESIDUAL_MAX,
            i <= e@.len(),
            t.wf(i as int),
            t.value() == square_sum(e@, i as nat),
            t.value() >= 0,
        decreases e@.len() - i,
    {
        t.add(squared(e[i]), Ghost(i as int));
        i += 1;
    }
    t.total(Ghost(e@.len() as int))
}

/// The weights of the points with the residuals `e`, by Tukey's biweight.
fn calculate_tukey_weights(e: &Vec<i64>) -> (weights: Vec<i64>)
    requires
        0 < e@.len(),
        forall|i: int| 0 <= i < e@.len() ==> 0 <= #[trigger] e@[i] <= RESIDUAL_MAX,
    ensures
        weights@ == tukey_weights(e@),
        weights@.len() == e@.len(),
        forall|i: int| 0 <= i < weights@.len() ==> 0 <= #[trigger] weights@[i] <= WEIGHT_ONE,
{
    let n: usize = e.len();
    let sorted = sorted_values(e);
    proof {
        lemma_ascending(e@);
        assert forall|k: int| 0 <= k < sorted@.len() implies 0 <= #[trigger] sorted@[k]
            <= RESIDUAL_MAX by {
            assert(e@.contains(sorted@[k]));
        }
    }
    let twice_median: i128 = if n % 2 == 0 {
        squared(sorted[n / 2 - 1]) + squared(sorted[n / 2])
    } else {
        2 * squared(sorted[n / 2])
    };
    let (numerator, denominator): (Wide, i128) = if twice_median < 200 {
        (sum_residuals(e), 1000 * (n as i128))
    } else {
        (Wide::from_small(twice_median), 2)
    };
    let ghost scale = scale_of(e@);
    assert(scale == (numerator.value(), denominator as int));
    let mut weights: Vec<i64> = Vec::new();
    if numerator.is_negative() || numerator.is_zero() {
        let mut i: usize = 0;
        while i < n
            invariant
                n == e@.len(),
                scale == scale_of(e@),
                scale.0 <= 0,
                i <= n,
                weights@.len() == i,
                forall|k: int|
                    0 <= k < i ==> #[trigger] weights@[k] == tukey_weight(e@[k] * e@[k], scale),
                forall|k: int| 0 <= k < i ==> 0 <= #[trigger] weights@[k] <= WEIGHT_ONE,
            decreases n - i,
        {
            weights.push(WEIGHT_ONE);
            i += 1;
        }
        assert(weights@ =~= tukey_weights(e@));
        return weights;
    }
    let factor = Wide::from_small(88_408_064 * denominator);
    let divisor = numerator.mul(&Wide::from_small(9370));
    assert(divisor.value() == 9370 * scale.0) by (nonlinear_arith)
        requires
            divisor.value() == scale.0 * 9370,
    ;
    let mut i: usize = 0;
    while i < n
        invariant
            n == e@.len(),
            forall|k: int| 0 <= k < e@.len() ==> 0 <= #[trigger] e@[k] <= RESIDUAL_MAX,
            scale == scale_of(e@),
            scale.0 > 0,
            scale.1 > 0,
            factor.wf() && factor.len() <= 30,
            divisor.wf() && divisor.len() <= 30,
            factor.value() == 88_408_064 * scale.1,
            divisor.value() == 9370 * scale.0,
            i <= n,
            weights@.len() == i,
            forall|k: int|
                0 <= k < i ==> #[trigger] weights@[k] == tukey_weight(e@[k] * e@[k], scale),
            forall|k: int| 0 <= k < i ==> 0 <= #[trigger] weights@[k] <= WEIGHT_ONE,
        decreases n - i,
    {
        weights.push(weight_of(squared(e[i]), &factor, &divisor, Ghost(scale)));
        i += 1;
    }
    assert(weights@ =~= tukey_weights(e@));
    weights
}

/// The weighted sum of the squares of the first `n` residuals.
pub open spec fn error_sum(e: Seq<i64>, weights: Seq<i64>, n: nat) -> int
    decreases n,
{
    if n == 0 {
        0
    } else {
        error_sum(e, weights, (n - 1) as nat) + weights[n - 1] * (e[n - 1] * e[n - 1])
    }
}

/// The weighted sum of the squares of the residuals: the measure of the
/// goodness of a fit.
fn calculate_chi_square(e: &Vec<i64>, weights: &Vec<i64>) -> (s: Wide)
    requires
        weights@.len() == e@.len(),
        forall|i: int| 0 <= i < e@.len() ==> 0 <= #[trigger] e@[i] <= RESIDUAL_MAX,
        forall|i: int| 0 <= i < weights@.len() ==> 0 <= #[trigger] weights@[i] <= WEIGHT_ONE,
    ensures
        s.wf(),
        s.len() == 8,
        s.value() == error_sum(e@, weights@, e@.len()),
        s.value() >= 0,
{
    let mut t = Tally::new();
    let mut i: usize = 0;
    while i < e.len()
        invariant
            weights@.len() == e@.len(),
            forall|k: int| 0 <= k < e@.len() ==> 0 <= #[trigger] e@[k] <= RESIDUAL_MAX,
            forall|k: int| 0 <= k < weights@.len() ==> 0 <= #[trigger] weights@[k] <= WEIGHT_ONE,
            i <= e@.len(),
            t.wf(i as int),
            t.value() == error_sum(e@, weights@, i as nat),
            t.value() >= 0,
        decreases e@.len() - i,
    {
        let square: i128 = squared(e[i]);
        proof {
            lemma_product_bound(
                weights@[i as int] as int,
                256,
                square as int,
                40_000_000_000_000_000_000_000_000_000_000_000,
            );
            assert(weights@[i as int] * square >= 0) by (nonlinear_arith)
                requires
                    weights@[i as int] >= 0,
                    square >= 0,
            ;
        }
        t.add((weights[i] as i128) * square, Ghost(i as int));
        i += 1;
    }
    t.total(Ghost(e@.len() as int))
}

/// How often the weights are renewed at most.
pub const FIT_ROUNDS: usize = 10;

/// The weights 1 for the points.
pub open spec fn unit_weights(points: Seq<(i64, i64)>) -> Seq<i64> {
    Seq::new(points.len(), |i: int| WEIGHT_ONE)
}

/// Whether a fit has settled: its error is 0, or differs from the error of
/// the fit before by no more than a thousandth of itself.
pub open spec fn has_settled(error: int, before: int) -> bool {
    error == 0 || 1000 * (if error >= before {
        error - before
    } else {
        before - error
    }) <= error
}

/// Whether a fit has settled.
fn settled(error: &Wide, before: &Wide) -> (done: bool)
    requires
        error.wf() && error.len() == 8,
        before.wf() && before.len() == 8,
    ensures
        done == has_settled(error.value(), before.value()),
{
    if error.is_zero() {
        return true;
    }
    let change = if error.is_less(before) {
        before.sub(error)
    } else {
        error.sub(before)
    };
    let scaled = change.mul(&Wide::from_small(1000));
    assert(scaled.value() == 1000 * change.value()) by (nonlinear_arith)
        requires
            scaled.value() == change.value() * 1000,
    ;
    !error.is_less(&scaled)
}

/// The fit after up to `rounds` more rounds: in a round, the points are
/// weighted by their residuals from the circle and fitted anew. The circle
/// stays where no circle fits the weighted points; the rounds end when the
/// fit has settled.
pub open spec fn refine_fit(points: Seq<(i64, i64)>, circle: Circle, error: int, rounds: nat) -> Circle
    decreases rounds,
{
    if rounds == 0 {
        circle
    } else {
        let weights = tukey_weights(residuals(points, circle));
        match weighted_fit(points, weights) {
            None => circle,
            Some(next) => {
                let next_error = error_sum(residuals(points, next), weights, points.len());
                if has_settled(next_error, error) {
                    next
                } else {
                    refine_fit(points, next, next_error, (rounds - 1) as nat)
                }
            },
        }
    }
}

/// The circle that fits the points robustly: the circle that fits them best
/// with equal weights, refined in up to ten rounds. There is none where
/// there is none that fits them with equal weights.
pub open spec fn robust_fit(points: Seq<(i64, i64)>) -> Option<Circle> {
    match weighted_fit(points, unit_weights(points)) {
        None => None,
        Some(first) => Some(
            refine_fit(
                points,
                first,
                error_sum(residuals(points, first), unit_weights(points), points.len()),
                FIT_ROUNDS as nat,
            ),
        ),
    }
}

/// Fits a circle to points robustly, by iteratively reweighted least
/// squares. The points are pairs `(x, y)` in millionths of a pixel.
pub fn fit_places_robust(points: &Vec<(i64, i64)>) -> (circle: Option<Circle>)
    ensures
        circle == robust_fit(points@),
        circle matches Some(c) ==> suits(c, points@),
{
    let mut weights: Vec<i64> = Vec::new();
    let mut i: usize = 0;
    while i < points.len()
        invariant
            i <= points@.len(),
            weights@.len() == i,
            forall|k: int| 0 <= k < i ==> #[trigger] weights@[k] == WEIGHT_ONE,
        decreases points@.len() - i,
    {
        weights.push(WEIGHT_ONE);
        i += 1;
    }
    assert(weights@ =~= unit_weights(points@));
    let mut circle: Circle = match fit_places_weighted(points, &weights) {
        None => {
            return None;
        },
        Some(c) => c,
    };
    let e = residuals_of(points, &circle);
    let mut error: Wide = calculate_chi_square(&e, &weights);
    let ghost first = circle;
    let ghost first_error = error.value();
    let mut round: usize = 0;
    let mut done: bool = false;
    while round < FIT_ROUNDS && !done
        invariant
            round <= FIT_ROUNDS,
            suits(circle, points@),
            error.wf(),
            error.len() == 8,
            !done ==> refine_fit(points@, first, first_error, FIT_ROUNDS as nat) == refine_fit(
                points@,
                circle,
                error.value(),
                (FIT_ROUNDS - round) as nat,
            ),
            done ==> circle == refine_fit(points@, first, first_error, FIT_ROUNDS as nat),
        decreases FIT_ROUNDS - round + if done { 0int } else { 1int },
    {
        let e = residuals_of(points, &circle);
        let renewed = calculate_tukey_weights(&e);
        match fit_places_weighted(points, &renewed) {
            None => {
                done = true;
            },
            Some(next) => {
                let next_e = residuals_of(points, &next);
                let next_error = calculate_chi_square(&next_e, &renewed);
                circle = next;
                if settled(&next_error, &error) {
                    done = true;
                }
                error = next_error;
            },
        }
        round += 1;
    }
    Some(circle)
}

/// Largest coordinate of a pixel that a circle is fitted to: twice the
/// longest side of a frame.
pub const FIT_PIXEL_MAX: usize = 2_000_000;

/// Whether the pixels lie where a frame can lie.
pub open spec fn are_pixels(pixels: Seq<(usize, usize)>) -> bool {
    forall|i: int|
        0 <= i < pixels.len() ==> (#[trigger] pixels[i]).0 <= FIT_PIXEL_MAX && pixels[i].1
            <= FIT_PIXEL_MAX
}

/// Where the pixels lie, in millionths of a pixel.
pub open spec fn places_of(pixels: Seq<(usize, usize)>) -> Seq<(i64, i64)> {
    Seq::new(pixels.len(), |i: int| ((pixels[i].0 * UNIT) as i64, (pixels[i].1 * UNIT) as i64))
}

/// The circle that fits pixels best, each counting with its weight.
pub open spec fn weighted_pixel_fit(pixels: Seq<(usize, usize)>, weights: Seq<i64>) -> Option<Circle> {
    if are_pixels(pixels) {
        weighted_fit(places_of(pixels), weights)
    } else {
        None
    }
}

/// The circle that fits pixels robustly.
pub open spec fn robust_pixel_fit(pixels: Seq<(usize, usize)>) -> Option<Circle> {
    if are_pixels(pixels) {
        robust_fit(places_of(pixels))
    } else {
        None
    }
}

/// Where the pixels lie, if they lie where a frame can lie.
fn pixel_places(pixels: &Vec<(usize, usize)>) -> (places: Option<Vec<(i64, i64)>>)
    ensures
        places.is_some() == are_pixels(pixels@),
        places matches Some(p) ==> p@ == places_of(pixels@),
{
    let mut places: Vec<(i64, i64)> = Vec::new();
    let mut i: usize = 0;
    while i < pixels.len()
        invariant
            i <= pixels@.len(),
            places@.len() == i,
            forall|k: int|
                0 <= k < i ==> (#[trigger] pixels@[k]).0 <= FIT_PIXEL_MAX && pixels@[k].1
                    <= FIT_PIXEL_MAX,
            forall|k: int|
                0 <= k < i ==> #[trigger] places@[k] == ((pixels@[k].0 * UNIT) as i64, (pixels@[k].1
                    * UNIT) as i64),
        decreases pixels@.len() - i,
    {
        let p: (usize, usize) = pixels[i];
        if p.0 > FIT_PIXEL_MAX || p.1 > FIT_PIXEL_MAX {
            return None;
        }
        places.push(((p.0 as i64) * UNIT, (p.1 as i64) * UNIT));
        i += 1;
    }
    assert(places@ =~= places_of(pixels@));
    Some(places)
}

/// Fits a circle to pixels by weighted least squares. The points are pixels
/// `(x, y)` of the frame; a weight counts 256ths.
pub fn fit_circle_weighted(points: &Vec<(usize, usize)>, weights: &Vec<i64>) -> (circle: Option<
    Circle,
>)
    requires
        weights@.len() == points@.len(),
        forall|i: int| 0 <= i < weights@.len() ==> 0 <= #[trigger] weights@[i] <= WEIGHT_ONE,
    ensures
        circle == weighted_pixel_fit(points@, weights@),
        circle matches Some(c) ==> c.wf() && c.radius > 0,
{
    match pixel_places(points) {
        None => None,
        Some(places) => fit_places_weighted(&places, weights),
    }
}

/// Fits a circle to pixels robustly, by iteratively reweighted least squares.
/// The points are pixels `(x, y)` of the frame.
pub fn fit_circle_robust(points: &Vec<(usize, usize)>) -> (circle: Option<Circle>)
    ensures
        circle == robust_pixel_fit(points@),
        circle matches Some(c) ==> c.wf() && c.radius > 0,
{
    match pixel_places(points) {
        None => None,
        Some(places) => fit_places_robust(&places),
    }
}

} // verus!
