//! Circular cross-correlation of a frame with a binary template, and its peak.
use vstd::prelude::*;
use crate::plane::{cell_index, lemma_cell_index, Plane};
use crate::types::ImageData;

verus! {

/// An index in `0 .. 2 * n` taken modulo `n`.
pub open spec fn wrap(i: int, n: int) -> int {
    if i >= n {
        i - n
    } else {
        i
    }
}

/// Where the circular shift of an axis of length `n` by half its length takes
/// the index `i`.
pub open spec fn shift_index(i: int, n: int) -> int {
    wrap(i + n / 2, n)
}

/// The index that the circular shift by half the length takes to `i`.
pub open spec fn unshift_index(i: int, n: int) -> int {
    wrap(i + (n - n / 2), n)
}

/// The two are inverse to each other.
pub proof fn lemma_shift_unshift(i: int, n: int)
    requires
        0 <= i < n,
    ensures
        0 <= shift_index(i, n) < n,
        0 <= unshift_index(i, n) < n,
        unshift_index(shift_index(i, n), n) == i,
        shift_index(unshift_index(i, n), n) == i,
{
}

/// The sum of the samples that the first `n` template pixels cover, where
/// they are set, when the template is moved circularly over the frame by
/// `dy` rows and `dx` columns: the pixel `(y, x)` of the template then lies
/// on the sample `(y + dy, x + dx)`, indices taken modulo the size.
pub open spec fn overlap(image: ImageData, template: Plane<bool>, dy: int, dx: int, n: nat) -> int
    decreases n,
{
    if n == 0 {
        0
    } else {
        let y = (n - 1) / (template.width as int);
        let x = (n - 1) % (template.width as int);
        overlap(image, template, dy, dx, (n - 1) as nat) + if template.at(y, x) {
            image.at(wrap(y + dy, image.height as int), wrap(x + dx, image.width as int)) as int
        } else {
            0
        }
    }
}

/// The circular cross-correlation of frame and template at the lag
/// `(dy, dx)`.
pub open spec fn correlation(image: ImageData, template: Plane<bool>, dy: int, dx: int) -> int {
    overlap(image, template, dy, dx, (template.height * template.width) as nat)
}

/// The set pixels among the first `n` pixels of a template, row by row.
pub open spec fn lit_scan(template: Plane<bool>, n: nat) -> Seq<(usize, usize)>
    decreases n,
{
    if n == 0 {
        Seq::empty()
    } else {
        let y = (n - 1) / (template.width as int);
        let x = (n - 1) % (template.width as int);
        let before = lit_scan(template, (n - 1) as nat);
        if template.at(y, x) {
            before.push((y as usize, x as usize))
        } else {
            before
        }
    }
}

proof fn lemma_lit_scan(template: Plane<bool>, n: nat)
    requires
        template.wf(),
        n <= template.height * template.width,
    ensures
        lit_scan(template, n).len() <= n,
        forall|i: int|
            0 <= i < lit_scan(template, n).len() ==> template.inside(
                (#[trigger] lit_scan(template, n)[i]).0 as int,
                lit_scan(template, n)[i].1 as int,
            ),
    decreases n,
{
    if n > 0 {
        lemma_lit_scan(template, (n - 1) as nat);
        lemma_scan_cell(template.height as int, template.width as int, n - 1);
    }
}

/// The cell with the number `k` in a row-by-row scan lies inside the raster.
pub proof fn lemma_scan_cell(height: int, width: int, k: int)
    requires
        0 <= height,
        0 <= width,
        0 <= k < height * width,
    ensures
        width > 0,
        0 <= k / width < height,
        0 <= k % width < width,
        cell_index(width, k / width, k % width) == k,
{
    assert(width > 0) by (nonlinear_arith)
        requires
            0 <= width,
            0 <= k < height * width,
    ;
    let y = k / width;
    let x = k % width;
    assert(k == width * y + x && 0 <= x < width) by (nonlinear_arith)
        requires
            width > 0,
            y == k / width,
            x == k % width,
    ;
    assert(0 <= y < height) by (nonlinear_arith)
        requires
            k == width * y + x,
            0 <= x < width,
            0 <= k < height * width,
    ;
    assert(y * width + x == k) by (nonlinear_arith)
        requires
            k == width * y + x,
    ;
}

/// The set pixels of a template, row by row.
pub fn lit_cells(template: &Plane<bool>) -> (cells: Vec<(usize, usize)>)
    requires
        template.wf(),
    ensures
        cells@ == lit_scan(*template, (template.height * template.width) as nat),
        cells@.len() <= template.height * template.width,
        forall|i: int|
            0 <= i < cells@.len() ==> template.inside(
                (#[trigger] cells@[i]).0 as int,
                cells@[i].1 as int,
            ),
{
    let mut cells: Vec<(usize, usize)> = Vec::new();
    let mut y: usize = 0;
    assert(0 * template.width == 0) by (nonlinear_arith);
    while y < template.height
        invariant
            template.wf(),
            y <= template.height,
            cells@ == lit_scan(*template, (y * template.width) as nat),
        decreases template.height - y,
    {
        let mut x: usize = 0;
        while x < template.width
            invariant
                template.wf(),
                y < template.height,
                x <= template.width,
                cells@ == lit_scan(*template, (y * template.width + x) as nat),
            decreases template.width - x,
        {
            proof {
                lemma_cell_index(
                    template.height as int,
                    template.width as int,
                    y as int,
                    x as int,
                );
            }
            if template.get(y, x) {
                cells.push((y, x));
            }
            x += 1;
        }
        assert((y + 1) * template.width == y * template.width + template.width) by (nonlinear_arith);
        y += 1;
    }
    proof {
        lemma_lit_scan(*template, (template.height * template.width) as nat);
    }
    cells
}

/// The sum of the samples under the first `k` of the listed pixels at the
/// lag `(dy, dx)`.
pub open spec fn listed_sum(
    image: ImageData,
    cells: Seq<(usize, usize)>,
    dy: int,
    dx: int,
    k: nat,
) -> int
    decreases k,
{
    if k == 0 {
        0
    } else {
        listed_sum(image, cells, dy, dx, (k - 1) as nat) + image.at(
            wrap(cells[k - 1].0 + dy, image.height as int),
            wrap(cells[k - 1].1 + dx, image.width as int),
        )
    }
}

proof fn lemma_listed_sum_prefix(
    image: ImageData,
    a: Seq<(usize, usize)>,
    b: Seq<(usize, usize)>,
    dy: int,
    dx: int,
    k: nat,
)
    requires
        k <= a.len(),
        k <= b.len(),
        forall|i: int| 0 <= i < k ==> a[i] == b[i],
    ensures
        listed_sum(image, a, dy, dx, k) == listed_sum(image, b, dy, dx, k),
    decreases k,
{
    if k > 0 {
        lemma_listed_sum_prefix(image, a, b, dy, dx, (k - 1) as nat);
    }
}

/// Summing under the set pixels is summing over the whole template.
proof fn lemma_overlap_is_listed(image: ImageData, template: Plane<bool>, dy: int, dx: int, n: nat)
    requires
        template.wf(),
        n <= template.height * template.width,
    ensures
        listed_sum(image, lit_scan(template, n), dy, dx, lit_scan(template, n).len()) == overlap(
            image,
            template,
            dy,
            dx,
            n,
        ),
    decreases n,
{
    if n > 0 {
        lemma_overlap_is_listed(image, template, dy, dx, (n - 1) as nat);
        let before = lit_scan(template, (n - 1) as nat);
        let now = lit_scan(template, n);
        lemma_scan_cell(template.height as int, template.width as int, n - 1);
        lemma_listed_sum_prefix(image, before, now, dy, dx, before.len());
    }
}

proof fn lemma_listed_sum_bound(
    image: ImageData,
    cells: Seq<(usize, usize)>,
    dy: int,
    dx: int,
    k: nat,
)
    ensures
        0 <= listed_sum(image, cells, dy, dx, k) <= 65535 * k,
    decreases k,
{
    if k > 0 {
        lemma_listed_sum_bound(image, cells, dy, dx, (k - 1) as nat);
    }
}

/// The circular cross-correlation of a frame with a template of its size, at
/// every lag.
pub fn cross_correlation(image: &ImageData, template: &Plane<bool>) -> (surface: Plane<i64>)
    requires
        image.wf(),
        image.within_limits(),
        template.wf(),
        template.height == image.height,
        template.width == image.width,
    ensures
        surface.wf(),
        surface.height == image.height,
        surface.width == image.width,
        forall|dy: int, dx: int|
            surface.inside(dy, dx) ==> #[trigger] surface.at(dy, dx) == correlation(
                *image,
                *template,
                dy,
                dx,
            ),
{
    let height: usize = image.height;
    let width: usize = image.width;
    let cells = lit_cells(template);
    let mut surface: Plane<i64> = Plane::filled(height, width, 0);
    assert(height * width <= 1_000_000 * 1_000_000) by (nonlinear_arith)
        requires
            0 <= height <= 1_000_000,
            0 <= width <= 1_000_000,
    ;
    let mut dy: usize = 0;
    while dy < height
        invariant
            image.wf(),
            template.wf(),
            height == image.height,
            width == image.width,
            template.height == height,
            template.width == width,
            height * width <= 1_000_000 * 1_000_000,
            height <= 1_000_000,
            width <= 1_000_000,
            cells@ == lit_scan(*template, (height * width) as nat),
            cells@.len() <= height * width,
            forall|i: int|
                0 <= i < cells@.len() ==> template.inside(
                    (#[trigger] cells@[i]).0 as int,
                    cells@[i].1 as int,
                ),
            dy <= height,
            surface.wf(),
            surface.height == height,
            surface.width == width,
            forall|v: int, u: int|
                surface.inside(v, u) && v < dy ==> #[trigger] surface.at(v, u) == correlation(
                    *image,
                    *template,
                    v,
                    u,
                ),
        decreases height - dy,
    {
        let mut dx: usize = 0;
        while dx < width
            invariant
                image.wf(),
                template.wf(),
                height == image.height,
                width == image.width,
                template.height == height,
                template.width == width,
                height * width <= 1_000_000 * 1_000_000,
                height <= 1_000_000,
                width <= 1_000_000,
                cells@ == lit_scan(*template, (height * width) as nat),
                cells@.len() <= height * width,
                forall|i: int|
                    0 <= i < cells@.len() ==> template.inside(
                        (#[trigger] cells@[i]).0 as int,
                        cells@[i].1 as int,
                    ),
                dy < height,
                dx <= width,
                surface.wf(),
                surface.height == height,
                surface.width == width,
                forall|v: int, u: int|
                    surface.inside(v, u) && (v < dy || (v == dy && u < dx)) ==> #[trigger] surface.at(
                        v,
                        u,
                    ) == correlation(*image, *template, v, u),
            decreases width - dx,
        {
            let mut sum: i64 = 0;
            let mut k: usize = 0;
            while k < cells.len()
                invariant
                    image.wf(),
                    height == image.height,
                    width == image.width,
                    template.height == height,
                    template.width == width,
                    height * width <= 1_000_000 * 1_000_000,
                    height <= 1_000_000,
                    width <= 1_000_000,
                    cells@.len() <= height * width,
                    forall|i: int|
                        0 <= i < cells@.len() ==> template.inside(
                            (#[trigger] cells@[i]).0 as int,
                            cells@[i].1 as int,
                        ),
                    dy < height,
                    dx < width,
                    k <= cells@.len(),
                    sum == listed_sum(*image, cells@, dy as int, dx as int, k as nat),
                decreases cells@.len() - k,
            {
                proof {
                    lemma_listed_sum_bound(*image, cells@, dy as int, dx as int, k as nat);
                    assert(template.inside(cells@[k as int].0 as int, cells@[k as int].1 as int));
                }
                let cy: usize = cells[k].0;
                let cx: usize = cells[k].1;
                let sy: usize = if cy + dy >= height {
                    cy + dy - height
                } else {
                    cy + dy
                };
                let sx: usize = if cx + dx >= width {
                    cx + dx - width
                } else {
                    cx + dx
                };
                sum = sum + image.get(sy, sx) as i64;
                k += 1;
            }
            proof {
                lemma_overlap_is_listed(
                    *image,
                    *template,
                    dy as int,
                    dx as int,
                    (height * width) as nat,
                );
            }
            surface.set(dy, dx, sum);
            dx += 1;
        }
        dy += 1;
    }
    surface
}

/// The raster moved circularly by half its height and half its width: the
/// cell `(0, 0)` comes to lie in the middle.
pub fn fftshift<T: Copy>(data: &Plane<T>) -> (shifted: Plane<T>)
    requires
        data.wf(),
    ensures
        shifted.wf(),
        shifted.height == data.height,
        shifted.width == data.width,
        forall|y: int, x: int|
            data.inside(y, x) ==> #[trigger] shifted.at(y, x) == data.at(
                unshift_index(y, data.height as int),
                unshift_index(x, data.width as int),
            ),
        forall|i: int, j: int|
            data.inside(i, j) ==> shifted.at(
                shift_index(i, data.height as int),
                shift_index(j, data.width as int),
            ) == #[trigger] data.at(i, j),
{
    let height: usize = data.height;
    let width: usize = data.width;
    if height == 0 || width == 0 {
        assert(height * width == 0) by (nonlinear_arith)
            requires
                height == 0 || width == 0,
        ;
        return Plane { height, width, cells: Vec::new() };
    }
    let back_y: usize = height - height / 2;
    let back_x: usize = width - width / 2;
    let mut shifted: Plane<T> = Plane::filled(height, width, data.get(0, 0));
    let mut y: usize = 0;
    while y < height
        invariant
            data.wf(),
            height == data.height,
            width == data.width,
            back_y == height - height / 2,
            back_x == width - width / 2,
            y <= height,
            shifted.wf(),
            shifted.height == height,
            shifted.width == width,
            forall|v: int, u: int|
                data.inside(v, u) && v < y ==> #[trigger] shifted.at(v, u) == data.at(
                    unshift_index(v, height as int),
                    unshift_index(u, width as int),
                ),
        decreases height - y,
    {
        let from_y: usize = if y >= height - back_y {
            y - (height - back_y)
        } else {
            y + back_y
        };
        let mut x: usize = 0;
        while x < width
            invariant
                data.wf(),
                height == data.height,
                width == data.width,
                back_y == height - height / 2,
                back_x == width - width / 2,
                y < height,
                x <= width,
                from_y == unshift_index(y as int, height as int),
                shifted.wf(),
                shifted.height == height,
                shifted.width == width,
                forall|v: int, u: int|
                    data.inside(v, u) && (v < y || (v == y && u < x)) ==> #[trigger] shifted.at(v, u)
                        == data.at(
                        unshift_index(v, height as int),
                        unshift_index(u, width as int),
                    ),
            decreases width - x,
        {
            let from_x: usize = if x >= width - back_x {
                x - (width - back_x)
            } else {
                x + back_x
            };
            shifted.set(y, x, data.get(from_y, from_x));
            x += 1;
        }
        y += 1;
    }
    proof {
        assert forall|i: int, j: int| data.inside(i, j) implies shifted.at(
            shift_index(i, data.height as int),
            shift_index(j, data.width as int),
        ) == #[trigger] data.at(i, j) by {
            lemma_shift_unshift(i, height as int);
            lemma_shift_unshift(j, width as int);
            let y = shift_index(i, height as int);
            let x = shift_index(j, width as int);
            assert(shifted.at(y, x) == data.at(
                unshift_index(y, height as int),
                unshift_index(x, width as int),
            ));
        }
    }
    shifted
}

/// Whether the cell `(v, u)` comes before `(y, x)` when the raster is read
/// row by row.
pub open spec fn scanned_before(v: int, u: int, y: int, x: int) -> bool {
    v < y || (v == y && u < x)
}

/// Whether `(y, x)` is the first cell, read row by row, that holds the
/// largest value of the raster.
pub open spec fn is_first_max(data: Plane<i64>, y: int, x: int) -> bool {
    &&& data.inside(y, x)
    &&& forall|v: int, u: int|
        data.inside(v, u) ==> {
            &&& #[trigger] data.at(v, u) <= data.at(y, x)
            &&& scanned_before(v, u, y, x) ==> data.at(v, u) < data.at(y, x)
        }
}

/// The largest value of a raster and the first cell that holds it, as
/// `(row, column)`; `None` for a raster without cells.
pub fn find_max_2d(data: &Plane<i64>) -> (peak: Option<(i64, (usize, usize))>)
    requires
        data.wf(),
    ensures
        peak.is_none() <==> (data.height == 0 || data.width == 0),
        peak matches Some((value, (y, x))) ==> is_first_max(*data, y as int, x as int) && value
            == data.at(y as int, x as int),
{
    if data.height == 0 || data.width == 0 {
        return None;
    }
    let mut best: i64 = data.get(0, 0);
    let mut best_y: usize = 0;
    let mut best_x: usize = 0;
    let mut y: usize = 0;
    while y < data.height
        invariant
            data.wf(),
            data.width > 0,
            y <= data.height,
            data.inside(best_y as int, best_x as int),
            best == data.at(best_y as int, best_x as int),
            y == 0 ==> best_y == 0 && best_x == 0,
            forall|v: int, u: int|
                data.inside(v, u) && v < y ==> {
                    &&& #[trigger] data.at(v, u) <= best
                    &&& scanned_before(v, u, best_y as int, best_x as int) ==> data.at(v, u) < best
                },
            y > 0 ==> best_y < y,
        decreases data.height - y,
    {
        let mut x: usize = 0;
        while x < data.width
            invariant
                data.wf(),
                y < data.height,
                x <= data.width,
                data.inside(best_y as int, best_x as int),
                best == data.at(best_y as int, best_x as int),
                y == 0 && x == 0 ==> best_y == 0 && best_x == 0,
                forall|v: int, u: int|
                    data.inside(v, u) && scanned_before(v, u, y as int, x as int) ==> {
                        &&& #[trigger] data.at(v, u) <= best
                        &&& scanned_before(v, u, best_y as int, best_x as int) ==> data.at(v, u)
                            < best
                    },
                !(y == 0 && x == 0) ==> scanned_before(
                    best_y as int,
                    best_x as int,
                    y as int,
                    x as int,
                ),
            decreases data.width - x,
        {
            let value: i64 = data.get(y, x);
            if value > best {
                best = value;
                best_y = y;
                best_x = x;
            }
            x += 1;
        }
        y += 1;
    }
    Some((best, (best_y, best_x)))
}

/// The correlation surface after the circular shift by half its size.
pub open spec fn shifted_correlation(
    image: ImageData,
    template: Plane<bool>,
    y: int,
    x: int,
) -> int {
    correlation(
        image,
        template,
        unshift_index(y, image.height as int),
        unshift_index(x, image.width as int),
    )
}

/// Whether the shifted correlation surface of frame and template has its
/// first largest value, `score`, in column `x` of row `y`.
pub open spec fn is_peak(
    image: ImageData,
    template: Plane<bool>,
    x: int,
    y: int,
    score: int,
) -> bool {
    &&& image.inside(y, x)
    &&& score == shifted_correlation(image, template, y, x)
    &&& forall|v: int, u: int|
        image.inside(v, u) ==> {
            &&& #[trigger] shifted_correlation(image, template, v, u) <= score
            &&& scanned_before(v, u, y, x) ==> shifted_correlation(image, template, v, u) < score
        }
}

/// Where the template fits the frame best: the column, the row and the value
/// of the peak of the shifted correlation surface; `None` for a frame without
/// pixels.
pub fn template_correlation(image: &ImageData, template: &Plane<bool>) -> (peak: Option<
    (usize, usize, i64),
>)
    requires
        image.wf(),
        image.within_limits(),
        template.wf(),
        template.height == image.height,
        template.width == image.width,
    ensures
        peak.is_none() <==> (image.height == 0 || image.width == 0),
        peak matches Some((x, y, score)) ==> is_peak(
            *image,
            *template,
            x as int,
            y as int,
            score as int,
        ),
{
    let surface = cross_correlation(image, template);
    let shifted = fftshift(&surface);
    match find_max_2d(&shifted) {
        None => None,
        Some((score, (y, x))) => {
            proof {
                assert forall|v: int, u: int| image.inside(v, u) implies {
                    &&& #[trigger] shifted_correlation(*image, *template, v, u) <= score
                    &&& scanned_before(v, u, y as int, x as int) ==> shifted_correlation(
                        *image,
                        *template,
                        v,
                        u,
                    ) < score
                } by {
                    lemma_shift_unshift(v, image.height as int);
                    lemma_shift_unshift(u, image.width as int);
                    assert(shifted.at(v, u) == shifted_correlation(*image, *template, v, u));
                }
                lemma_shift_unshift(y as int, image.height as int);
                lemma_shift_unshift(x as int, image.width as int);
                assert(shifted.at(y as int, x as int) == shifted_correlation(
                    *image,
                    *template,
                    y as int,
                    x as int,
                ));
            }
            Some((x, y, score))
        },
    }
}

} // verus!
