//! Erosion, dilation and opening with a structuring element.
use vstd::prelude::*;
use crate::plane::{lemma_cell_index, Plane};

verus! {

/// Largest radius of a disk-shaped structuring element, in pixels.
pub const ELEMENT_RADIUS_MAX: usize = 10_000;

/// Whether the cell `(i, j)` of the square of side `2 * radius + 1` lies
/// within `radius` of the middle cell.
pub open spec fn in_element(radius: int, i: int, j: int) -> bool {
    (i - radius) * (i - radius) + (j - radius) * (j - radius) <= radius * radius
}

/// A disk as structuring element: a square raster of side `2 * radius + 1`
/// in which the cells within `radius` of the middle are set.
#[verifier::loop_isolation(false)]
pub fn create_disk_structuring_element(radius: usize) -> (disk: Plane<bool>)
    requires
        radius <= ELEMENT_RADIUS_MAX,
    ensures
        disk.wf(),
        disk.height == 2 * radius + 1,
        disk.width == 2 * radius + 1,
        forall|i: int, j: int|
            disk.inside(i, j) ==> #[trigger] disk.at(i, j) == in_element(radius as int, i, j),
{
    let size: usize = 2 * radius + 1;
    assert(size * size <= 20_001 * 20_001) by (nonlinear_arith)
        requires
            0 <= size <= 20_001,
    ;
    let mut disk: Plane<bool> = Plane::filled(size, size, false);
    let r: i64 = radius as i64;
    let mut i: usize = 0;
    while i < size
        invariant
            i <= size,
            disk.wf() && disk.height == size && disk.width == size,
            forall|v: int, u: int|
                disk.inside(v, u) && v < i ==> #[trigger] disk.at(v, u) == in_element(
                    radius as int,
                    v,
                    u,
                ),
        decreases size - i,
    {
        let mut j: usize = 0;
        while j < size
            invariant
                i < size,
                j <= size,
                disk.wf() && disk.height == size && disk.width == size,
                forall|v: int, u: int|
                    disk.inside(v, u) && (v < i || (v == i && u < j)) ==> #[trigger] disk.at(v, u)
                        == in_element(radius as int, v, u),
            decreases size - j,
        {
            let di: i64 = i as i64 - r;
            let dj: i64 = j as i64 - r;
            assert(0 <= di * di <= 10_001 * 10_001 && 0 <= dj * dj <= 10_001 * 10_001 && 0 <= r * r
                <= 10_000 * 10_000) by (nonlinear_arith)
                requires
                    -10_001 <= di <= 10_001,
                    -10_001 <= dj <= 10_001,
                    0 <= r <= 10_000,
            ;
            disk.set(i, j, di * di + dj * dj <= r * r);
            j += 1;
        }
        i += 1;
    }
    disk
}

/// The smaller or the larger of two values.
pub open spec fn pick(a: int, b: int, largest: bool) -> int {
    if largest {
        if a > b {
            a
        } else {
            b
        }
    } else {
        if a < b {
            a
        } else {
            b
        }
    }
}

/// The smallest (or largest) cell of `image` under the first `n` cells of the
/// structuring element, whose middle cell is laid on `(i, j)`; `None` where
/// no set cell of the element lies on a cell of the raster.
pub open spec fn window_extreme(
    image: Plane<i64>,
    element: Plane<bool>,
    i: int,
    j: int,
    n: nat,
    largest: bool,
) -> Option<int>
    decreases n,
{
    if n == 0 {
        None
    } else {
        let before = window_extreme(image, element, i, j, (n - 1) as nat, largest);
        let si = (n - 1) / (element.width as int);
        let sj = (n - 1) % (element.width as int);
        let ii = i + si - element.height / 2;
        let jj = j + sj - element.width / 2;
        if element.at(si, sj) && image.inside(ii, jj) {
            match before {
                None => Some(image.at(ii, jj) as int),
                Some(b) => Some(pick(b, image.at(ii, jj) as int, largest)),
            }
        } else {
            before
        }
    }
}

/// What erosion (or, with `largest`, dilation) makes of the cell `(i, j)`:
/// the smallest (largest) cell under the structuring element, or the cell
/// itself where the element covers nothing.
pub open spec fn morphed(image: Plane<i64>, element: Plane<bool>, i: int, j: int, largest: bool) -> int {
    match window_extreme(
        image,
        element,
        i,
        j,
        (element.height * element.width) as nat,
        largest,
    ) {
        Some(v) => v,
        None => image.at(i, j) as int,
    }
}

proof fn lemma_window_extreme(
    image: Plane<i64>,
    element: Plane<bool>,
    i: int,
    j: int,
    n: nat,
    largest: bool,
)
    ensures
        window_extreme(image, element, i, j, n, largest) matches Some(v) ==> i64::MIN <= v
            <= i64::MAX,
    decreases n,
{
    if n > 0 {
        lemma_window_extreme(image, element, i, j, (n - 1) as nat, largest);
    }
}

#[verifier::loop_isolation(false)]
fn morph(image: &Plane<i64>, element: &Plane<bool>, largest: bool) -> (out: Plane<i64>)
    requires
        image.wf(),
        element.wf(),
    ensures
        out.wf(),
        out.height == image.height,
        out.width == image.width,
        forall|i: int, j: int|
            image.inside(i, j) ==> #[trigger] out.at(i, j) == morphed(
                *image,
                *element,
                i,
                j,
                largest,
            ),
{
    let height: usize = image.height;
    let width: usize = image.width;
    let half_h: usize = element.height / 2;
    let half_w: usize = element.width / 2;
    let mut out: Plane<i64> = Plane::filled(height, width, 0);
    let mut i: usize = 0;
    while i < height
        invariant
            i <= height,
            out.wf() && out.height == height && out.width == width,
            forall|v: int, u: int|
                image.inside(v, u) && v < i ==> #[trigger] out.at(v, u) == morphed(
                    *image,
                    *element,
                    v,
                    u,
                    largest,
                ),
        decreases height - i,
    {
        let mut j: usize = 0;
        while j < width
            invariant
                i < height,
                j <= width,
                out.wf() && out.height == height && out.width == width,
                forall|v: int, u: int|
                    image.inside(v, u) && (v < i || (v == i && u < j)) ==> #[trigger] out.at(v, u)
                        == morphed(*image, *element, v, u, largest),
            decreases width - j,
        {
            let mut extreme: Option<i64> = None;
            let mut si: usize = 0;
            assert(0 * element.width == 0) by (nonlinear_arith);
            while si < element.height
                invariant
                    i < height,
                    j < width,
                    si <= element.height,
                    match extreme {
                        Some(v) => window_extreme(
                            *image,
                            *element,
                            i as int,
                            j as int,
                            (si * element.width) as nat,
                            largest,
                        ) == Some(v as int),
                        None => window_extreme(
                            *image,
                            *element,
                            i as int,
                            j as int,
                            (si * element.width) as nat,
                            largest,
                        ).is_none(),
                    },
                decreases element.height - si,
            {
                let mut sj: usize = 0;
                while sj < element.width
                    invariant
                        i < height,
                        j < width,
                        si < element.height,
                        sj <= element.width,
                        match extreme {
                            Some(v) => window_extreme(
                                *image,
                                *element,
                                i as int,
                                j as int,
                                (si * element.width + sj) as nat,
                                largest,
                            ) == Some(v as int),
                            None => window_extreme(
                                *image,
                                *element,
                                i as int,
                                j as int,
                                (si * element.width + sj) as nat,
                                largest,
                            ).is_none(),
                        },
                    decreases element.width - sj,
                {
                    proof {
                        lemma_cell_index(
                            element.height as int,
                            element.width as int,
                            si as int,
                            sj as int,
                        );
                    }
                    let down: u128 = i as u128 + si as u128;
                    let right: u128 = j as u128 + sj as u128;
                    if element.get(si, sj) && down >= half_h as u128 && down - (half_h as u128)
                        < height as u128 && right >= half_w as u128 && right - (half_w as u128)
                        < width as u128 {
                        let v: i64 = image.get(
                            (down - half_h as u128) as usize,
                            (right - half_w as u128) as usize,
                        );
                        extreme =
                        match extreme {
                            None => Some(v),
                            Some(b) => Some(
                                if largest {
                                    if b > v {
                                        b
                                    } else {
                                        v
                                    }
                                } else {
                                    if b < v {
                                        b
                                    } else {
                                        v
                                    }
                                },
                            ),
                        };
                    }
                    sj += 1;
                }
                assert((si + 1) * element.width == si * element.width + element.width)
                    by (nonlinear_arith);
                si += 1;
            }
            let value: i64 = match extreme {
                Some(v) => v,
                None => image.get(i, j),
            };
            out.set(i, j, value);
            j += 1;
        }
        i += 1;
    }
    out
}

/// Erosion: every cell becomes the smallest cell under the structuring
/// element laid on it.
pub fn erode(image: &Plane<i64>, structuring_element: &Plane<bool>) -> (out: Plane<i64>)
    requires
        image.wf(),
        structuring_element.wf(),
    ensures
        out.wf(),
        out.height == image.height,
        out.width == image.width,
        forall|i: int, j: int|
            image.inside(i, j) ==> #[trigger] out.at(i, j) == morphed(
                *image,
                *structuring_element,
                i,
                j,
                false,
            ),
{
    morph(image, structuring_element, false)
}

/// Dilation: every cell becomes the largest cell under the structuring
/// element laid on it.
pub fn dilate(image: &Plane<i64>, structuring_element: &Plane<bool>) -> (out: Plane<i64>)
    requires
        image.wf(),
        structuring_element.wf(),
    ensures
        out.wf(),
        out.height == image.height,
        out.width == image.width,
        forall|i: int, j: int|
            image.inside(i, j) ==> #[trigger] out.at(i, j) == morphed(
                *image,
                *structuring_element,
                i,
                j,
                true,
            ),
{
    morph(image, structuring_element, true)
}

/// Whether `opened` is `image` eroded and then dilated with the disk of
/// radius `radius`; `disk` is that disk and `eroded` the raster in between.
pub open spec fn is_opening_with(
    opened: Plane<i64>,
    image: Plane<i64>,
    radius: int,
    disk: Plane<bool>,
    eroded: Plane<i64>,
) -> bool {
    &&& disk.wf() && disk.height == 2 * radius + 1 && disk.width == 2 * radius + 1
    &&& forall|i: int, j: int| disk.inside(i, j) ==> #[trigger] disk.at(i, j) == in_element(radius, i, j)
    &&& eroded.wf() && eroded.height == image.height && eroded.width == image.width
    &&& forall|i: int, j: int|
        image.inside(i, j) ==> #[trigger] eroded.at(i, j) == morphed(image, disk, i, j, false)
    &&& forall|i: int, j: int|
        image.inside(i, j) ==> #[trigger] opened.at(i, j) == morphed(eroded, disk, i, j, true)
}

/// Whether `opened` is the opening of `image` with the disk of radius
/// `radius`.
pub open spec fn is_opening_of(opened: Plane<i64>, image: Plane<i64>, radius: int) -> bool {
    &&& opened.wf() && opened.height == image.height && opened.width == image.width
    &&& exists|disk: Plane<bool>, eroded: Plane<i64>| #[trigger]
        is_opening_with(opened, image, radius, disk, eroded)
}

/// Opening: erosion followed by dilation, with a disk. It removes bright
/// features that are smaller than the disk and keeps the shape of the rest.
pub fn morphological_opening(image: &Plane<i64>, radius: usize) -> (opened: Plane<i64>)
    requires
        image.wf(),
        radius <= ELEMENT_RADIUS_MAX,
    ensures
        is_opening_of(opened, *image, radius as int),
{
    let disk = create_disk_structuring_element(radius);
    let eroded = erode(image, &disk);
    let opened = dilate(&eroded, &disk);
    proof {
        assert(is_opening_with(opened, *image, radius as int, disk, eroded));
    }
    opened
}

/// No cell of an eroded or dilated raster lies outside the range of the
/// cells of the raster.
pub proof fn lemma_morphed_between(
    image: Plane<i64>,
    element: Plane<bool>,
    i: int,
    j: int,
    largest: bool,
    low: int,
    high: int,
)
    requires
        image.wf(),
        image.between(low, high),
        image.inside(i, j),
    ensures
        low <= morphed(image, element, i, j, largest) <= high,
{
    lemma_extreme_between(
        image,
        element,
        i,
        j,
        (element.height * element.width) as nat,
        largest,
        low,
        high,
    );
}

proof fn lemma_extreme_between(
    image: Plane<i64>,
    element: Plane<bool>,
    i: int,
    j: int,
    n: nat,
    largest: bool,
    low: int,
    high: int,
)
    requires
        image.wf(),
        image.between(low, high),
    ensures
        window_extreme(image, element, i, j, n, largest) matches Some(v) ==> low <= v <= high,
    decreases n,
{
    if n > 0 {
        lemma_extreme_between(image, element, i, j, (n - 1) as nat, largest, low, high);
    }
}

} // verus!
