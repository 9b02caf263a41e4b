//! Intensities as fractions of the largest sample.
use vstd::prelude::*;
use crate::fixed::UNIT;
use crate::grid::correlate::lemma_scan_cell;
use crate::plane::{lemma_cell_index, Plane};
use crate::types::ImageData;

verus! {

/// The largest of the first `n` samples of a raster, read row by row; 0 where
/// there is none.
pub open spec fn max_scan(data: Plane<u16>, n: nat) -> int
    decreases n,
{
    if n == 0 {
        0
    } else {
        let before = max_scan(data, (n - 1) as nat);
        let v = data.cells@[n - 1] as int;
        if v > before {
            v
        } else {
            before
        }
    }
}

/// The largest sample of a raster.
pub open spec fn largest_sample(data: Plane<u16>) -> int {
    max_scan(data, data.cells@.len())
}

pub proof fn lemma_max_scan(data: Plane<u16>, n: nat)
    requires
        n <= data.cells@.len(),
    ensures
        0 <= max_scan(data, n) <= 65535,
        forall|i: int| 0 <= i < n ==> data.cells@[i] <= max_scan(data, n),
        n > 0 ==> exists|i: int| 0 <= i < n && data.cells@[i] == max_scan(data, n),
    decreases n,
{
    if n > 0 {
        lemma_max_scan(data, (n - 1) as nat);
        if n > 1 {
            let i = choose|i: int| 0 <= i < n - 1 && data.cells@[i] == max_scan(data, (n - 1) as nat);
            if data.cells@[n - 1] > max_scan(data, (n - 1) as nat) {
                assert(data.cells@[n - 1] == max_scan(data, n));
            } else {
                assert(data.cells@[i] == max_scan(data, n));
            }
        } else {
            assert(data.cells@[0] == max_scan(data, n));
        }
    }
}

/// No sample of a raster is larger than its largest sample.
pub proof fn lemma_largest_sample(data: Plane<u16>)
    requires
        data.wf(),
    ensures
        0 <= largest_sample(data) <= 65535,
        forall|y: int, x: int| data.inside(y, x) ==> #[trigger] data.at(y, x) <= largest_sample(data),
{
    lemma_max_scan(data, data.cells@.len());
    assert forall|y: int, x: int| data.inside(y, x) implies #[trigger] data.at(y, x)
        <= largest_sample(data) by {
        lemma_cell_index(data.height as int, data.width as int, y, x);
    }
}

/// The largest sample of a raster; 0 for a raster without cells.
pub fn plane_max(data: &Plane<u16>) -> (m: u16)
    requires
        data.wf(),
    ensures
        m == largest_sample(*data),
{
    let mut m: u16 = 0;
    let mut i: usize = 0;
    while i < data.cells.len()
        invariant
            i <= data.cells@.len(),
            m == max_scan(*data, i as nat),
        decreases data.cells@.len() - i,
    {
        if data.cells[i] > m {
            m = data.cells[i];
        }
        i += 1;
    }
    m
}

/// A sample as a fraction of the largest sample `max`, in millionths and
/// rounded down; 0 where the largest sample is 0.
pub open spec fn normalized(v: int, max: int) -> int {
    if max == 0 {
        0
    } else {
        (v * UNIT) / max
    }
}

pub proof fn lemma_normalized(v: int, max: int)
    requires
        0 <= v <= max,
    ensures
        0 <= normalized(v, max) <= UNIT,
{
    if max > 0 {
        assert(0 <= (v * 1_000_000) / max <= 1_000_000) by (nonlinear_arith)
            requires
                0 <= v <= max,
                max > 0,
        ;
    }
}

/// The raster with every sample as a fraction of the largest sample.
pub fn normalize_plane(data: &Plane<u16>) -> (plane: Plane<i64>)
    requires
        data.wf(),
    ensures
        plane.wf(),
        plane.height == data.height,
        plane.width == data.width,
        forall|y: int, x: int|
            data.inside(y, x) ==> #[trigger] plane.at(y, x) == normalized(
                data.at(y, x) as int,
                largest_sample(*data),
            ),
        forall|y: int, x: int| data.inside(y, x) ==> 0 <= #[trigger] plane.at(y, x) <= UNIT,
{
    let max: u16 = plane_max(data);
    let mut plane: Plane<i64> = Plane::filled(data.height, data.width, 0);
    proof {
        lemma_largest_sample(*data);
    }
    let mut y: usize = 0;
    while y < data.height
        invariant
            data.wf(),
            max == largest_sample(*data),
            forall|v: int, u: int| data.inside(v, u) ==> #[trigger] data.at(v, u) <= max,
            y <= data.height,
            plane.wf(),
            plane.height == data.height,
            plane.width == data.width,
            forall|v: int, u: int|
                data.inside(v, u) && v < y ==> #[trigger] plane.at(v, u) == normalized(
                    data.at(v, u) as int,
                    max as int,
                ),
            forall|v: int, u: int| data.inside(v, u) ==> 0 <= #[trigger] plane.at(v, u) <= UNIT,
        decreases data.height - y,
    {
        let mut x: usize = 0;
        while x < data.width
            invariant
                data.wf(),
                max == largest_sample(*data),
                forall|v: int, u: int| data.inside(v, u) ==> #[trigger] data.at(v, u) <= max,
                y < data.height,
                x <= data.width,
                plane.wf(),
                plane.height == data.height,
                plane.width == data.width,
                forall|v: int, u: int|
                    data.inside(v, u) && (v < y || (v == y && u < x)) ==> #[trigger] plane.at(v, u)
                        == normalized(data.at(v, u) as int, max as int),
                forall|v: int, u: int| data.inside(v, u) ==> 0 <= #[trigger] plane.at(v, u) <= UNIT,
            decreases data.width - x,
        {
            let v: u16 = data.get(y, x);
            proof {
                assert(data.at(y as int, x as int) <= max);
                lemma_normalized(v as int, max as int);
            }
            let n: i64 = if max == 0 {
                0
            } else {
                ((v as i64) * UNIT) / (max as i64)
            };
            plane.set(y, x, n);
            x += 1;
        }
        y += 1;
    }
    plane
}

/// The largest of the first `n` samples of a frame, read row by row.
pub open spec fn frame_max_scan(image: ImageData, n: nat) -> int
    decreases n,
{
    if n == 0 {
        0
    } else {
        let before = frame_max_scan(image, (n - 1) as nat);
        let v = image.at((n - 1) / (image.width as int), (n - 1) % (image.width as int)) as int;
        if v > before {
            v
        } else {
            before
        }
    }
}

/// The largest sample of a frame; 0 for a frame without pixels.
pub open spec fn frame_max(image: ImageData) -> int {
    frame_max_scan(image, (image.height * image.width) as nat)
}

proof fn lemma_frame_max_scan(image: ImageData, samples: Plane<u16>, n: nat)
    requires
        samples.wf(),
        samples.height == image.height,
        samples.width == image.width,
        forall|y: int, x: int| image.inside(y, x) ==> #[trigger] samples.at(y, x) == image.at(y, x),
        n <= image.height * image.width,
    ensures
        max_scan(samples, n) == frame_max_scan(image, n),
    decreases n,
{
    if n > 0 {
        lemma_frame_max_scan(image, samples, (n - 1) as nat);
        lemma_scan_cell(image.height as int, image.width as int, n - 1);
        let y = (n - 1) / (image.width as int);
        let x = (n - 1) % (image.width as int);
        assert(samples.at(y, x) == image.at(y, x));
    }
}

/// The largest sample of a frame is the largest sample of the raster of its
/// samples.
pub proof fn lemma_frame_max(image: ImageData, samples: Plane<u16>)
    requires
        samples.wf(),
        samples.height == image.height,
        samples.width == image.width,
        forall|y: int, x: int| image.inside(y, x) ==> #[trigger] samples.at(y, x) == image.at(y, x),
    ensures
        largest_sample(samples) == frame_max(image),
{
    lemma_frame_max_scan(image, samples, (image.height * image.width) as nat);
}

/// The frame with every sample as a fraction of the largest sample.
pub fn normalize_image(image: &ImageData) -> (plane: Plane<i64>)
    requires
        image.wf(),
    ensures
        plane.wf(),
        plane.height == image.height,
        plane.width == image.width,
        forall|y: int, x: int|
            image.inside(y, x) ==> #[trigger] plane.at(y, x) == normalized(
                image.at(y, x) as int,
                frame_max(*image),
            ),
        forall|y: int, x: int| image.inside(y, x) ==> 0 <= #[trigger] plane.at(y, x) <= UNIT,
{
    let samples = image.samples();
    let plane = normalize_plane(&samples);
    proof {
        lemma_frame_max_scan(*image, samples, (image.height * image.width) as nat);
        assert forall|y: int, x: int| image.inside(y, x) implies #[trigger] plane.at(y, x)
            == normalized(image.at(y, x) as int, frame_max(*image)) by {
            assert(samples.at(y, x) == image.at(y, x));
        }
    }
    plane
}

} // verus!
