//! Choosing the frame of a group and scaling it.
use vstd::prelude::*;
use crate::config::{lowercase_of, same_text, to_lowercase, RATIO_MAX};
use crate::error::Error;
use crate::fixed::{div_round, lemma_product_bound, lemma_round_div_bounds, round_div, UNIT};
use crate::plane::lemma_cell_index;
use crate::types::{shape_fits, ImageData, PixelGrid, SIDE_MAX};

verus! {

/// The length of an axis of `side` pixels after scaling by `scale`.
pub open spec fn scaled_side(side: int, scale: int) -> int {
    round_div(side * scale, UNIT as int)
}

/// The index, along an axis of `side` pixels, of the sample that the scaled
/// image takes for its index `i`: the nearest sample before it.
pub open spec fn source_index(i: int, scale: int, side: int) -> int {
    let s = (i * UNIT) / scale;
    if s > side - 1 {
        side - 1
    } else {
        s
    }
}

/// Whether `scaled` is `image` scaled by `scale` with the samples of the
/// nearest neighbours.
pub open spec fn is_rescaled(scaled: ImageData, image: ImageData, scale: int) -> bool {
    &&& scaled.wf()
    &&& scaled.name == image.name
    &&& scaled.height == scaled_side(image.height as int, scale)
    &&& scaled.width == scaled_side(image.width as int, scale)
    &&& forall|y: int, x: int|
        scaled.inside(y, x) ==> #[trigger] scaled.at(y, x) == image.at(
            source_index(y, scale, image.height as int),
            source_index(x, scale, image.width as int),
        )
}

fn side_of(side: usize, scale: i64) -> (n: u64)
    requires
        side <= SIDE_MAX,
        0 < scale <= RATIO_MAX,
    ensures
        n == scaled_side(side as int, scale as int),
        n <= 1_000_000_000,
{
    proof {
        lemma_product_bound(side as int, 1_000_000, scale as int, 1_000_000_000);
        lemma_round_div_bounds(side * scale, UNIT as int);
        assert(side * scale >= 0) by (nonlinear_arith)
            requires
                side >= 0,
                scale > 0,
        ;
    }
    div_round((side as i128) * (scale as i128), UNIT as i128) as u64
}

fn source_of(i: usize, scale: i64, side: usize) -> (s: usize)
    requires
        i <= SIDE_MAX,
        0 < scale <= RATIO_MAX,
        0 < side <= SIDE_MAX,
    ensures
        s == source_index(i as int, scale as int, side as int),
        s < side,
{
    let s: i64 = ((i as i64) * UNIT) / scale;
    if s > side as i64 - 1 {
        side - 1
    } else {
        s as usize
    }
}

/// Whether `copy` is a copy of the frame.
pub open spec fn is_copy(copy: ImageData, image: ImageData) -> bool {
    &&& copy.wf()
    &&& copy.data.rows() == image.data.rows()
    &&& copy.width == image.width
    &&& copy.height == image.height
    &&& copy.name == image.name
}

/// Whether a frame can be scaled by `scale`: no side of the scaled frame is
/// longer than the library works on, and its shape is one that a frame can
/// have.
pub open spec fn can_rescale(image: ImageData, scale: int) -> bool {
    let height = scaled_side(image.height as int, scale);
    let width = scaled_side(image.width as int, scale);
    height <= SIDE_MAX && width <= SIDE_MAX && shape_fits(height, width)
}

/// Whether `res` is what scaling the frame by `scale` gives: an error for a
/// scale that is not positive, a copy for the scale 1, else the scaled frame,
/// or an error where the frame cannot be scaled.
pub open spec fn is_rescale_result(res: Result<ImageData, Error>, image: ImageData, scale: int) -> bool {
    if scale <= 0 {
        res matches Err(Error::InvalidParameter(text)) && text@ == "Scale factor must be positive"@
    } else if scale == UNIT {
        res matches Ok(copy) && is_copy(copy, image)
    } else {
        match res {
            Ok(scaled) => can_rescale(image, scale) && is_rescaled(scaled, image, scale),
            Err(e) => !can_rescale(image, scale) && e is InvalidDimensions,
        }
    }
}

/// Scales a frame by `scale_factor` (in millionths), taking for every pixel
/// the sample of its nearest neighbour.
#[verifier::loop_isolation(false)]
pub fn rescale_image(image: &ImageData, scale_factor: i64) -> (res: Result<ImageData, Error>)
    requires
        image.wf(),
        image.within_limits(),
        scale_factor <= RATIO_MAX,
    ensures
        is_rescale_result(res, *image, scale_factor as int),
{
    if scale_factor <= 0 {
        return Err(Error::InvalidParameter("Scale factor must be positive".to_string()));
    }
    if scale_factor == UNIT {
        return Ok(image.duplicate());
    }
    let new_width: u64 = side_of(image.width, scale_factor);
    let new_height: u64 = side_of(image.height, scale_factor);
    if new_width > SIDE_MAX as u64 || new_height > SIDE_MAX as u64 {
        return Err(
            Error::InvalidDimensions {
                expected: "at most 1000000 pixels a side".to_string(),
                actual: "a longer side after scaling".to_string(),
            },
        );
    }
    let width: usize = new_width as usize;
    let height: usize = new_height as usize;
    let mut cells: Vec<u16> = Vec::new();
    assert(0 * width == 0) by (nonlinear_arith);
    let mut y: usize = 0;
    while y < height
        invariant
            y <= height,
            cells@.len() == y * width,
            forall|v: int, u: int|
                0 <= v < y && 0 <= u < width ==> #[trigger] cells@[v * width + u] == image.at(
                    source_index(v, scale_factor as int, image.height as int),
                    source_index(u, scale_factor as int, image.width as int),
                ),
        decreases height - y,
    {
        let mut x: usize = 0;
        while x < width
            invariant
                y < height,
                x <= width,
                cells@.len() == y * width + x,
                forall|v: int, u: int|
                    0 <= v <= y && 0 <= u < width && (v < y || u < x) ==> #[trigger] cells@[v * width
                        + u] == image.at(
                        source_index(v, scale_factor as int, image.height as int),
                        source_index(u, scale_factor as int, image.width as int),
                    ),
            decreases width - x,
        {
            proof {
                // a scaled frame with a pixel comes from a frame with a pixel
                if image.height == 0 || image.width == 0 {
                    assert(image.height * scale_factor == 0 || image.width * scale_factor == 0)
                        by (nonlinear_arith)
                        requires
                            image.height == 0 || image.width == 0,
                    ;
                    assert(false);
                }
            }
            let src_y: usize = source_of(y, scale_factor, image.height);
            let src_x: usize = source_of(x, scale_factor, image.width);
            let sample: u16 = image.get(src_y, src_x);
            let ghost before = cells@;
            cells.push(sample);
            proof {
                assert forall|v: int, u: int|
                    0 <= v <= y && 0 <= u < width && (v < y || u < x + 1) implies #[trigger] cells@[v
                    * width + u] == image.at(
                    source_index(v, scale_factor as int, image.height as int),
                    source_index(u, scale_factor as int, image.width as int),
                ) by {
                    lemma_cell_index(y + 1, width as int, v, u);
                    if v == y && u == x {
                    } else {
                        assert(v * width + u < y * width + x) by (nonlinear_arith)
                            requires
                                0 <= v <= y,
                                0 <= u < width,
                                v < y || u < x,
                                0 <= x,
                        ;
                        assert(cells@[v * width + u] == before[v * width + u]);
                    }
                }
            }
            x += 1;
        }
        assert((y + 1) * width == y * width + width) by (nonlinear_arith);
        y += 1;
    }
    match PixelGrid::from_shape_vec(height, width, cells) {
        None => Err(
            Error::InvalidDimensions {
                expected: "a shape that fits in memory".to_string(),
                actual: "a larger shape".to_string(),
            },
        ),
        Some(data) => {
            let scaled = ImageData { data, width, height, name: image.name.clone() };
            proof {
                assert(scaled.wf());
            }
            Ok(scaled)
        },
    }
}

/// The index of the frame of a group that is worked on: the last where the
/// choice is "last" (in any case of letters) and there are several frames,
/// else the first.
pub open spec fn chosen_frame(count: int, use_image: Seq<char>) -> int {
    if count > 1 && lowercase_of(use_image) == "last"@ {
        count - 1
    } else {
        0
    }
}

/// The frame of a group that is worked on, scaled where a scale is given.
pub fn preprocess_images(images: &[ImageData], rescale_factor: Option<i64>, use_image: &str) -> (res:
    Result<ImageData, Error>)
    requires
        forall|i: int| 0 <= i < images@.len() ==> (#[trigger] images@[i]).wf(),
        forall|i: int| 0 <= i < images@.len() ==> (#[trigger] images@[i]).within_limits(),
        rescale_factor matches Some(s) ==> s <= RATIO_MAX,
    ensures
        images@.len() == 0 ==> (res matches Err(Error::InvalidParameter(text)) && text@
            == "No images provided"@),
        images@.len() > 0 ==> is_rescale_result(
            res,
            images@[chosen_frame(images@.len() as int, use_image@)],
            match rescale_factor {
                Some(scale) => scale as int,
                None => UNIT as int,
            },
        ),
{
    if images.len() == 0 {
        return Err(Error::InvalidParameter("No images provided".to_string()));
    }
    let index: usize = if images.len() == 1 {
        0
    } else {
        let lower = to_lowercase(use_image);
        if same_text(lower.as_str(), "last") {
            images.len() - 1
        } else {
            0
        }
    };
    match rescale_factor {
        Some(scale) => rescale_image(&images[index], scale),
        None => Ok(images[index].duplicate()),
    }
}

} // verus!
