//! Refining a spot by its edge: the boundary is searched in the edge map of
//! a window about the spot, a circle is fitted to it, and the search is
//! repeated about the fitted centre until the centre stays.
use vstd::prelude::*;
use crate::config::GridParams;
use crate::fixed::{
    div_round, lemma_product_bound, lemma_round_div_bounds, nearest_whole, round_div,
    round_to_whole, COORD_MAX, UNIT,
};
use crate::grid::refine::{first_pixel, last_pixel, search_first, search_last};
use crate::image_processing::canny::{canny_edge_detection, is_edge_map_of};
use crate::plane::Plane;
use crate::segmentation::circle::{fallback_circle, Circle, Refinement};
use crate::segmentation::component::{is_largest_component, largest_component};
use crate::types::{Spot, SIDE_MAX};

verus! {

/// Shortest side of a window in which a boundary is searched, in pixels.
pub const MIN_WINDOW_SIDE: usize = 10;

/// How often the search is repeated at most.
pub const MAX_ITERATIONS: usize = 3;

/// The window about a spot whose edges are taken: the pixels of the columns
/// `x_lu ..= x_rl` and the rows `y_lu ..= y_rl`.
#[derive(Debug, Clone, Copy, PartialEq, Eq, Structural)]
pub struct Roi {
    pub x_lu: usize,
    pub y_lu: usize,
    pub x_rl: usize,
    pub y_rl: usize,
}

impl Roi {
    pub open spec fn fits(&self, width: int, height: int) -> bool {
        self.x_lu <= self.x_rl < width && self.y_lu <= self.y_rl < height
    }

    pub open spec fn columns(&self) -> int {
        self.x_rl - self.x_lu + 1
    }

    pub open spec fn rows(&self) -> int {
        self.y_rl - self.y_lu + 1
    }
}

/// The window about the position `(cx, cy)`: one pitch to either side, cut
/// off at the border of the frame; `None` where less than ten pixels are
/// left of a side.
pub open spec fn roi_of(width: int, height: int, cx: int, cy: int, pitch: int) -> Option<Roi> {
    let x_lu = search_first(cx, pitch);
    let x_rl = search_last(cx, pitch, width);
    let y_lu = search_first(cy, pitch);
    let y_rl = search_last(cy, pitch, height);
    if width > 0 && height > 0 && x_rl - x_lu + 1 >= MIN_WINDOW_SIDE && y_rl - y_lu + 1
        >= MIN_WINDOW_SIDE {
        Some(
            Roi { x_lu: x_lu as usize, y_lu: y_lu as usize, x_rl: x_rl as usize, y_rl: y_rl as usize },
        )
    } else {
        None
    }
}

/// The window about the position `(cx, cy)` in which the boundary of a spot
/// is searched.
pub fn spot_roi(width: usize, height: usize, cx: i64, cy: i64, pitch: i64) -> (roi: Option<Roi>)
    requires
        width <= SIDE_MAX,
        height <= SIDE_MAX,
        -COORD_MAX <= cx <= COORD_MAX,
        -COORD_MAX <= cy <= COORD_MAX,
        0 <= pitch <= COORD_MAX,
    ensures
        roi == roi_of(width as int, height as int, cx as int, cy as int, pitch as int),
        roi matches Some(r) ==> r.fits(width as int, height as int),
{
    if width == 0 || height == 0 {
        return None;
    }
    let x_lu: i64 = first_pixel(cx, pitch);
    let x_rl: i64 = last_pixel(cx, pitch, width);
    let y_lu: i64 = first_pixel(cy, pitch);
    let y_rl: i64 = last_pixel(cy, pitch, height);
    if x_rl - x_lu + 1 >= MIN_WINDOW_SIDE as i64 && y_rl - y_lu + 1 >= MIN_WINDOW_SIDE as i64 {
        Some(
            Roi { x_lu: x_lu as usize, y_lu: y_lu as usize, x_rl: x_rl as usize, y_rl: y_rl as usize },
        )
    } else {
        None
    }
}

/// Whether `edges` is the edge map of the window `roi` of the frame, made by
/// way of `window`, the window cut from the frame.
pub open spec fn is_roi_chain(
    edges: Plane<bool>,
    normalized: Plane<i64>,
    roi: Roi,
    params: GridParams,
    window: Plane<i64>,
) -> bool {
    &&& window.wf() && window.height == roi.rows() && window.width == roi.columns()
    &&& forall|y: int, x: int|
        window.inside(y, x) ==> #[trigger] window.at(y, x) == normalized.at(
            roi.y_lu + y,
            roi.x_lu + x,
        )
    &&& is_edge_map_of(
        edges,
        window,
        params.edge_sensitivity[0] as int,
        params.edge_sensitivity[1] as int,
        UNIT as int,
    )
}

/// Whether `edges` is the edge map of the window `roi` of the frame: the
/// window is cut from the frame, and its edges are detected with the two
/// thresholds of the edge sensitivity and a smoothing of one pixel.
pub open spec fn is_roi_edges(
    edges: Plane<bool>,
    normalized: Plane<i64>,
    roi: Roi,
    params: GridParams,
) -> bool {
    &&& edges.wf() && edges.height == roi.rows() && edges.width == roi.columns()
    &&& exists|window: Plane<i64>| #[trigger] is_roi_chain(edges, normalized, roi, params, window)
}

/// The edge map of the window `roi` of a frame of normalized intensities.
pub fn roi_edges(normalized: &Plane<i64>, roi: &Roi, params: &GridParams) -> (edges: Plane<bool>)
    requires
        normalized.wf(),
        normalized.between(0, UNIT as int),
        roi.fits(normalized.width as int, normalized.height as int),
        params.within_limits(),
    ensures
        is_roi_edges(edges, *normalized, *roi, *params),
{
    let window = normalized.crop(
        roi.y_lu,
        roi.x_lu,
        roi.y_rl - roi.y_lu + 1,
        roi.x_rl - roi.x_lu + 1,
    );
    proof {
        assert forall|y: int, x: int| window.inside(y, x) implies 0 <= #[trigger] window.at(y, x)
            <= UNIT by {
            assert(normalized.inside(roi.y_lu + y, roi.x_lu + x));
        }
    }
    let edges = canny_edge_detection(
        &window,
        params.edge_sensitivity[0],
        params.edge_sensitivity[1],
        UNIT,
    );
    proof {
        assert(is_roi_chain(edges, *normalized, *roi, *params, window));
    }
    edges
}

/// Largest magnitude of a bound of a search window, in pixels.
pub const WINDOW_MAX: i64 = 1_000_000_000_000;

/// The part of the frame in which the boundary is searched: the columns
/// `x_low .. x_high` and the rows `y_low .. y_high`.
#[derive(Debug, Clone, Copy, PartialEq, Eq, Structural)]
pub struct SearchWindow {
    pub x_low: i64,
    pub x_high: i64,
    pub y_low: i64,
    pub y_high: i64,
}

pub open spec fn clamp_low(low: int, side: int) -> int {
    if low < 0 {
        0
    } else if low > side - 1 {
        side - 1
    } else {
        low
    }
}

pub open spec fn clamp_high(high: int, low: int, side: int) -> int {
    let h = if high < low + 1 {
        low + 1
    } else {
        high
    };
    if h > side {
        side
    } else {
        h
    }
}

impl SearchWindow {
    pub open spec fn wf(&self) -> bool {
        &&& -WINDOW_MAX <= self.x_low <= WINDOW_MAX
        &&& -WINDOW_MAX <= self.x_high <= WINDOW_MAX
        &&& -WINDOW_MAX <= self.y_low <= WINDOW_MAX
        &&& -WINDOW_MAX <= self.y_high <= WINDOW_MAX
    }

    /// The window lies in a frame of the given size.
    pub open spec fn within(&self, width: int, height: int) -> bool {
        &&& 0 <= self.x_low <= width && 0 <= self.x_high <= width
        &&& 0 <= self.y_low <= height && 0 <= self.y_high <= height
    }

    /// The window moved into the frame: it begins in the frame, and ends
    /// after its beginning and not after the frame.
    pub open spec fn clamped(&self, width: int, height: int) -> SearchWindow {
        let x_low = clamp_low(self.x_low as int, width);
        let y_low = clamp_low(self.y_low as int, height);
        SearchWindow {
            x_low: x_low as i64,
            x_high: clamp_high(self.x_high as int, x_low, width) as i64,
            y_low: y_low as i64,
            y_high: clamp_high(self.y_high as int, y_low, height) as i64,
        }
    }

    /// The window without a margin of `margin` pixels on every side.
    pub open spec fn inset(&self, margin: int) -> SearchWindow {
        SearchWindow {
            x_low: (self.x_low + margin) as i64,
            x_high: (self.x_high - margin) as i64,
            y_low: (self.y_low + margin) as i64,
            y_high: (self.y_high - margin) as i64,
        }
    }

    /// The window moved by `dx` columns and `dy` rows.
    pub open spec fn shifted(&self, dx: int, dy: int) -> SearchWindow {
        SearchWindow {
            x_low: (self.x_low + dx) as i64,
            x_high: (self.x_high + dx) as i64,
            y_low: (self.y_low + dy) as i64,
            y_high: (self.y_high + dy) as i64,
        }
    }

    pub open spec fn has_no_pixel(&self) -> bool {
        self.x_high <= self.x_low || self.y_high <= self.y_low
    }

    /// The window moved into a frame of `width` columns and `height` rows.
    pub fn clamp(&self, width: usize, height: usize) -> (w: SearchWindow)
        requires
            0 < width <= SIDE_MAX,
            0 < height <= SIDE_MAX,
        ensures
            w == self.clamped(width as int, height as int),
            w.within(width as int, height as int),
    {
        let x_low: i64 = if self.x_low < 0 {
            0
        } else if self.x_low > width as i64 - 1 {
            width as i64 - 1
        } else {
            self.x_low
        };
        let y_low: i64 = if self.y_low < 0 {
            0
        } else if self.y_low > height as i64 - 1 {
            height as i64 - 1
        } else {
            self.y_low
        };
        let xh: i64 = if self.x_high < x_low + 1 {
            x_low + 1
        } else {
            self.x_high
        };
        let yh: i64 = if self.y_high < y_low + 1 {
            y_low + 1
        } else {
            self.y_high
        };
        SearchWindow {
            x_low,
            x_high: if xh > width as i64 {
                width as i64
            } else {
                xh
            },
            y_low,
            y_high: if yh > height as i64 {
                height as i64
            } else {
                yh
            },
        }
    }
}

/// The margin that is left out of a search window on every side, in pixels:
/// the pitch less half of `area_size` times the pitch, if that is positive,
/// rounded to a whole pixel.
pub open spec fn search_margin(area_size: int, pitch: int) -> int {
    let margin = pitch - round_div(area_size * pitch, 2 * UNIT);
    if margin <= 0 {
        0
    } else {
        nearest_whole(margin)
    }
}

fn margin_of(area_size: i64, pitch: i64) -> (margin: i64)
    requires
        0 <= area_size <= 1_000_000_000,
        0 <= pitch <= 10_000_000_000,
    ensures
        margin == search_margin(area_size as int, pitch as int),
        0 <= margin <= 10_000,
{
    proof {
        lemma_product_bound(area_size as int, 1_000_000_000, pitch as int, 10_000_000_000);
        lemma_round_div_bounds(area_size * pitch, 2 * UNIT);
        assert(area_size * pitch >= 0) by (nonlinear_arith)
            requires
                area_size >= 0,
                pitch >= 0,
        ;
    }
    let half: i128 = div_round((area_size as i128) * (pitch as i128), 2 * (UNIT as i128));
    let margin: i128 = pitch as i128 - half;
    if margin <= 0 {
        0
    } else {
        proof {
            lemma_round_div_bounds(margin as int, UNIT as int);
        }
        round_to_whole(margin as i64)
    }
}

/// Whether `mask` holds the edges of the window `roi` that lie in the search
/// window `sub`.
pub open spec fn is_window_mask(mask: Plane<bool>, edges: Plane<bool>, roi: Roi, sub: SearchWindow) -> bool {
    &&& mask.wf() && mask.height == edges.height && mask.width == edges.width
    &&& forall|y: int, x: int|
        edges.inside(y, x) ==> #[trigger] mask.at(y, x) == (edges.at(y, x) && sub.x_low <= roi.x_lu
            + x < sub.x_high && sub.y_low <= roi.y_lu + y < sub.y_high)
}

#[verifier::loop_isolation(false)]
fn window_mask(edges: &Plane<bool>, roi: &Roi, sub: &SearchWindow) -> (mask: Plane<bool>)
    requires
        edges.wf(),
        roi.fits(SIDE_MAX as int, SIDE_MAX as int),
        sub.wf(),
    ensures
        is_window_mask(mask, *edges, *roi, *sub),
{
    let mut mask: Plane<bool> = Plane::filled(edges.height, edges.width, false);
    let mut y: usize = 0;
    while y < edges.height
        invariant
            y <= edges.height,
            mask.wf() && mask.height == edges.height && mask.width == edges.width,
            forall|v: int, u: int|
                edges.inside(v, u) && v < y ==> #[trigger] mask.at(v, u) == (edges.at(v, u)
                    && sub.x_low <= roi.x_lu + u < sub.x_high && sub.y_low <= roi.y_lu + v
                    < sub.y_high),
        decreases edges.height - y,
    {
        let mut x: usize = 0;
        while x < edges.width
            invariant
                y < edges.height,
                x <= edges.width,
                mask.wf() && mask.height == edges.height && mask.width == edges.width,
                forall|v: int, u: int|
                    edges.inside(v, u) && (v < y || (v == y && u < x)) ==> #[trigger] mask.at(v, u)
                        == (edges.at(v, u) && sub.x_low <= roi.x_lu + u < sub.x_high && sub.y_low
                        <= roi.y_lu + v < sub.y_high),
            decreases edges.width - x,
        {
            let gx: i128 = roi.x_lu as i128 + x as i128;
            let gy: i128 = roi.y_lu as i128 + y as i128;
            let inside: bool = sub.x_low as i128 <= gx && gx < sub.x_high as i128 && sub.y_low as i128
                <= gy && gy < sub.y_high as i128;
            mask.set(y, x, edges.get(y, x) && inside);
            x += 1;
        }
        y += 1;
    }
    mask
}

/// The cells of the window `roi`, given as `(row, column)` in the window, as
/// points `(x, y)` of the frame.
pub open spec fn image_points(cells: Seq<(usize, usize)>, roi: Roi) -> Seq<(usize, usize)> {
    Seq::new(
        cells.len(),
        |i: int| ((roi.x_lu + cells[i].1) as usize, (roi.y_lu + cells[i].0) as usize),
    )
}

/// What one round of the search finds to fit a circle to.
pub enum SearchPoints {
    /// The search window holds no pixel.
    Stop,
    /// The boundary in the search window has too few pixels.
    TooFew,
    /// The pixels of the boundary, as points `(x, y)` of the frame.
    Fit(Vec<(usize, usize)>),
}

/// Whether `next` is what the search finds in the search window `window`,
/// which lies in the frame: with `sub`, the window without its margin, it is
/// `Stop` where `sub` holds no pixel; else `boundary`, the largest connected
/// set of the edges in `sub`, decides: `TooFew` where it has less than
/// `min_edge_pixels` pixels, else its pixels.
pub open spec fn is_search_result(
    next: SearchPoints,
    edges: Plane<bool>,
    roi: Roi,
    window: SearchWindow,
    margin: int,
    min_edge_pixels: int,
    mask: Plane<bool>,
    boundary: Seq<(usize, usize)>,
) -> bool {
    let sub = window.inset(margin);
    if sub.has_no_pixel() {
        next is Stop
    } else {
        &&& is_window_mask(mask, edges, roi, sub)
        &&& is_largest_component(mask, boundary)
        &&& if boundary.len() < min_edge_pixels {
            next is TooFew
        } else {
            next matches SearchPoints::Fit(points) && points@ == image_points(boundary, roi)
        }
    }
}

/// One round of the search: the pixels of the boundary in the search window.
#[verifier::loop_isolation(false)]
pub fn search_points(
    edges: &Plane<bool>,
    roi: &Roi,
    window: &SearchWindow,
    margin: i64,
    min_edge_pixels: usize,
) -> (next: SearchPoints)
    requires
        edges.wf(),
        roi.fits(SIDE_MAX as int, SIDE_MAX as int),
        edges.height == roi.rows(),
        edges.width == roi.columns(),
        window.within(SIDE_MAX as int, SIDE_MAX as int),
        0 <= margin <= 10_000,
    ensures
        exists|mask: Plane<bool>, boundary: Seq<(usize, usize)>| #[trigger]
            is_search_result(
                next,
                *edges,
                *roi,
                *window,
                margin as int,
                min_edge_pixels as int,
                mask,
                boundary,
            ),
{
    let sub = SearchWindow {
        x_low: window.x_low + margin,
        x_high: window.x_high - margin,
        y_low: window.y_low + margin,
        y_high: window.y_high - margin,
    };
    assert(sub == window.inset(margin as int));
    if sub.x_high <= sub.x_low || sub.y_high <= sub.y_low {
        let ghost mask = *edges;
        assert(is_search_result(
            SearchPoints::Stop,
            *edges,
            *roi,
            *window,
            margin as int,
            min_edge_pixels as int,
            mask,
            Seq::empty(),
        ));
        return SearchPoints::Stop;
    }
    let mask = window_mask(edges, roi, &sub);
    let boundary = largest_component(&mask);
    if boundary.len() < min_edge_pixels {
        assert(is_search_result(
            SearchPoints::TooFew,
            *edges,
            *roi,
            *window,
            margin as int,
            min_edge_pixels as int,
            mask,
            boundary@,
        ));
        return SearchPoints::TooFew;
    }
    let mut points: Vec<(usize, usize)> = Vec::new();
    let mut i: usize = 0;
    while i < boundary.len()
        invariant
            i <= boundary@.len(),
            points@.len() == i,
            forall|k: int|
                0 <= k < i ==> #[trigger] points@[k] == (
                    (roi.x_lu + boundary@[k].1) as usize,
                    (roi.y_lu + boundary@[k].0) as usize,
                ),
        decreases boundary@.len() - i,
    {
        assert(boundary@.len() > 0);
        assert(mask.inside(boundary@[i as int].0 as int, boundary@[i as int].1 as int));
        points.push((roi.x_lu + boundary[i].1, roi.y_lu + boundary[i].0));
        i += 1;
    }
    assert(points@ =~= image_points(boundary@, *roi));
    let next = SearchPoints::Fit(points);
    assert(is_search_result(
        next,
        *edges,
        *roi,
        *window,
        margin as int,
        min_edge_pixels as int,
        mask,
        boundary@,
    ));
    next
}

/// Whether a fitted centre has stayed: it lies no more than the diagonal of
/// a pixel from the centre before.
pub open spec fn has_converged(dx: int, dy: int) -> bool {
    dx * dx + dy * dy <= 2 * (UNIT * UNIT)
}

/// Where the search goes on after the circle `fitted` was fitted in the
/// search window `window` about the centre `(mid_x, mid_y)`: the window moved
/// by as many whole pixels as the centre has moved; `None` where the centre
/// has stayed and the search ends.
pub open spec fn next_window(window: SearchWindow, mid_x: int, mid_y: int, fitted: Circle) -> Option<
    SearchWindow,
> {
    let dx = fitted.x - mid_x;
    let dy = fitted.y - mid_y;
    if has_converged(dx, dy) {
        None
    } else {
        Some(window.shifted(nearest_whole(dx), nearest_whole(dy)))
    }
}

/// Where the search goes on after a fit.
pub fn advance(window: &SearchWindow, mid_x: i64, mid_y: i64, fitted: &Circle) -> (next: Option<
    SearchWindow,
>)
    requires
        window.within(SIDE_MAX as int, SIDE_MAX as int),
        -COORD_MAX <= mid_x <= COORD_MAX,
        -COORD_MAX <= mid_y <= COORD_MAX,
        fitted.wf(),
    ensures
        next == next_window(*window, mid_x as int, mid_y as int, *fitted),
        next matches Some(w) ==> w.wf(),
{
    let dx: i64 = fitted.x - mid_x;
    let dy: i64 = fitted.y - mid_y;
    proof {
        lemma_product_bound(dx as int, 2 * COORD_MAX, dx as int, 2 * COORD_MAX);
        lemma_product_bound(dy as int, 2 * COORD_MAX, dy as int, 2 * COORD_MAX);
        assert(dx * dx >= 0) by (nonlinear_arith);
        assert(dy * dy >= 0) by (nonlinear_arith);
        assert((2 * COORD_MAX) * (2 * COORD_MAX) == 40_000_000_000_000_000_000_000_000_000_000_000);
    }
    let distance: i128 = (dx as i128) * (dx as i128) + (dy as i128) * (dy as i128);
    if distance <= 2_000_000_000_000 {
        None
    } else {
        let sx: i64 = round_to_whole(dx);
        let sy: i64 = round_to_whole(dy);
        proof {
            lemma_round_div_bounds(dx as int, UNIT as int);
            lemma_round_div_bounds(dy as int, UNIT as int);
        }
        Some(
            SearchWindow {
                x_low: window.x_low + sx,
                x_high: window.x_high + sx,
                y_low: window.y_low + sy,
                y_high: window.y_high + sy,
            },
        )
    }
}

/// The search window in which the search starts: two pitches, rounded to
/// whole pixels, from the upper left corner of the window `roi`.
pub open spec fn first_window(roi: Roi, pitch: int) -> SearchWindow {
    SearchWindow {
        x_low: roi.x_lu as i64,
        x_high: (roi.x_lu + 2 * nearest_whole(pitch)) as i64,
        y_low: roi.y_lu as i64,
        y_high: (roi.y_lu + 2 * nearest_whole(pitch)) as i64,
    }
}

/// What a round of the search came to.
pub enum RoundOutcome {
    /// The search window held no pixel.
    Stop,
    /// The boundary had too few pixels.
    TooFew,
    /// No usable circle was fitted to the points.
    Unfit(Seq<(usize, usize)>),
    /// The circle was fitted to the points; the search goes on in the window,
    /// or ends where there is none.
    Fitted(Seq<(usize, usize)>, Circle, Option<SearchWindow>),
}

/// A round of the search: the search window and the centre that it started
/// from, and what it came to.
pub struct Round {
    pub window: SearchWindow,
    pub mid: (i64, i64),
    pub outcome: RoundOutcome,
}

/// Whether `boundary` lists the largest connected set of the edges in the
/// search window `sub`, of which `mask` is the raster.
pub open spec fn is_boundary(
    mask: Plane<bool>,
    boundary: Seq<(usize, usize)>,
    edges: Plane<bool>,
    roi: Roi,
    sub: SearchWindow,
) -> bool {
    is_window_mask(mask, edges, roi, sub) && is_largest_component(mask, boundary)
}

/// Whether the points are those of the boundary in the search window `sub`,
/// which has `min_edge_pixels` pixels or more.
pub open spec fn are_boundary_points(
    points: Seq<(usize, usize)>,
    edges: Plane<bool>,
    roi: Roi,
    sub: SearchWindow,
    min_edge_pixels: int,
) -> bool {
    exists|mask: Plane<bool>, boundary: Seq<(usize, usize)>|
        #[trigger] is_boundary(mask, boundary, edges, roi, sub) && boundary.len()
            >= min_edge_pixels && points == image_points(boundary, roi)
}

/// Whether the boundary in the search window `sub` has less than
/// `min_edge_pixels` pixels.
pub open spec fn has_short_boundary(
    edges: Plane<bool>,
    roi: Roi,
    sub: SearchWindow,
    min_edge_pixels: int,
) -> bool {
    exists|mask: Plane<bool>, boundary: Seq<(usize, usize)>|
        #[trigger] is_boundary(mask, boundary, edges, roi, sub) && boundary.len() < min_edge_pixels
}

/// Whether `fit` can give `answer` for the points.
pub open spec fn answers<F: Fn(&Vec<(usize, usize)>) -> Option<Circle>>(
    fit: F,
    points: Seq<(usize, usize)>,
    answer: Option<Circle>,
) -> bool {
    exists|given: &Vec<(usize, usize)>| given@ == points && #[trigger] call_ensures(
        fit,
        (given,),
        answer,
    )
}

/// Whether an answer of the fit is a circle of a size to compute with.
pub open spec fn is_usable(answer: Option<Circle>) -> bool {
    answer matches Some(c) && c.wf()
}

/// Whether a round is a round of the search on the edge map `edges` of the
/// window `roi`, in a frame of the given size: its search window, moved into
/// the frame and without its margin, holds what its outcome says; the fit
/// gave what it says; and the search goes on where the fitted centre has
/// moved.
pub open spec fn is_round<F: Fn(&Vec<(usize, usize)>) -> Option<Circle>>(
    round: Round,
    edges: Plane<bool>,
    roi: Roi,
    width: int,
    height: int,
    margin: int,
    min_edge_pixels: int,
    fit: F,
) -> bool {
    let inside = round.window.clamped(width, height);
    let sub = inside.inset(margin);
    match round.outcome {
        RoundOutcome::Stop => sub.has_no_pixel(),
        RoundOutcome::TooFew => !sub.has_no_pixel() && has_short_boundary(
            edges,
            roi,
            sub,
            min_edge_pixels,
        ),
        RoundOutcome::Unfit(points) => {
            &&& !sub.has_no_pixel()
            &&& are_boundary_points(points, edges, roi, sub, min_edge_pixels)
            &&& exists|answer: Option<Circle>| #[trigger]
                answers(fit, points, answer) && !is_usable(answer)
        },
        RoundOutcome::Fitted(points, circle, next) => {
            &&& !sub.has_no_pixel()
            &&& are_boundary_points(points, edges, roi, sub, min_edge_pixels)
            &&& answers(fit, points, Some(circle))
            &&& circle.wf()
            &&& next == next_window(inside, round.mid.0 as int, round.mid.1 as int, circle)
        },
    }
}

/// Whether the search goes on after a round.
pub open spec fn goes_on(round: Round) -> bool {
    round.outcome matches RoundOutcome::Fitted(_, _, Some(_))
}

/// Whether the round `after` takes up the search where `before` left it:
/// in the moved search window, and about the fitted centre.
pub open spec fn follows(before: Round, after: Round) -> bool {
    before.outcome matches RoundOutcome::Fitted(_, c, Some(w)) && after.window == w && after.mid
        == (c.x, c.y)
}

/// Whether `rounds` are the rounds of a search that starts in the search
/// window `start` about the centre `mid`: up to three rounds, each taking up
/// the search where the round before left it, the last being the third or
/// one after which the search does not go on.
pub open spec fn is_search_run<F: Fn(&Vec<(usize, usize)>) -> Option<Circle>>(
    rounds: Seq<Round>,
    edges: Plane<bool>,
    roi: Roi,
    width: int,
    height: int,
    margin: int,
    min_edge_pixels: int,
    fit: F,
    start: SearchWindow,
    mid: (i64, i64),
) -> bool {
    &&& 1 <= rounds.len() <= MAX_ITERATIONS
    &&& rounds[0].window == start
    &&& rounds[0].mid == mid
    &&& forall|k: int|
        0 <= k < rounds.len() ==> is_round(
            #[trigger] rounds[k],
            edges,
            roi,
            width,
            height,
            margin,
            min_edge_pixels,
            fit,
        )
    &&& forall|k: int| 0 < k < rounds.len() ==> follows(rounds[k - 1], #[trigger] rounds[k])
    &&& rounds.len() == MAX_ITERATIONS || !goes_on(rounds[rounds.len() - 1])
}

/// What a search gives: the circle that its last round fitted; where the
/// last round found its search window without a pixel, the circle that the
/// round before fitted; else the circle to fall back on.
pub open spec fn run_refinement(rounds: Seq<Round>, fallback: Circle) -> Refinement {
    if rounds.len() == 0 {
        Refinement::Fallback(fallback)
    } else {
        match rounds[rounds.len() - 1].outcome {
            RoundOutcome::Fitted(_, c, _) => Refinement::Fitted(c),
            RoundOutcome::Stop => if rounds.len() >= 2 {
                match rounds[rounds.len() - 2].outcome {
                    RoundOutcome::Fitted(_, c, _) => Refinement::Fitted(c),
                    _ => Refinement::Fallback(fallback),
                }
            } else {
                Refinement::Fallback(fallback)
            },
            _ => Refinement::Fallback(fallback),
        }
    }
}

/// Whether `refined` is what the search on the edge map `edges`, in the
/// rounds `rounds`, gives for a spot whose window is `roi`.
pub open spec fn is_edge_search<F: Fn(&Vec<(usize, usize)>) -> Option<Circle>>(
    refined: Refinement,
    normalized: Plane<i64>,
    spot: Spot,
    params: GridParams,
    fit: F,
    roi: Roi,
    edges: Plane<bool>,
    rounds: Seq<Round>,
) -> bool {
    &&& is_roi_edges(edges, normalized, roi, params)
    &&& is_search_run(
        rounds,
        edges,
        roi,
        normalized.width as int,
        normalized.height as int,
        search_margin(params.area_size as int, params.spot_pitch as int),
        params.min_edge_pixels as int,
        fit,
        first_window(roi, params.spot_pitch as int),
        (spot.grid_x, spot.grid_y),
    )
    &&& refined == run_refinement(
        rounds,
        fallback_circle(spot.grid_x, spot.grid_y, params.spot_pitch as int),
    )
}

/// Whether `refined` is what the refinement by edge gives for a spot: the
/// circle to fall back on where the window about the spot is too small, else
/// what the search on the edge map of the window gives.
pub open spec fn is_edge_refinement<F: Fn(&Vec<(usize, usize)>) -> Option<Circle>>(
    refined: Refinement,
    normalized: Plane<i64>,
    spot: Spot,
    params: GridParams,
    fit: F,
) -> bool {
    match roi_of(
        normalized.width as int,
        normalized.height as int,
        spot.grid_x as int,
        spot.grid_y as int,
        params.spot_pitch as int,
    ) {
        None => refined == Refinement::Fallback(
            fallback_circle(spot.grid_x, spot.grid_y, params.spot_pitch as int),
        ),
        Some(roi) => exists|edges: Plane<bool>, rounds: Seq<Round>| #[trigger]
            is_edge_search(refined, normalized, spot, params, fit, roi, edges, rounds),
    }
}

/// What the search has come to so far.
spec fn so_far(found: bool, fitted: Option<Circle>, fallback: Circle) -> Refinement {
    match fitted {
        Some(c) => if found {
            Refinement::Fitted(c)
        } else {
            Refinement::Fallback(fallback)
        },
        None => Refinement::Fallback(fallback),
    }
}

/// The state of the search after some rounds.
spec fn searching<F: Fn(&Vec<(usize, usize)>) -> Option<Circle>>(
    rounds: Seq<Round>,
    edges: Plane<bool>,
    roi: Roi,
    width: int,
    height: int,
    margin: int,
    min_edge_pixels: int,
    fit: F,
    start: SearchWindow,
    start_mid: (i64, i64),
    window: SearchWindow,
    mid: (i64, i64),
    done: bool,
) -> bool {
    &&& rounds.len() <= MAX_ITERATIONS
    &&& rounds.len() > 0 ==> rounds[0].window == start && rounds[0].mid == start_mid
    &&& rounds.len() == 0 ==> window == start && mid == start_mid && !done
    &&& forall|k: int|
        0 <= k < rounds.len() ==> is_round(
            #[trigger] rounds[k],
            edges,
            roi,
            width,
            height,
            margin,
            min_edge_pixels,
            fit,
        )
    &&& forall|k: int| 0 < k < rounds.len() ==> follows(rounds[k - 1], #[trigger] rounds[k])
    &&& rounds.len() > 0 ==> (done <==> !goes_on(rounds[rounds.len() - 1]))
    &&& rounds.len() > 0 && !done ==> (rounds[rounds.len() - 1].outcome matches RoundOutcome::Fitted(
        _,
        c,
        Some(w),
    ) && window == w && mid == (c.x, c.y))
}

/// Refines a spot by its edge. `normalized` is the frame as fractions of its
/// largest sample, `fit` fits a circle to points `(x, y)` of the frame.
///
/// The edge map of the window about the spot is searched up to three times:
/// each time a circle is fitted to the largest connected set of edge pixels
/// in the search window, and the search window follows the fitted centre
/// until it stays. The result is the circle to fall back on where the window
/// about the spot is too small, where a boundary has too few pixels, or where
/// no circle can be fitted; else it is the circle that was fitted last. A
/// fitted circle that is not of a size to compute with counts as no circle.
pub fn segment_by_edge<F: Fn(&Vec<(usize, usize)>) -> Option<Circle>>(
    normalized: &Plane<i64>,
    spot: &Spot,
    params: &GridParams,
    fit: &F,
) -> (refined: Refinement)
    requires
        normalized.wf(),
        normalized.between(0, UNIT as int),
        normalized.height <= SIDE_MAX,
        normalized.width <= SIDE_MAX,
        spot.wf(),
        params.within_limits(),
        forall|points: &Vec<(usize, usize)>| call_requires(*fit, (points,)),
    ensures
        is_edge_refinement(refined, *normalized, *spot, *params, *fit),
        refined.circle().wf(),
{
    proof {
        lemma_round_div_bounds(3 * params.spot_pitch, 10);
    }
    let fallback_circle = Circle {
        x: spot.grid_x,
        y: spot.grid_y,
        radius: div_round(3 * (params.spot_pitch as i128), 10) as i64,
    };
    let fallback = Refinement::Fallback(fallback_circle);
    let roi = match spot_roi(
        normalized.width,
        normalized.height,
        spot.grid_x,
        spot.grid_y,
        params.spot_pitch,
    ) {
        None => {
            return fallback;
        },
        Some(r) => r,
    };
    let edges = roi_edges(normalized, &roi, params);
    let margin: i64 = margin_of(params.area_size, params.spot_pitch);
    proof {
        lemma_round_div_bounds(params.spot_pitch as int, UNIT as int);
    }
    let pitch_px: i64 = round_to_whole(params.spot_pitch);
    let start = SearchWindow {
        x_low: roi.x_lu as i64,
        x_high: roi.x_lu as i64 + 2 * pitch_px,
        y_low: roi.y_lu as i64,
        y_high: roi.y_lu as i64 + 2 * pitch_px,
    };
    assert(start == first_window(roi, params.spot_pitch as int));
    let mut window = start;
    let mut mid_x: i64 = spot.grid_x;
    let mut mid_y: i64 = spot.grid_y;
    let mut fitted: Option<Circle> = None;
    let mut found: bool = false;
    let mut done: bool = false;
    let mut round: usize = 0;
    let ghost mut rounds: Seq<Round> = Seq::empty();
    let ghost width = normalized.width as int;
    let ghost height = normalized.height as int;
    let ghost min_px = params.min_edge_pixels as int;
    let ghost start_mid = (spot.grid_x, spot.grid_y);
    while round < MAX_ITERATIONS && !done
        invariant
            normalized.wf(),
            0 < normalized.height <= SIDE_MAX,
            0 < normalized.width <= SIDE_MAX,
            width == normalized.width,
            height == normalized.height,
            min_px == params.min_edge_pixels,
            roi.fits(normalized.width as int, normalized.height as int),
            edges.wf(),
            edges.height == roi.rows(),
            edges.width == roi.columns(),
            0 <= margin <= 10_000,
            window.wf(),
            -COORD_MAX <= mid_x <= COORD_MAX,
            -COORD_MAX <= mid_y <= COORD_MAX,
            forall|points: &Vec<(usize, usize)>| call_requires(*fit, (points,)),
            fitted matches Some(c) ==> c.wf(),
            round <= MAX_ITERATIONS,
            rounds.len() == round,
            searching(
                rounds,
                edges,
                roi,
                width,
                height,
                margin as int,
                min_px,
                *fit,
                start,
                start_mid,
                window,
                (mid_x, mid_y),
                done,
            ),
            so_far(found, fitted, fallback_circle) == run_refinement(rounds, fallback_circle),
        decreases MAX_ITERATIONS - round + if done { 0int } else { 1int },
    {
        let ghost before = rounds;
        let ghost this_window = window;
        let ghost this_mid = (mid_x, mid_y);
        let inside = window.clamp(normalized.width, normalized.height);
        let ghost sub = inside.inset(margin as int);
        let next = search_points(&edges, &roi, &inside, margin, params.min_edge_pixels);
        let ghost (mask, boundary) = choose|mask: Plane<bool>, boundary: Seq<(usize, usize)>| #[trigger]
            is_search_result(next, edges, roi, inside, margin as int, min_px, mask, boundary);
        let ghost mut outcome = RoundOutcome::Stop;
        match next {
            SearchPoints::Stop => {
                done = true;
            },
            SearchPoints::TooFew => {
                proof {
                    outcome = RoundOutcome::TooFew;
                    assert(is_boundary(mask, boundary, edges, roi, sub));
                }
                found = false;
                done = true;
            },
            SearchPoints::Fit(points) => {
                proof {
                    assert(is_boundary(mask, boundary, edges, roi, sub));
                    assert(are_boundary_points(points@, edges, roi, sub, min_px));
                }
                let answer = fit(&points);
                proof {
                    let given = &points;
                    assert(given@ == points@ && call_ensures(*fit, (given,), answer));
                    assert(answers(*fit, points@, answer));
                }
                let usable: Option<Circle> = match answer {
                    Some(c) => if c.is_wf() {
                        Some(c)
                    } else {
                        None
                    },
                    None => None,
                };
                match usable {
                    None => {
                        proof {
                            outcome = RoundOutcome::Unfit(points@);
                            assert(!is_usable(answer));
                        }
                        found = false;
                        done = true;
                    },
                    Some(c) => {
                        found = true;
                        fitted = Some(c);
                        let moved = advance(&inside, mid_x, mid_y, &c);
                        proof {
                            outcome = RoundOutcome::Fitted(points@, c, moved);
                        }
                        match moved {
                            None => {
                                done = true;
                            },
                            Some(w) => {
                                window = w;
                            },
                        }
                        mid_x = c.x;
                        mid_y = c.y;
                    },
                }
            },
        }
        proof {
            let this = Round { window: this_window, mid: this_mid, outcome };
            rounds = before.push(this);
            assert(is_round(this, edges, roi, width, height, margin as int, min_px, *fit));
            assert forall|k: int| 0 <= k < rounds.len() implies is_round(
                #[trigger] rounds[k],
                edges,
                roi,
                width,
                height,
                margin as int,
                min_px,
                *fit,
            ) by {
                if k < before.len() {
                    assert(rounds[k] == before[k]);
                }
            }
            assert forall|k: int| 0 < k < rounds.len() implies follows(
                rounds[k - 1],
                #[trigger] rounds[k],
            ) by {
                if k < before.len() {
                    assert(rounds[k] == before[k] && rounds[k - 1] == before[k - 1]);
                } else {
                    assert(rounds[k - 1] == before[before.len() - 1]);
                }
            }
            if before.len() > 0 {
                assert(rounds[0] == before[0]);
                assert(rounds[rounds.len() - 2] == before[before.len() - 1]);
            }
        }
        round += 1;
    }
    let refined = if found {
        match fitted {
            Some(c) => Refinement::Fitted(c),
            None => fallback,
        }
    } else {
        fallback
    };
    proof {
        assert(is_search_run(
            rounds,
            edges,
            roi,
            width,
            height,
            margin as int,
            min_px,
            *fit,
            start,
            start_mid,
        ));
        assert(is_edge_search(refined, *normalized, *spot, *params, *fit, roi, edges, rounds));
    }
    refined
}

} // verus!
