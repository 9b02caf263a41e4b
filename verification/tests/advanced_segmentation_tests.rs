use pamsoft_grid::advanced_segmentation::{
    adaptive_edge_detection, hough_circle_detection, hough_circle_detection_with, hough_transform,
    refine_circle_parameters, Circle,
};
use pamsoft_grid::config::{GridParams, SegmentationMethod};
use pamsoft_grid::plane::Plane;
use pamsoft_grid::segmentation::{segment_spots, segment_spots_with};
use pamsoft_grid::types::{ImageData, PixelGrid, Spot};
use std::cell::RefCell;
use std::f64::consts::PI;

const UNIT: i64 = 1_000_000;

fn pixels(value: i64) -> f64 {
    value as f64 / 1e6
}

fn spot_at(x: i64, y: i64) -> Spot {
    Spot {
        id: "s".to_string(),
        row: 1,
        col: 1,
        is_reference: false,
        x_offset: 0,
        y_offset: 0,
        x_fixed: 0,
        y_fixed: 0,
        grid_x: x,
        grid_y: y,
        diameter: 0,
        is_manual: false,
        is_bad: false,
        is_empty: false,
        rotation: 0,
    }
}

fn ring_edges(side: usize, cx: f64, cy: f64, radius: f64) -> Plane<bool> {
    let mut edges = Plane::filled(side, side, false);
    for k in 0..72 {
        let angle = (k as f64) * PI / 36.0;
        let x = (cx + radius * angle.cos()).round() as usize;
        let y = (cy + radius * angle.sin()).round() as usize;
        edges.set(y, x, true);
    }
    edges
}

#[test]
fn test_adaptive_edge_detection() {
    let mut gradient = Plane::filled(10, 10, 0i64);
    gradient.set(5, 5, UNIT);
    gradient.set(5, 6, 900_000);

    let edges = adaptive_edge_detection(&gradient, 100_000);
    assert!(edges.get(5, 5));
}

#[test]
fn the_upper_part_of_the_gradient_is_edge() {
    let gradient = Plane { height: 2, width: 5, cells: vec![7i64, 2, 9, 4, 1, 10, 3, 8, 6, 5] };
    // the upper three tenths: the value at place 7 of the ascending order is 8
    let edges = adaptive_edge_detection(&gradient, 300_000);
    assert_eq!(
        edges.cells,
        vec![false, false, true, false, false, true, false, true, false, false]
    );
    // the upper half
    let edges = adaptive_edge_detection(&gradient, 500_000);
    assert_eq!(edges.cells.iter().filter(|&&e| e).count(), 5);
    assert!(edges.get(1, 3) && !edges.get(1, 4));
    // nothing is divided off: the threshold is 0
    let edges = adaptive_edge_detection(&gradient, 0);
    assert!(edges.cells.iter().all(|&e| e));
    // all is divided off: the threshold is the smallest value
    let edges = adaptive_edge_detection(&gradient, UNIT);
    assert!(edges.cells.iter().all(|&e| e));
}

#[test]
fn the_transform_finds_a_ring() {
    let edges = ring_edges(40, 20.0, 18.0, 7.0);
    let circles = hough_transform(&edges, 5, 9);
    assert!(!circles.is_empty() && circles.len() <= 3);
    let best = circles[0];
    assert!((pixels(best.x) - 20.0).abs() <= 1.0, "x = {}", pixels(best.x));
    assert!((pixels(best.y) - 18.0).abs() <= 1.0, "y = {}", pixels(best.y));
    assert!((pixels(best.radius) - 7.0).abs() <= 1.0);
    assert!(best.votes >= 10);
    for pair in circles.windows(2) {
        assert!(pair[0].votes >= pair[1].votes);
    }
    // no two of the circles overlap
    for a in 0..circles.len() {
        for b in 0..a {
            let dx = pixels(circles[a].x - circles[b].x);
            let dy = pixels(circles[a].y - circles[b].y);
            let reach = 0.5 * pixels(circles[a].radius + circles[b].radius);
            assert!((dx * dx + dy * dy).sqrt() >= reach);
        }
    }
    let none = Plane::filled(40, 40, false);
    assert!(hough_transform(&none, 5, 9).is_empty());
}

fn near_ring() -> Plane<bool> {
    let mut edges = Plane::filled(40, 40, false);
    for &(x, y) in &[
        (30, 20),
        (10, 20),
        (20, 30),
        (20, 10),
        (26, 28),
        (14, 28),
        (26, 12),
        (14, 12),
        (28, 26),
        (12, 26),
        (28, 14),
        (12, 14),
        // at the middle, and too far out
        (20, 20),
        (20, 36),
    ] {
        edges.set(y, x, true);
    }
    edges
}

#[test]
fn a_circle_is_refined_by_the_pixels_near_it() {
    let edges = near_ring();
    let initial = Circle { x: 25 * UNIT, y: 23 * UNIT, radius: 10 * UNIT, votes: 17 };
    let seen: RefCell<Vec<(usize, usize)>> = RefCell::new(Vec::new());
    let fit = |points: &Vec<(usize, usize)>| {
        *seen.borrow_mut() = points.clone();
        Some(pamsoft_grid::segmentation::Circle { x: 25_250_000, y: 22_750_000, radius: 9_900_000 })
    };
    // the window has its corner at (5, 3) of the frame
    let refined = refine_circle_parameters(&edges, 3, 5, &initial, &fit);
    assert_eq!(
        refined,
        Circle { x: 25_250_000, y: 22_750_000, radius: 9_900_000, votes: 17 }
    );
    let points = seen.borrow().clone();
    assert_eq!(points.len(), 12);
    assert_eq!(points[0], (25, 13));
    assert_eq!(points[11], (25, 33));
    assert!(!points.contains(&(25, 23)) && !points.contains(&(25, 39)));
}

#[test]
fn a_circle_stays_where_the_fit_is_of_no_use() {
    let edges = near_ring();
    let initial = Circle { x: 20 * UNIT, y: 20 * UNIT, radius: 10 * UNIT, votes: 17 };
    let none = |_: &Vec<(usize, usize)>| -> Option<pamsoft_grid::segmentation::Circle> { None };
    assert_eq!(refine_circle_parameters(&edges, 0, 0, &initial, &none), initial);
    // a radius of the width of the window or more is of no use
    let wide = |_: &Vec<(usize, usize)>| {
        Some(pamsoft_grid::segmentation::Circle { x: 20 * UNIT, y: 20 * UNIT, radius: 40 * UNIT })
    };
    assert_eq!(refine_circle_parameters(&edges, 0, 0, &initial, &wide), initial);
    let flat = |_: &Vec<(usize, usize)>| {
        Some(pamsoft_grid::segmentation::Circle { x: 20 * UNIT, y: 20 * UNIT, radius: 0 })
    };
    assert_eq!(refine_circle_parameters(&edges, 0, 0, &initial, &flat), initial);
    // with less than ten pixels near the circle nothing is fitted
    let small = Circle { x: 20 * UNIT, y: 20 * UNIT, radius: 3 * UNIT, votes: 17 };
    let never = |_: &Vec<(usize, usize)>| -> Option<pamsoft_grid::segmentation::Circle> {
        panic!("nothing is to be fitted")
    };
    assert_eq!(refine_circle_parameters(&edges, 0, 0, &small, &never), small);
}

fn disk_image() -> ImageData {
    let mut cells = Vec::new();
    for y in 0..100 {
        for x in 0..100 {
            let dx = x as f64 - 52.0;
            let dy = y as f64 - 49.0;
            cells.push(if (dx * dx + dy * dy).sqrt() <= 7.0 { 900u16 } else { 100u16 });
        }
    }
    ImageData::new(PixelGrid::from_shape_vec(100, 100, cells).unwrap(), "disk".to_string())
}

#[test]
fn the_detector_finds_a_disk() {
    let image = disk_image();
    let samples = image.samples();
    let mut params = GridParams::default();
    params.segmentation_method = SegmentationMethod::Advanced;
    let keep = |_: &Vec<(usize, usize)>| -> Option<pamsoft_grid::segmentation::Circle> { None };
    let found =
        hough_circle_detection_with(&samples, &spot_at(50 * UNIT, 50 * UNIT), &params, &keep)
            .expect("a circle");
    // the edge of the smoothed disk is broad, and so are the votes: the
    // circle lies in the window about the spot
    assert!(pixels(found.x) >= 28.0 && pixels(found.x) <= 71.0, "x = {}", pixels(found.x));
    assert!(pixels(found.y) >= 28.0 && pixels(found.y) <= 71.0, "y = {}", pixels(found.y));
    assert_eq!((found.x % UNIT, found.y % UNIT, found.radius % UNIT), (0, 0, 0));
    assert!(pixels(found.radius) >= 4.0 && pixels(found.radius) <= 9.0);
    assert!(found.votes >= 10);
    // the radii make no range
    let mut narrow = GridParams::default();
    narrow.min_diameter = 820_000;
    narrow.max_diameter = 830_000;
    assert_eq!(
        hough_circle_detection_with(&samples, &spot_at(50 * UNIT, 50 * UNIT), &narrow, &keep),
        None
    );
    // the window about the spot lies off the frame
    assert_eq!(
        hough_circle_detection(&image, &spot_at(500 * UNIT, 50 * UNIT), &params),
        None
    );

    let mut spots = vec![spot_at(50 * UNIT, 50 * UNIT)];
    assert!(segment_spots_with(&image, &mut spots, &params, &keep).is_ok());
    assert_eq!((spots[0].grid_x, spots[0].grid_y), (found.x, found.y));
    assert_eq!(spots[0].diameter, 2 * found.radius);
    assert!(!spots[0].is_empty || spots[0].is_bad);

    // with the robust fit to the edge pixels near the winner
    let refined = hough_circle_detection(&image, &spot_at(50 * UNIT, 50 * UNIT), &params)
        .expect("a circle");
    assert_eq!(refined.votes, found.votes);
    let mut spots = vec![spot_at(50 * UNIT, 50 * UNIT)];
    assert!(segment_spots(&image, &mut spots, &params).is_ok());
    assert_eq!((spots[0].grid_x, spots[0].grid_y), (refined.x, refined.y));
}
