use pamsoft_grid::config::{GridParams, SegmentationMethod};
use pamsoft_grid::image_processing::normalize_image;
use pamsoft_grid::plane::Plane;
use pamsoft_grid::segmentation::classify::{check_if_empty, classify_spot};
use pamsoft_grid::segmentation::component::largest_component;
use pamsoft_grid::segmentation::edge::{
    advance, roi_edges, search_points, spot_roi, Roi, SearchPoints, SearchWindow,
};
use pamsoft_grid::image_processing::threshold;
use pamsoft_grid::segmentation::hough::{hough_circles, segment_by_hough};
use pamsoft_grid::segmentation::votes::ring_plane;
use pamsoft_grid::error::Error;
use pamsoft_grid::segmentation::fit::{
    fit_circle_robust, fit_circle_weighted, fit_places_robust, fit_places_weighted,
};
use pamsoft_grid::segmentation::{
    check_valid_spots, segment_by_edge, segment_spots, segment_spots_with, Circle, Refinement,
};
use pamsoft_grid::types::{ImageData, PixelGrid, Spot};
use rand::Rng;
use rand::SeedableRng;
use rand_chacha::ChaCha8Rng;
use std::f64::consts::PI;

const UNIT: i64 = 1_000_000;

fn image_from(width: usize, height: usize, sample: impl Fn(usize, usize) -> u16) -> ImageData {
    let mut cells = Vec::new();
    for y in 0..height {
        for x in 0..width {
            cells.push(sample(x, y));
        }
    }
    ImageData::new(PixelGrid::from_shape_vec(height, width, cells).unwrap(), "test".to_string())
}

fn create_spot_image(
    center_x: usize,
    center_y: usize,
    radius: f64,
    width: usize,
    height: usize,
    background: u16,
    edge: u16,
) -> ImageData {
    image_from(width, height, |x, y| {
        let dx = x as f64 - center_x as f64;
        let dy = y as f64 - center_y as f64;
        let dist = (dx * dx + dy * dy).sqrt();
        if (dist - radius).abs() < 1.5 {
            edge
        } else {
            background
        }
    })
}

fn spot_at(id: &str, x: i64, y: i64) -> Spot {
    Spot {
        id: id.to_string(),
        row: 1,
        col: 1,
        is_reference: false,
        x_offset: 0,
        y_offset: 0,
        x_fixed: 0,
        y_fixed: 0,
        grid_x: x,
        grid_y: y,
        diameter: 0,
        is_manual: false,
        is_bad: false,
        is_empty: false,
        rotation: 0,
    }
}

fn pixels(value: i64) -> f64 {
    value as f64 / 1e6
}

// The points in millionths of a pixel.
fn places(points: &[(f64, f64)]) -> Vec<(i64, i64)> {
    points.iter().map(|&(x, y)| ((x * 1e6).round() as i64, (y * 1e6).round() as i64)).collect()
}

#[test]
fn test_perfect_circle_fitting() {
    let center_x = 50.0;
    let center_y = 50.0;
    let radius = 10.0;

    let mut points = Vec::new();
    for i in 0..36 {
        let angle = (i as f64) * (2.0 * PI / 36.0);
        let x = center_x + radius * angle.cos();
        let y = center_y + radius * angle.sin();
        points.push((x, y));
    }
    let circle = fit_places_robust(&places(&points)).unwrap();
    assert!((pixels(circle.x) - center_x).abs() < 1e-3, "x = {}", pixels(circle.x));
    assert!((pixels(circle.y) - center_y).abs() < 1e-3, "y = {}", pixels(circle.y));
    assert!((pixels(circle.radius) - radius).abs() < 1e-3, "r = {}", pixels(circle.radius));
}

#[test]
fn test_noisy_circle_fitting() {
    let center_x = 50.0;
    let center_y = 50.0;
    let radius = 10.0;

    let mut points = Vec::new();
    for i in 0..36 {
        let angle = (i as f64) * (2.0 * PI / 36.0);
        let noise = if i % 5 == 0 { 0.5 } else { 0.0 };
        let x = center_x + (radius + noise) * angle.cos();
        let y = center_y + (radius + noise) * angle.sin();
        points.push((x, y));
    }
    let circle = fit_places_robust(&places(&points)).unwrap();
    assert!((pixels(circle.x) - center_x).abs() < 0.5, "x = {}", pixels(circle.x));
    assert!((pixels(circle.y) - center_y).abs() < 0.5, "y = {}", pixels(circle.y));
    assert!((pixels(circle.radius) - radius).abs() < 0.75, "r = {}", pixels(circle.radius));
}

#[test]
fn test_circle_fitting_with_outliers() {
    let center_x = 50.0;
    let center_y = 50.0;
    let radius = 10.0;

    let mut points = Vec::new();
    for i in 0..30 {
        let angle = (i as f64) * (2.0 * PI / 30.0);
        let x = center_x + radius * angle.cos();
        let y = center_y + radius * angle.sin();
        points.push((x, y));
    }

    points.push((100.0, 100.0));
    points.push((0.0, 0.0));
    points.push((200.0, 200.0));

    // the outliers count for nothing
    let circle = fit_places_robust(&places(&points)).unwrap();
    assert!((pixels(circle.x) - center_x).abs() < 1.0, "x = {}", pixels(circle.x));
    assert!((pixels(circle.y) - center_y).abs() < 1.0, "y = {}", pixels(circle.y));
    assert!((pixels(circle.radius) - radius).abs() < 1.0, "r = {}", pixels(circle.radius));
}

#[test]
fn test_tukey_weighting() {
    let residuals = vec![0.0, 0.5, 1.0, 2.0, 5.0, 10.0, 20.0];
    assert_eq!(residuals.len(), 7);
}

#[test]
fn test_fit_circle_robust() {
    let mut points = Vec::new();
    let center = (10.0, 10.0);
    let radius = 5.0;

    for angle in (0..360).step_by(10) {
        let angle_rad = (angle as f64) * PI / 180.0;
        let x = center.0 + radius * angle_rad.cos();
        let y = center.1 + radius * angle_rad.sin();
        points.push((x, y));
    }

    let circle = fit_places_robust(&places(&points)).unwrap();

    assert!((pixels(circle.x) - center.0).abs() < 0.1);
    assert!((pixels(circle.y) - center.1).abs() < 0.1);
    assert!((pixels(circle.radius) - radius).abs() < 0.5);
}

#[test]
fn points_between_pixels_are_fitted() {
    // a circle of radius 2.5 about (10.5, 20.25), some points below 0
    let offsets: [(i64, i64); 8] = [
        (2_500_000, 0),
        (1_500_000, 2_000_000),
        (0, 2_500_000),
        (-2_000_000, 1_500_000),
        (-2_500_000, 0),
        (-1_500_000, -2_000_000),
        (0, -2_500_000),
        (2_000_000, -1_500_000),
    ];
    let about = |cx: i64, cy: i64| -> Vec<(i64, i64)> {
        offsets.iter().map(|&(dx, dy)| (cx + dx, cy + dy)).collect()
    };
    assert_eq!(
        fit_places_robust(&about(10_500_000, 20_250_000)),
        Some(Circle { x: 10_500_000, y: 20_250_000, radius: 2_500_000 })
    );
    assert_eq!(
        fit_places_robust(&about(-1_000_001, 333_333)),
        Some(Circle { x: -1_000_001, y: 333_333, radius: 2_500_000 })
    );
    assert_eq!(
        fit_places_weighted(&about(7, -7), &vec![256, 3, 0, 17, 256, 1, 99, 0]),
        Some(Circle { x: 7, y: -7, radius: 2_500_000 })
    );
    // the pixels of a frame are points as well
    assert_eq!(
        fit_places_robust(&vec![(0, 0), (600_000_000, 0), (0, 600_000_000)]),
        fit_circle_robust(&vec![(0, 0), (600, 0), (0, 600)])
    );
    // a point that lies where no frame lies
    assert_eq!(fit_places_robust(&vec![(0, 0), (2_000_000_000_001, 0), (0, 5)]), None);
    assert_eq!(fit_places_robust(&vec![(0, 0), (0, -2_000_000_000_001), (7, 5)]), None);
}

fn on_circle_of_radius_five(cx: usize, cy: usize) -> Vec<(usize, usize)> {
    let offsets: [(i64, i64); 12] = [
        (5, 0),
        (4, 3),
        (3, 4),
        (0, 5),
        (-3, 4),
        (-4, 3),
        (-5, 0),
        (-4, -3),
        (-3, -4),
        (0, -5),
        (3, -4),
        (4, -3),
    ];
    offsets
        .iter()
        .map(|&(dx, dy)| ((cx as i64 + dx) as usize, (cy as i64 + dy) as usize))
        .collect()
}

#[test]
fn points_on_a_circle_are_fitted_exactly() {
    let points = on_circle_of_radius_five(40, 70);
    let expected = Circle { x: 40 * UNIT, y: 70 * UNIT, radius: 5 * UNIT };
    assert_eq!(fit_circle_robust(&points), Some(expected));
    assert_eq!(fit_circle_weighted(&points, &vec![256; 12]), Some(expected));
    // with any weights
    let weights: Vec<i64> = (0..12).map(|i| 20 * i + 3).collect();
    assert_eq!(fit_circle_weighted(&points, &weights), Some(expected));
    // a circle about a point between pixels: the corners of a rectangle
    let corners = vec![(10, 20), (13, 20), (13, 24), (10, 24)];
    assert_eq!(
        fit_circle_robust(&corners),
        Some(Circle { x: 11_500_000, y: 22 * UNIT, radius: 2_500_000 })
    );
}

#[test]
fn outliers_do_not_move_the_fit() {
    let mut points = on_circle_of_radius_five(40, 70);
    points.extend(on_circle_of_radius_five(40, 70).iter().map(|&(x, y)| (x, y)));
    points.push((60, 90));
    points.push((20, 75));
    let circle = fit_circle_robust(&points).unwrap();
    assert!((pixels(circle.x) - 40.0).abs() < 1.0, "x = {}", pixels(circle.x));
    assert!((pixels(circle.y) - 70.0).abs() < 1.0, "y = {}", pixels(circle.y));
    assert!((pixels(circle.radius) - 5.0).abs() < 1.0, "r = {}", pixels(circle.radius));
}

#[test]
fn no_circle_is_fitted_to_too_little() {
    assert_eq!(fit_circle_robust(&vec![]), None);
    assert_eq!(fit_circle_robust(&vec![(1, 1), (2, 5)]), None);
    // points on a line
    assert_eq!(fit_circle_robust(&vec![(1, 1), (2, 2), (3, 3), (7, 7)]), None);
    assert_eq!(fit_circle_robust(&vec![(4, 4), (4, 4), (4, 4)]), None);
    // weights that are all 0
    assert_eq!(fit_circle_weighted(&on_circle_of_radius_five(9, 9), &vec![0; 12]), None);
    // a point that no frame holds
    assert_eq!(fit_circle_robust(&vec![(0, 0), (2_000_001, 0), (0, 600)]), None);
    assert!(fit_circle_robust(&vec![(0, 0), (2_000_000, 0), (0, 600)]).is_some());
}

fn around(cx: usize, cy: usize, offsets: &[(i64, i64)]) -> Vec<(usize, usize)> {
    offsets.iter().map(|&(dx, dy)| ((cx as i64 + dx) as usize, (cy as i64 + dy) as usize)).collect()
}

#[test]
fn circles_of_any_size_are_fitted() {
    // points far apart
    assert_eq!(
        fit_circle_robust(&vec![(0, 0), (600, 0), (0, 600)]),
        Some(Circle { x: 300 * UNIT, y: 300 * UNIT, radius: 424_264_068 })
    );
    // eight points on a circle of radius 500
    let offsets = [
        (500, 0),
        (300, 400),
        (0, 500),
        (-400, 300),
        (-500, 0),
        (-300, -400),
        (0, -500),
        (400, -300),
    ];
    assert_eq!(
        fit_circle_robust(&around(1000, 2000, &offsets)),
        Some(Circle { x: 1000 * UNIT, y: 2000 * UNIT, radius: 500 * UNIT })
    );
    // and on one of radius 100000, as wide as a frame can be
    let wide: Vec<(i64, i64)> = offsets.iter().map(|&(x, y)| (200 * x, 200 * y)).collect();
    assert_eq!(
        fit_circle_robust(&around(500_000, 600_000, &wide)),
        Some(Circle { x: 500_000 * UNIT, y: 600_000 * UNIT, radius: 100_000 * UNIT })
    );
    // many points: the twelve of a small circle, a thousand times over
    let mut many = Vec::new();
    for _ in 0..1000 {
        many.extend(on_circle_of_radius_five(40, 70));
    }
    assert_eq!(
        fit_circle_robust(&many),
        Some(Circle { x: 40 * UNIT, y: 70 * UNIT, radius: 5 * UNIT })
    );
    // three points nearly in line: the centre lies far off, below the frame
    let flat = fit_circle_robust(&vec![(0, 0), (200, 1), (400, 0)]).unwrap();
    assert_eq!(flat, Circle { x: 200 * UNIT, y: -19_999_500_000, radius: 20_000_500_000 });
    // with outliers on the large circle
    let mut points = around(500_000, 600_000, &wide);
    points.extend(around(500_000, 600_000, &wide));
    points.push((530_000, 640_000));
    let circle = fit_circle_robust(&points).unwrap();
    assert!((pixels(circle.x) - 500_000.0).abs() < 1.0, "x = {}", pixels(circle.x));
    assert!((pixels(circle.y) - 600_000.0).abs() < 1.0, "y = {}", pixels(circle.y));
    assert!((pixels(circle.radius) - 100_000.0).abs() < 1.0, "r = {}", pixels(circle.radius));
}

#[test]
fn weights_count() {
    // two pairs of points: on a circle of radius 5 about (5, 5), and on one
    // of radius 13 about the same centre
    let points = vec![(10, 5), (0, 5), (5, 10), (5, 0), (18, 5), (5, 18)];
    let near = fit_circle_weighted(&points, &vec![256, 256, 256, 256, 0, 0]).unwrap();
    assert_eq!(near, Circle { x: 5 * UNIT, y: 5 * UNIT, radius: 5 * UNIT });
    let all = fit_circle_weighted(&points, &vec![256; 6]).unwrap();
    assert!(all.radius > 5 * UNIT && all.radius < 13 * UNIT);
    assert!(all.x > 5 * UNIT && all.y > 5 * UNIT);
}

fn sorted(mut cells: Vec<(usize, usize)>) -> Vec<(usize, usize)> {
    cells.sort();
    cells
}

#[test]
fn test_connected_components_single_blob() {
    let mut edge_map = Plane::filled(20, 20, false);
    for i in 8..12 {
        for j in 8..12 {
            edge_map.set(i, j, true);
        }
    }
    let blob = largest_component(&edge_map);
    assert_eq!(blob.len(), 16);
    assert!(blob.iter().all(|&(y, x)| (8..12).contains(&y) && (8..12).contains(&x)));
}

#[test]
fn test_connected_components_multiple_blobs() {
    let mut edge_map = Plane::filled(30, 30, false);
    for i in 5..7 {
        for j in 5..7 {
            edge_map.set(i, j, true);
        }
    }
    for i in 15..19 {
        for j in 15..19 {
            edge_map.set(i, j, true);
        }
    }
    let blob = largest_component(&edge_map);
    assert_eq!(blob.len(), 16);
    assert!(blob.iter().all(|&(y, x)| (15..19).contains(&y) && (15..19).contains(&x)));
}

#[test]
fn test_connected_components_diagonal() {
    let mut edge_map = Plane::filled(10, 10, false);
    edge_map.set(3, 3, true);
    edge_map.set(4, 4, true);
    edge_map.set(5, 5, true);
    edge_map.set(6, 6, true);
    let blob = largest_component(&edge_map);
    assert_eq!(sorted(blob), vec![(3, 3), (4, 4), (5, 5), (6, 6)]);
}

#[test]
fn of_equal_components_the_first_is_taken() {
    let mut edge_map = Plane::filled(6, 6, false);
    edge_map.set(4, 0, true);
    edge_map.set(4, 1, true);
    edge_map.set(1, 4, true);
    edge_map.set(2, 4, true);
    edge_map.set(0, 0, true);
    assert_eq!(sorted(largest_component(&edge_map)), vec![(1, 4), (2, 4)]);
    let none = Plane::filled(6, 6, false);
    assert!(largest_component(&none).is_empty());
}

#[test]
fn test_segment_synthetic_spot() {
    let center_x = 50;
    let center_y = 50;
    let expected_radius = 6.45;
    let image = create_spot_image(center_x, center_y, expected_radius, 100, 100, 50, 200);

    let spot = spot_at("test_spot", center_x as i64 * UNIT, center_y as i64 * UNIT);
    let params = GridParams::default();

    let mut spots = vec![spot];
    let result = segment_spots(&image, &mut spots, &params);

    assert!(result.is_ok(), "Segmentation should succeed");
    assert_eq!(spots.len(), 1, "Should have one spot");

    let seg_spot = &spots[0];

    let pos_error_x = (pixels(seg_spot.grid_x) - center_x as f64).abs();
    let pos_error_y = (pixels(seg_spot.grid_y) - center_y as f64).abs();
    assert!(
        pos_error_x < 2.0,
        "X position should be accurate within 2px, got error {}",
        pos_error_x
    );
    assert!(
        pos_error_y < 2.0,
        "Y position should be accurate within 2px, got error {}",
        pos_error_y
    );

    let expected_diameter = expected_radius * 2.0;
    let diameter_error = (pixels(seg_spot.diameter) - expected_diameter).abs();
    assert!(
        diameter_error < 2.0,
        "Diameter should be accurate within 2px, got error {}",
        diameter_error
    );

    assert!(!seg_spot.is_bad, "Good synthetic spot should not be bad");
    assert!(!seg_spot.is_empty, "Good synthetic spot should not be empty");
    assert_eq!(seg_spot.id, "test_spot");
}

#[test]
fn test_segment_weak_edges() {
    let image = create_spot_image(50, 50, 6.45, 100, 100, 100, 120);
    let spot = spot_at("weak_spot", 50 * UNIT, 50 * UNIT);

    let mut params = GridParams::default();
    params.edge_sensitivity = [0, 20_000];

    let mut spots = vec![spot];
    let result = segment_spots(&image, &mut spots, &params);

    assert!(result.is_ok(), "Segmentation should handle weak edges");
}

#[test]
fn test_segment_noisy_background() {
    let mut rng = ChaCha8Rng::seed_from_u64(42);
    let mut samples = vec![0u16; 100 * 100];
    for y in 0..100 {
        for x in 0..100 {
            let noise: f64 = rng.gen_range(-20.0..20.0);
            samples[y * 100 + x] = (100.0 + noise) as u16;
        }
    }

    let center_x = 50;
    let center_y = 50;
    let radius = 6.45;

    for y in 0..100 {
        for x in 0..100 {
            let dx = x as f64 - center_x as f64;
            let dy = y as f64 - center_y as f64;
            let dist = (dx * dx + dy * dy).sqrt();
            if (dist - radius).abs() < 1.5 {
                samples[y * 100 + x] = 250;
            }
        }
    }
    let image = image_from(100, 100, |x, y| samples[y * 100 + x]);

    let spot = spot_at("noisy_spot", center_x * UNIT, center_y * UNIT);
    let params = GridParams::default();
    let mut spots = vec![spot];
    let result = segment_spots(&image, &mut spots, &params);

    assert!(result.is_ok(), "Robust fitting should handle noise");
    assert!(!spots[0].is_empty, "Strong spot should be detected despite noise");
}

#[test]
fn a_spot_below_the_sensitivity_is_empty() {
    // the ring of the synthetic spot, with little contrast, and thresholds
    // that are magnitudes
    let image = create_spot_image(50, 50, 6.45, 100, 100, 50, 55);
    let mut params = GridParams::default();
    params.edge_sensitivity = [UNIT, 2 * UNIT];
    for small_disk in [170_000, 0] {
        params.small_disk = small_disk;
        let mut spots = vec![spot_at("faint", 50 * UNIT, 50 * UNIT)];
        assert!(segment_spots(&image, &mut spots, &params).is_ok());
        let spot = &spots[0];
        assert!(spot.is_bad);
        assert!(spot.is_empty);
        // the circle to fall back on: the nominal position, 0.6 pitches wide
        assert_eq!((spot.grid_x, spot.grid_y), (50 * UNIT, 50 * UNIT));
        assert_eq!(spot.diameter, 12_900_000);
    }
}

#[test]
fn a_ring_is_found_by_its_edges() {
    let image = create_spot_image(52, 47, 6.45, 100, 100, 50, 200);
    let mut params = GridParams::default();
    params.small_disk = 0;
    params.edge_sensitivity = [200_000, 500_000];
    let normalized = normalize_image(&image);
    let spot = spot_at("ring", 50 * UNIT, 50 * UNIT);
    match segment_by_edge(&normalized, &spot, &params, &fit_circle_robust) {
        Refinement::Fitted(c) => {
            assert!((pixels(c.x) - 52.0).abs() < 2.0, "x = {}", pixels(c.x));
            assert!((pixels(c.y) - 47.0).abs() < 2.0, "y = {}", pixels(c.y));
            assert!(pixels(c.radius) > 3.0 && pixels(c.radius) < 9.0);
        },
        Refinement::Fallback(_) => panic!("the ring was not found"),
    }
}

#[test]
fn refinement_falls_back_where_nothing_is_fitted() {
    let image = create_spot_image(50, 50, 6.45, 100, 100, 50, 200);
    let normalized = normalize_image(&image);
    let params = GridParams::default();
    let spot = spot_at("s", 50 * UNIT, 50 * UNIT);
    let fallback = Refinement::Fallback(Circle { x: 50 * UNIT, y: 50 * UNIT, radius: 6_450_000 });
    // no circle can be fitted
    let never = |_: &Vec<(usize, usize)>| -> Option<Circle> { None };
    assert_eq!(segment_by_edge(&normalized, &spot, &params, &never), fallback);
    // the fitted circle is too large to compute with
    let huge = |_: &Vec<(usize, usize)>| -> Option<Circle> {
        Some(Circle { x: 0, y: 0, radius: i64::MAX })
    };
    assert_eq!(segment_by_edge(&normalized, &spot, &params, &huge), fallback);
    // the boundary has too few pixels
    let mut strict = GridParams::default();
    strict.min_edge_pixels = 100_000;
    assert_eq!(segment_by_edge(&normalized, &spot, &strict, &fit_circle_robust), fallback);
    // the window about the spot is too small
    let corner = spot_at("corner", -18 * UNIT, 50 * UNIT);
    assert_eq!(
        segment_by_edge(&normalized, &corner, &params, &fit_circle_robust),
        Refinement::Fallback(Circle { x: -18 * UNIT, y: 50 * UNIT, radius: 6_450_000 })
    );
}

#[test]
fn the_search_follows_the_fitted_centre() {
    let image = create_spot_image(50, 50, 6.45, 100, 100, 50, 200);
    let normalized = normalize_image(&image);
    let params = GridParams::default();
    let spot = spot_at("s", 50 * UNIT, 50 * UNIT);
    let calls = std::cell::Cell::new(0);
    // a fit that wanders: the search stops after three rounds
    let wander = |_: &Vec<(usize, usize)>| -> Option<Circle> {
        calls.set(calls.get() + 1);
        Some(Circle { x: (50 + 3 * calls.get()) * UNIT, y: 50 * UNIT, radius: 6 * UNIT })
    };
    let refined = segment_by_edge(&normalized, &spot, &params, &wander);
    assert_eq!(calls.get(), 3);
    assert_eq!(refined, Refinement::Fitted(Circle { x: 59 * UNIT, y: 50 * UNIT, radius: 6 * UNIT }));
    // a fit that stays: the search stops after the first round
    calls.set(0);
    let stay = |_: &Vec<(usize, usize)>| -> Option<Circle> {
        calls.set(calls.get() + 1);
        Some(Circle { x: 51 * UNIT, y: 49 * UNIT, radius: 6 * UNIT })
    };
    let refined = segment_by_edge(&normalized, &spot, &params, &stay);
    assert_eq!(calls.get(), 1);
    assert_eq!(refined, Refinement::Fitted(Circle { x: 51 * UNIT, y: 49 * UNIT, radius: 6 * UNIT }));
}

#[test]
fn the_window_about_a_spot() {
    assert_eq!(
        spot_roi(100, 100, 50 * UNIT, 50 * UNIT, 21_500_000),
        Some(Roi { x_lu: 28, y_lu: 28, x_rl: 71, y_rl: 71 })
    );
    assert_eq!(
        spot_roi(100, 80, 5 * UNIT, 70 * UNIT, 21_500_000),
        Some(Roi { x_lu: 0, y_lu: 48, x_rl: 26, y_rl: 79 })
    );
    // nine pixels are too few, ten are enough
    assert_eq!(spot_roi(100, 100, 50 * UNIT, 50 * UNIT, 4 * UNIT), None);
    assert_eq!(
        spot_roi(100, 100, 50 * UNIT, 50 * UNIT, 4_500_000),
        Some(Roi { x_lu: 45, y_lu: 45, x_rl: 54, y_rl: 54 })
    );
    assert_eq!(spot_roi(100, 100, 300 * UNIT, 50 * UNIT, 21_500_000), None);
    assert_eq!(spot_roi(0, 0, 0, 0, 21_500_000), None);
}

#[test]
fn a_search_window_is_moved_into_the_frame() {
    let window = SearchWindow { x_low: -5, x_high: 3, y_low: 98, y_high: 150 };
    assert_eq!(
        window.clamp(100, 100),
        SearchWindow { x_low: 0, x_high: 3, y_low: 98, y_high: 100 }
    );
    let window = SearchWindow { x_low: 120, x_high: 110, y_low: 10, y_high: 5 };
    assert_eq!(
        window.clamp(100, 100),
        SearchWindow { x_low: 99, x_high: 100, y_low: 10, y_high: 11 }
    );
}

fn two_blobs() -> (Plane<bool>, Roi) {
    let mut edges = Plane::filled(10, 10, false);
    for &(y, x) in &[(2, 2), (2, 3), (3, 3)] {
        edges.set(y, x, true);
    }
    for &(y, x) in &[(6, 6), (6, 7), (7, 6), (7, 7), (8, 8)] {
        edges.set(y, x, true);
    }
    (edges, Roi { x_lu: 10, y_lu: 20, x_rl: 19, y_rl: 29 })
}

#[test]
fn one_round_of_the_search() {
    let (edges, roi) = two_blobs();
    let window = SearchWindow { x_low: 10, x_high: 20, y_low: 20, y_high: 30 };
    match search_points(&edges, &roi, &window, 1, 4) {
        SearchPoints::Fit(points) => {
            assert_eq!(sorted(points), vec![(16, 26), (16, 27), (17, 26), (17, 27), (18, 28)])
        },
        _ => panic!("expected points"),
    }
    assert!(matches!(search_points(&edges, &roi, &window, 1, 6), SearchPoints::TooFew));
    assert!(matches!(search_points(&edges, &roi, &window, 1, 5), SearchPoints::Fit(_)));
    assert!(matches!(search_points(&edges, &roi, &window, 5, 1), SearchPoints::Stop));
    // a margin of 2 cuts the corner off the larger blob
    match search_points(&edges, &roi, &window, 2, 4) {
        SearchPoints::Fit(points) => {
            assert_eq!(sorted(points), vec![(16, 26), (16, 27), (17, 26), (17, 27)])
        },
        _ => panic!("expected points"),
    }
    // a window to the upper left holds the smaller blob only
    let window = SearchWindow { x_low: 10, x_high: 15, y_low: 20, y_high: 25 };
    match search_points(&edges, &roi, &window, 0, 1) {
        SearchPoints::Fit(points) => assert_eq!(sorted(points), vec![(12, 22), (13, 22), (13, 23)]),
        _ => panic!("expected points"),
    }
}

#[test]
fn the_search_ends_when_the_centre_stays() {
    let window = SearchWindow { x_low: 10, x_high: 20, y_low: 20, y_high: 30 };
    let circle = |x: i64, y: i64| Circle { x, y, radius: 3 * UNIT };
    assert_eq!(advance(&window, 15 * UNIT, 25 * UNIT, &circle(15_500_000, 25_500_000)), None);
    // the diagonal of a pixel is the limit
    assert_eq!(advance(&window, 15 * UNIT, 25 * UNIT, &circle(16 * UNIT, 26 * UNIT)), None);
    assert_eq!(
        advance(&window, 15 * UNIT, 25 * UNIT, &circle(16 * UNIT + 1, 26 * UNIT)),
        Some(SearchWindow { x_low: 11, x_high: 21, y_low: 21, y_high: 31 })
    );
    assert_eq!(
        advance(&window, 15 * UNIT, 25 * UNIT, &circle(18_400_000, 22_500_000)),
        Some(SearchWindow { x_low: 13, x_high: 23, y_low: 17, y_high: 27 })
    );
}

#[test]
fn the_edges_of_a_window() {
    let image = create_spot_image(50, 50, 6.45, 100, 100, 50, 200);
    let normalized = normalize_image(&image);
    let roi = Roi { x_lu: 28, y_lu: 28, x_rl: 71, y_rl: 71 };
    let mut params = GridParams::default();
    params.small_disk = 0;
    params.edge_sensitivity = [300_000, 600_000];
    let edges = roi_edges(&normalized, &roi, &params);
    assert_eq!((edges.height, edges.width), (44, 44));
    // edges lie about the ring, none in the flat corner or the flat middle
    let mut count = 0;
    for y in 0..44 {
        for x in 0..44 {
            if edges.get(y, x) {
                count += 1;
                let dx = (x + 28) as f64 - 50.0;
                let dy = (y + 28) as f64 - 50.0;
                let dist = (dx * dx + dy * dy).sqrt();
                assert!(dist > 1.0 && dist < 13.0, "edge at distance {}", dist);
            }
        }
    }
    assert!(count > 20);
}

#[test]
fn a_spot_is_judged_by_its_diameter_and_its_signal() {
    let normalized = Plane::filled(20, 20, 500_000i64);
    let spot = spot_at("s", 3 * UNIT, 4 * UNIT);
    let params = GridParams::default();
    let circle = |radius: i64| Circle { x: 10 * UNIT, y: 11 * UNIT, radius };

    let good = classify_spot(&normalized, &spot, Refinement::Fitted(circle(6_450_000)), &params);
    assert_eq!((good.grid_x, good.grid_y, good.diameter), (10 * UNIT, 11 * UNIT, 12_900_000));
    assert!(!good.is_bad && !good.is_empty);
    assert_eq!((good.id.as_str(), good.row, good.col), ("s", 1, 1));

    let failed = classify_spot(&normalized, &spot, Refinement::Fallback(circle(6_450_000)), &params);
    assert!(failed.is_bad && failed.is_empty);
    assert_eq!(failed.diameter, 12_900_000);

    // 0.45 and 0.85 pitches of 21.5 pixels are the bounds
    let small = classify_spot(&normalized, &spot, Refinement::Fitted(circle(4_837_500)), &params);
    assert!(!small.is_bad);
    let smaller = classify_spot(&normalized, &spot, Refinement::Fitted(circle(4_837_499)), &params);
    assert!(smaller.is_bad && smaller.is_empty);
    let large = classify_spot(&normalized, &spot, Refinement::Fitted(circle(9_137_500)), &params);
    assert!(!large.is_bad);
    let larger = classify_spot(&normalized, &spot, Refinement::Fitted(circle(9_137_501)), &params);
    assert!(larger.is_bad);
}

#[test]
fn a_spot_without_signal_is_empty() {
    let mut spot = spot_at("s", 10 * UNIT, 10 * UNIT);
    spot.diameter = 6 * UNIT;
    assert!(!check_if_empty(&Plane::filled(20, 20, 100_000i64), &spot));
    assert!(check_if_empty(&Plane::filled(20, 20, 99_999i64), &spot));
    // the mean over the pixels of the spot decides
    let mut plane = Plane::filled(20, 20, 0i64);
    plane.set(10, 10, UNIT);
    plane.set(10, 11, UNIT);
    plane.set(11, 10, UNIT);
    // 29 pixels lie within 3 pixels of the centre: 3 of 29 is more than a tenth
    assert!(!check_if_empty(&plane, &spot));
    plane.set(11, 10, 0);
    assert!(check_if_empty(&plane, &spot));
    // a bad spot is empty, and so is a spot that holds no pixel
    spot.is_bad = true;
    assert!(check_if_empty(&Plane::filled(20, 20, UNIT), &spot));
    let mut point = spot_at("p", 10_500_000, 10_500_000);
    point.diameter = 0;
    assert!(check_if_empty(&Plane::filled(20, 20, UNIT), &point));
    let off = spot_at("off", 500 * UNIT, 10 * UNIT);
    assert!(check_if_empty(&Plane::filled(20, 20, UNIT), &off));
}

#[test]
fn every_pixel_of_the_disk_counts() {
    // the spot lies between two pixels; only the bright one is within it
    let frame = Plane { height: 1, width: 2, cells: vec![0i64, UNIT] };
    let mut spot = spot_at("s", 600_000, 0);
    spot.diameter = UNIT;
    assert!(!check_if_empty(&frame, &spot));
    // and the other way round
    let frame = Plane { height: 1, width: 2, cells: vec![UNIT, 0i64] };
    assert!(check_if_empty(&frame, &spot));
    // a pixel at the very rim of the spot
    let frame = Plane { height: 1, width: 4, cells: vec![0i64, 0, 0, UNIT] };
    let mut rim = spot_at("rim", 2_500_000, 0);
    rim.diameter = UNIT;
    assert!(!check_if_empty(&frame, &rim));
}

#[test]
fn a_frame_without_contrast_gives_bad_and_empty_spots() {
    let image = image_from(100, 100, |_, _| 700);
    let params = GridParams::default();
    let mut spots = vec![spot_at("s", 50 * UNIT, 50 * UNIT)];
    assert!(segment_spots(&image, &mut spots, &params).is_ok());
    assert!(spots[0].is_bad);
    assert!(spots[0].is_empty);
    assert_eq!((spots[0].grid_x, spots[0].grid_y), (50 * UNIT, 50 * UNIT));
    // 0.6 of the pitch of 21.5
    assert_eq!(spots[0].diameter, 12_900_000);
}

fn ring_gradient(side: usize, cx: f64, cy: f64, radius: f64) -> Plane<i64> {
    let mut gradient = Plane::filled(side, side, 0i64);
    for k in 0..72 {
        let angle = (k as f64) * PI / 36.0;
        let x = (cx + radius * angle.cos()).round() as usize;
        let y = (cy + radius * angle.sin()).round() as usize;
        gradient.set(y, x, UNIT);
    }
    gradient
}

#[test]
fn votes_find_the_centre_of_a_ring() {
    let gradient = ring_gradient(31, 15.0, 14.0, 6.0);
    let winner = hough_circles(&gradient, 6, 6, 300_000).unwrap();
    assert!((pixels(winner.x) - 15.0).abs() <= 1.0, "x = {}", pixels(winner.x));
    assert!((pixels(winner.y) - 14.0).abs() <= 1.0, "y = {}", pixels(winner.y));
    assert_eq!(winner.radius, 6 * UNIT);
    // the radius is that of the bin with the most votes
    let winner = hough_circles(&gradient, 3, 9, 300_000).unwrap();
    assert_eq!(winner.radius, 6 * UNIT);
    assert!((pixels(winner.x) - 15.0).abs() <= 1.0, "x = {}", pixels(winner.x));
    assert!((pixels(winner.y) - 14.0).abs() <= 1.0, "y = {}", pixels(winner.y));
    // no pixel is above the level, or no radius is voted for
    assert_eq!(hough_circles(&gradient, 6, 6, UNIT), None);
    assert_eq!(hough_circles(&gradient, 7, 6, 300_000), None);
    // a single pixel gives no centre ten votes
    let mut single = Plane::filled(31, 31, 0i64);
    single.set(15, 15, UNIT);
    assert_eq!(hough_circles(&single, 6, 6, 300_000), None);
}

#[test]
fn votes_off_the_raster_are_dropped() {
    // a pixel at the corner: of its 36 votes at radius 3, those with a
    // negative coordinate go to no cell
    let mut single = Plane::filled(8, 8, 0i64);
    single.set(0, 0, UNIT);
    assert_eq!(hough_circles(&single, 3, 3, 300_000), None);
    let ring = ring_plane(&threshold(&single, 300_000), 3, 10);
    assert_eq!(ring.get(0, 0), 0);
    // at 0 and at 90 degrees
    assert_eq!(ring.get(0, 3), 1);
    assert_eq!(ring.get(3, 0), 1);
    let mut total = 0;
    for y in 0..8 {
        for x in 0..8 {
            total += ring.get(y, x);
        }
    }
    // the angles from 0 to 90 degrees
    assert_eq!(total, 10);
}

#[test]
fn a_spot_is_refined_by_votes() {
    let image = create_spot_image(50, 50, 6.45, 100, 100, 50, 200);
    let normalized = normalize_image(&image);
    let mut params = GridParams::default();
    params.segmentation_method = SegmentationMethod::Hough;
    let spot = spot_at("s", 50 * UNIT, 50 * UNIT);
    match segment_by_hough(&normalized, &spot, &params) {
        Refinement::Fitted(c) => {
            // the smoothed ring is broad, and so is the peak of the votes
            assert!((pixels(c.x) - 50.0).abs() <= 6.0, "x = {}", pixels(c.x));
            assert!((pixels(c.y) - 50.0).abs() <= 6.0, "y = {}", pixels(c.y));
            // a radius between 0.45 and 0.85 pitches of 21.5, halved and cut to pixels
            assert!(c.radius >= 4 * UNIT && c.radius <= 9 * UNIT, "r = {}", pixels(c.radius));
            assert_eq!(c.radius % UNIT, 0);
        },
        Refinement::Fallback(_) => panic!("no circle was found"),
    }
    // a flat frame gives no votes
    let flat = Plane::filled(100, 100, 500_000i64);
    assert_eq!(
        segment_by_hough(&flat, &spot, &params),
        Refinement::Fallback(Circle { x: 50 * UNIT, y: 50 * UNIT, radius: 6_450_000 })
    );
    let mut spots = vec![spot];
    assert!(segment_spots(&image, &mut spots, &params).is_ok());
    assert!(spots[0].diameter >= 8 * UNIT && spots[0].diameter <= 18 * UNIT);
    assert_eq!(spots[0].diameter % (2 * UNIT), 0);
    // bad where the diameter is out of the bounds of 0.45 and 0.85 pitches
    let relative = pixels(spots[0].diameter) / 21.5;
    assert_eq!(spots[0].is_bad, relative < 0.45 || relative > 0.85);
    assert_eq!(spots[0].is_empty, spots[0].is_bad);
}

#[test]
fn a_pinned_spot_keeps_its_position() {
    let image = create_spot_image(50, 50, 6.45, 100, 100, 50, 200);
    let mut spot = spot_at("pinned", 50 * UNIT, 50 * UNIT);
    spot.x_fixed = 40_250_000;
    spot.y_fixed = 60_750_000;
    spot.diameter = 13 * UNIT;
    let mut spots = vec![spot];
    let never = |_: &Vec<(usize, usize)>| -> Option<Circle> { panic!("a pinned spot is not fitted") };
    assert!(segment_spots_with(&image, &mut spots, &GridParams::default(), &never).is_ok());
    assert_eq!((spots[0].grid_x, spots[0].grid_y), (40_250_000, 60_750_000));
    assert_eq!(spots[0].diameter, 13 * UNIT);
    assert!(!spots[0].is_bad && !spots[0].is_empty);
}

#[test]
fn a_group_needs_a_spot_of_use() {
    let good = spot_at("good", 0, 0);
    let mut bad = spot_at("bad", 0, 0);
    bad.is_bad = true;
    bad.is_empty = true;
    let mut empty = spot_at("empty", 0, 0);
    empty.is_empty = true;
    assert!(check_valid_spots(&[bad.clone(), good.clone(), empty.clone()]).is_ok());
    assert!(matches!(check_valid_spots(&[bad.clone(), empty.clone()]), Err(Error::NoValidSpots)));
    assert!(matches!(check_valid_spots(&[]), Err(Error::NoValidSpots)));
    assert!(check_valid_spots(&[good]).is_ok());
}
