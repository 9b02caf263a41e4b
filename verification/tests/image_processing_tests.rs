use pamsoft_grid::error::Error;
use pamsoft_grid::image_processing::canny::hysteresis_thresholding;
use pamsoft_grid::image_processing::connect::{flood_fill, trace_edges};
use pamsoft_grid::image_processing::gradient::{
    compute_gradient_magnitude_direction, compute_gradients_sobel, isqrt, non_maximum_suppression,
};
use pamsoft_grid::image_processing::morphology::create_disk_structuring_element;
use pamsoft_grid::image_processing::{
    canny_edge_detection, compute_gradient, cross_correlate, dilate, erode, gaussian_blur,
    morphological_opening, normalize_image, normalize_plane, plane_max, preprocess_images,
    rescale_image, threshold,
};
use pamsoft_grid::plane::Plane;
use pamsoft_grid::types::{ImageData, PixelGrid};

const UNIT: i64 = 1_000_000;

fn plane_from<T: Copy>(rows: &[Vec<T>]) -> Plane<T> {
    let height = rows.len();
    let width = if height == 0 { 0 } else { rows[0].len() };
    let mut cells = Vec::new();
    for row in rows {
        assert_eq!(row.len(), width);
        cells.extend_from_slice(row);
    }
    Plane { height, width, cells }
}

fn rows_of<T: Copy>(plane: &Plane<T>) -> Vec<Vec<T>> {
    (0..plane.height)
        .map(|y| (0..plane.width).map(|x| plane.get(y, x)).collect())
        .collect()
}

fn image_from(name: &str, rows: &[Vec<u16>]) -> ImageData {
    let height = rows.len();
    let width = if height == 0 { 0 } else { rows[0].len() };
    let mut cells = Vec::new();
    for row in rows {
        cells.extend_from_slice(row);
    }
    ImageData::new(PixelGrid::from_shape_vec(height, width, cells).unwrap(), name.to_string())
}

#[test]
fn test_normalize_image() {
    let image = image_from("n", &[vec![0, 100], vec![200, 255]]);
    let normalized = normalize_image(&image);
    assert_eq!(normalized.get(0, 0), 0);
    assert_eq!(normalized.get(1, 1), UNIT);
    // rounded down to the millionth
    assert_eq!(normalized.get(0, 1), 392_156);
    assert_eq!(normalized.get(1, 0), 784_313);
}

#[test]
fn a_dark_frame_normalizes_to_zero() {
    let image = image_from("dark", &[vec![0, 0, 0], vec![0, 0, 0]]);
    let normalized = normalize_image(&image);
    assert_eq!(rows_of(&normalized), vec![vec![0, 0, 0], vec![0, 0, 0]]);
    let samples = plane_from(&[vec![3u16, 9, 6]]);
    assert_eq!(plane_max(&samples), 9);
    assert_eq!(rows_of(&normalize_plane(&samples)), vec![vec![333_333, UNIT, 666_666]]);
}

#[test]
fn test_threshold() {
    let data = plane_from(&[vec![100_000i64, 500_000], vec![700_000, 900_000]]);
    let thresholded = threshold(&data, 600_000);
    assert!(!thresholded.get(0, 0));
    assert!(!thresholded.get(0, 1));
    assert!(thresholded.get(1, 0));
    assert!(thresholded.get(1, 1));
    // a cell at the level is not above it
    assert!(!threshold(&data, 700_000).get(1, 0));
}

#[test]
fn blur_weighs_the_window_as_a_bell() {
    let row = plane_from(&[vec![0i64, 0, 3 * UNIT, 0, 0]]);
    // sigma 0.3: one pass, weights 1 2 1
    let smooth = gaussian_blur(&row, 300_000);
    assert_eq!(rows_of(&smooth), vec![vec![0, 750_000, 1_500_000, 750_000, 0]]);

    // at the border the window holds the cells that there are: weights 2 1
    let row = plane_from(&[vec![UNIT, 0, 0]]);
    let smooth = gaussian_blur(&row, 300_000);
    assert_eq!(rows_of(&smooth), vec![vec![666_667, 250_000, 0]]);

    // sigma 1: two passes either way, together the weights 1 4 6 4 1
    let mut square = Plane::filled(7, 7, 0i64);
    square.set(3, 3, 49 * UNIT);
    let smooth = gaussian_blur(&square, UNIT);
    // 49 * 6 / 16 along the row, then 6 / 16 of that along the column
    assert_eq!(smooth.get(3, 3), 6_890_625);
    assert_eq!(smooth.get(3, 2), 4_593_750);
    assert_eq!(smooth.get(0, 0), 0);
    // two cells off either way: 49 / 256
    assert_eq!(smooth.get(1, 1), 191_406);
    // a flat raster stays as it is
    let flat = Plane::filled(9, 9, 123_456i64);
    assert_eq!(rows_of(&gaussian_blur(&flat, 1_500_000)), rows_of(&flat));
    // a wide smoothing: 200 passes either way
    assert_eq!(rows_of(&gaussian_blur(&flat, 10 * UNIT)), rows_of(&flat));
}

#[test]
fn square_roots_round_down() {
    assert_eq!(isqrt(0), 0);
    assert_eq!(isqrt(1), 1);
    assert_eq!(isqrt(24), 4);
    assert_eq!(isqrt(25), 5);
    assert_eq!(isqrt(26), 5);
    assert_eq!(isqrt(1_000_000_000_000_000_000_000_000), 1_000_000_000_000);
    assert_eq!(isqrt(999_999_999_999_999_999_999_999), 999_999_999_999);
}

#[test]
fn gradient_of_three_four_five() {
    let data = plane_from(&[
        vec![0i64, 0, 0],
        vec![0, 0, UNIT],
        vec![0, 1_500_000, UNIT],
    ]);
    let (gx, gy) = compute_gradients_sobel(&data);
    assert_eq!(gx.get(1, 1), 3 * UNIT);
    assert_eq!(gy.get(1, 1), 4 * UNIT);
    assert_eq!(gx.get(0, 0), 0);
    let gradient = compute_gradient(&data);
    assert_eq!(gradient.get(1, 1), 5 * UNIT);
    assert_eq!(gradient.get(0, 1), 0);
    assert_eq!(gradient.get(2, 2), 0);
}

#[test]
fn directions_fall_into_four_buckets() {
    let gx = plane_from(&[vec![5i64, 0, 5, -5, 0, -5, 5, 1, 0]]);
    let gy = plane_from(&[vec![0i64, 5, 5, 5, -5, -5, 2, 5, 0]]);
    let (magnitude, direction) = compute_gradient_magnitude_direction(&gx, &gy);
    assert_eq!(rows_of(&direction), vec![vec![0u8, 2, 1, 3, 2, 1, 0, 2, 0]]);
    assert_eq!(magnitude.get(0, 0), 5);
    assert_eq!(magnitude.get(0, 2), 7);
    // 22.5 degrees divide the buckets: tan = 0.4142
    let gx = plane_from(&[vec![1000i64, 1000]]);
    let gy = plane_from(&[vec![414i64, 415]]);
    let (_, direction) = compute_gradient_magnitude_direction(&gx, &gy);
    assert_eq!(rows_of(&direction), vec![vec![0u8, 1]]);
}

#[test]
fn ridges_are_thinned_along_the_gradient() {
    let magnitude = plane_from(&[
        vec![0i64, 0, 0, 0, 0],
        vec![0, 2, 5, 3, 0],
        vec![0, 2, 5, 5, 0],
        vec![0, 0, 0, 0, 0],
    ]);
    let direction = Plane::filled(4, 5, 0u8);
    let thin = non_maximum_suppression(&magnitude, &direction);
    assert_eq!(
        rows_of(&thin),
        vec![
            vec![0, 0, 0, 0, 0],
            vec![0, 0, 5, 0, 0],
            // of two equal cells along the direction the first stays
            vec![0, 0, 5, 0, 0],
            vec![0, 0, 0, 0, 0],
        ]
    );
    // along the columns instead
    let direction = Plane::filled(4, 5, 2u8);
    let thin = non_maximum_suppression(&magnitude, &direction);
    assert_eq!(thin.get(1, 1), 2);
    assert_eq!(thin.get(1, 3), 0);
    assert_eq!(thin.get(2, 3), 5);
}

#[test]
fn a_diagonal_ridge_stays_whole() {
    // a ridge from the upper right to the lower left; the gradient across it
    // has components of one sign
    let mut magnitude = Plane::filled(5, 5, 0i64);
    magnitude.set(1, 3, 5);
    magnitude.set(2, 2, 5);
    magnitude.set(3, 1, 5);
    magnitude.set(2, 3, 2);
    let thin = non_maximum_suppression(&magnitude, &Plane::filled(5, 5, 1u8));
    assert_eq!(
        rows_of(&thin),
        vec![
            vec![0, 0, 0, 0, 0],
            vec![0, 0, 0, 5, 0],
            vec![0, 0, 5, 2, 0],
            vec![0, 5, 0, 0, 0],
            vec![0, 0, 0, 0, 0],
        ]
    );
    // across the other diagonal the weak cell beside the ridge goes
    let mut magnitude = Plane::filled(5, 5, 0i64);
    magnitude.set(1, 1, 5);
    magnitude.set(2, 2, 5);
    magnitude.set(3, 3, 5);
    magnitude.set(1, 3, 2);
    let thin = non_maximum_suppression(&magnitude, &Plane::filled(5, 5, 3u8));
    assert_eq!(
        rows_of(&thin),
        vec![
            vec![0, 0, 0, 0, 0],
            vec![0, 5, 0, 0, 0],
            vec![0, 0, 5, 0, 0],
            vec![0, 0, 0, 5, 0],
            vec![0, 0, 0, 0, 0],
        ]
    );
}

fn ridge_with_noise() -> Plane<i64> {
    let mut magnitude = Plane::filled(7, 9, 0i64);
    for y in 0..7 {
        magnitude.set(y, 4, 10 * UNIT);
    }
    // weak, next to the ridge
    magnitude.set(3, 5, 3 * UNIT);
    // weak, on its own
    magnitude.set(1, 7, 3 * UNIT);
    // below the low threshold, next to the ridge
    magnitude.set(5, 3, UNIT);
    // below the low threshold, on its own
    magnitude.set(5, 1, UNIT);
    magnitude
}

fn edge_cells(edges: &Plane<bool>) -> Vec<(usize, usize)> {
    let mut cells = Vec::new();
    for y in 0..edges.height {
        for x in 0..edges.width {
            if edges.get(y, x) {
                cells.push((y, x));
            }
        }
    }
    cells
}

#[test]
fn hysteresis_keeps_the_ridge_and_what_hangs_on_it() {
    // the ridge from border to border, and the weak cell next to it
    let expected = vec![(0, 4), (1, 4), (2, 4), (3, 4), (3, 5), (4, 4), (5, 4), (6, 4)];
    // thresholds as magnitudes
    let edges = hysteresis_thresholding(&ridge_with_noise(), 2 * UNIT, 5 * UNIT);
    assert_eq!(edge_cells(&edges), expected);
    // thresholds as fractions of the largest magnitude
    let edges = hysteresis_thresholding(&ridge_with_noise(), 200_000, 500_000);
    assert_eq!(edge_cells(&edges), expected);
}

#[test]
fn hysteresis_without_a_strong_cell_keeps_nothing() {
    let edges = hysteresis_thresholding(&ridge_with_noise(), 2 * UNIT, 11 * UNIT);
    assert!(edge_cells(&edges).is_empty());
    // a threshold of 1 is a magnitude, not a fraction
    let mut weak = Plane::filled(5, 5, 0i64);
    weak.set(2, 2, 900_000);
    assert!(edge_cells(&hysteresis_thresholding(&weak, UNIT, UNIT)).is_empty());
    assert_eq!(edge_cells(&hysteresis_thresholding(&weak, 999_999, 999_999)), vec![(2, 2)]);
}

#[test]
fn hysteresis_reaches_the_border() {
    // a strong cell in the first row, a weak one in the corner next to it
    let mut magnitude = Plane::filled(4, 4, 0i64);
    magnitude.set(0, 1, 8 * UNIT);
    magnitude.set(0, 0, 3 * UNIT);
    magnitude.set(3, 3, 3 * UNIT);
    let edges = hysteresis_thresholding(&magnitude, 2 * UNIT, 5 * UNIT);
    assert_eq!(edge_cells(&edges), vec![(0, 0), (0, 1)]);
    // with a low threshold of 0 every cell hangs on the strong one
    let edges = hysteresis_thresholding(&magnitude, 0, 5 * UNIT);
    assert_eq!(edge_cells(&edges).len(), 16);
}

#[test]
fn a_raster_without_a_gradient_has_no_edges() {
    let flat = Plane::filled(5, 5, 0i64);
    assert!(edge_cells(&hysteresis_thresholding(&flat, 0, 50_000)).is_empty());
    assert!(edge_cells(&hysteresis_thresholding(&flat, 0, 0)).is_empty());
    let grey = Plane::filled(12, 12, 400_000i64);
    assert!(edge_cells(&canny_edge_detection(&grey, 0, 50_000, UNIT)).is_empty());
}

#[test]
fn a_step_gives_an_edge_along_it() {
    let mut image = Plane::filled(9, 12, 0i64);
    for y in 0..9 {
        for x in 6..12 {
            image.set(y, x, UNIT);
        }
    }
    let edges = canny_edge_detection(&image, 300_000, 600_000, 300_000);
    let mut expected = Vec::new();
    for y in 1..8 {
        expected.push((y, 5));
    }
    assert_eq!(edge_cells(&edges), expected);
}

#[test]
fn a_step_gives_a_boundary_one_pixel_wide() {
    let mut image = Plane::filled(20, 20, 0i64);
    for y in 0..20 {
        for x in 10..20 {
            image.set(y, x, UNIT);
        }
    }
    let edges = canny_edge_detection(&image, 100_000, 300_000, UNIT);
    for y in 2..18 {
        let row: Vec<usize> = (0..20).filter(|&x| edges.get(y, x)).collect();
        assert_eq!(row, vec![9], "row {}", y);
    }
    // a pixel of noise below the low threshold is no edge
    image.set(10, 3, 20_000);
    let edges = canny_edge_detection(&image, 100_000, 300_000, UNIT);
    for y in 2..18 {
        let row: Vec<usize> = (0..20).filter(|&x| edges.get(y, x)).collect();
        assert_eq!(row, vec![9], "row {}", y);
    }
}

#[test]
fn a_fill_marks_one_connected_set() {
    let mask = plane_from(&[
        vec![true, true, false, false, true],
        vec![false, false, true, false, true],
        vec![false, false, false, false, false],
        vec![true, false, false, false, false],
    ]);
    let mut marked = Plane::filled(4, 5, false);
    let mut cells = flood_fill(&mask, &mut marked, 0, 1);
    cells.sort();
    assert_eq!(cells, vec![(0, 0), (0, 1), (1, 2)]);
    assert_eq!(edge_cells(&marked), vec![(0, 0), (0, 1), (1, 2)]);
    let cells = flood_fill(&mask, &mut marked, 3, 0);
    assert_eq!(cells, vec![(3, 0)]);
    assert_eq!(edge_cells(&marked), vec![(0, 0), (0, 1), (1, 2), (3, 0)]);
}

#[test]
fn edges_are_traced_from_the_seeds() {
    let mask = plane_from(&[
        vec![true, true, false, false, true],
        vec![false, false, true, false, true],
        vec![false, false, false, false, false],
        vec![true, false, false, false, false],
    ]);
    let mut seeds = Plane::filled(4, 5, false);
    seeds.set(1, 2, true);
    seeds.set(0, 0, true);
    seeds.set(1, 4, true);
    let edges = trace_edges(&mask, &seeds);
    assert_eq!(edge_cells(&edges), vec![(0, 0), (0, 1), (0, 4), (1, 2), (1, 4)]);
    let none = Plane::filled(4, 5, false);
    assert!(edge_cells(&trace_edges(&mask, &none)).is_empty());
}

#[test]
fn a_disk_as_structuring_element() {
    let disk = create_disk_structuring_element(1);
    assert_eq!(
        rows_of(&disk),
        vec![
            vec![false, true, false],
            vec![true, true, true],
            vec![false, true, false],
        ]
    );
    let disk = create_disk_structuring_element(2);
    assert_eq!((disk.height, disk.width), (5, 5));
    assert_eq!(edge_cells(&disk).len(), 13);
    assert_eq!(rows_of(&create_disk_structuring_element(0)), vec![vec![true]]);
}

#[test]
fn erosion_and_dilation_take_the_extremes() {
    let image = plane_from(&[
        vec![5i64, 1, 7],
        vec![3, 9, 2],
        vec![8, 4, 6],
    ]);
    let plus = create_disk_structuring_element(1);
    let eroded = erode(&image, &plus);
    assert_eq!(
        rows_of(&eroded),
        vec![vec![1, 1, 1], vec![3, 1, 2], vec![3, 4, 2]]
    );
    let dilated = dilate(&image, &plus);
    assert_eq!(
        rows_of(&dilated),
        vec![vec![5, 9, 7], vec![9, 9, 9], vec![8, 9, 6]]
    );
    // an element without a set cell leaves the raster as it is
    let none = Plane::filled(3, 3, false);
    assert_eq!(rows_of(&erode(&image, &none)), rows_of(&image));
}

#[test]
fn test_morphological_opening() {
    let mut img = Plane::filled(11, 11, 0i64);
    for i in 3..8 {
        for j in 3..8 {
            img.set(i, j, 100 * UNIT);
        }
    }
    img.set(5, 5, 200 * UNIT);

    let opened = morphological_opening(&img, 1);

    assert!(opened.get(5, 5) < 150 * UNIT, "Spike should be smoothed out");
    assert!(opened.get(4, 4) > 50 * UNIT, "Background should remain");
    assert_eq!(opened.get(5, 5), 100 * UNIT);
    // the corner of the square does not hold a disk
    assert_eq!(opened.get(3, 3), 0);
    assert_eq!(opened.get(3, 4), 100 * UNIT);
}

#[test]
fn test_morphological_opening_preserves_structures() {
    let mut img = Plane::filled(21, 21, 0i64);
    let center = 10;
    let radius = 5;

    for i in 0..21 {
        for j in 0..21 {
            let dist = (((i as i32 - center) as f64).powi(2) + ((j as i32 - center) as f64).powi(2))
                .sqrt();
            if dist <= radius as f64 {
                img.set(i, j, 100 * UNIT);
            }
        }
    }

    let opened = morphological_opening(&img, 2);

    assert!(opened.get(10, 10) > 50 * UNIT, "Circle center should remain bright");
    assert!(opened.get(10, 14) > 20 * UNIT, "Circle edge should be partially preserved");
}

#[test]
fn scaling_takes_the_nearest_sample_before() {
    let image = image_from("small", &[vec![1, 2], vec![3, 4]]);
    let doubled = rescale_image(&image, 2 * UNIT).unwrap();
    assert_eq!((doubled.height, doubled.width), (4, 4));
    assert_eq!(doubled.name, "small");
    let rows: Vec<Vec<u16>> =
        (0..4).map(|y| (0..4).map(|x| doubled.get(y, x)).collect()).collect();
    assert_eq!(
        rows,
        vec![vec![1, 1, 2, 2], vec![1, 1, 2, 2], vec![3, 3, 4, 4], vec![3, 3, 4, 4]]
    );
    let halved = rescale_image(&doubled, 500_000).unwrap();
    assert_eq!((halved.height, halved.width), (2, 2));
    assert_eq!((halved.get(0, 0), halved.get(0, 1), halved.get(1, 0), halved.get(1, 1)), (1, 2, 3, 4));
    // 1.5 times 2 is 3
    let wider = rescale_image(&image, 1_500_000).unwrap();
    assert_eq!((wider.height, wider.width), (3, 3));
    assert_eq!((wider.get(0, 0), wider.get(0, 1), wider.get(0, 2)), (1, 1, 2));
    assert_eq!((wider.get(2, 0), wider.get(2, 2)), (3, 4));
}

#[test]
fn scaling_rejects_what_it_cannot_do() {
    let image = image_from("small", &[vec![1, 2], vec![3, 4]]);
    match rescale_image(&image, 0) {
        Err(Error::InvalidParameter(text)) => assert_eq!(text, "Scale factor must be positive"),
        _ => panic!("expected an invalid parameter"),
    }
    assert!(matches!(rescale_image(&image, -UNIT), Err(Error::InvalidParameter(_))));
    let copy = rescale_image(&image, UNIT).unwrap();
    assert_eq!((copy.get(0, 0), copy.get(1, 1), copy.width, copy.height), (1, 4, 2, 2));
    let long = image_from("long", &[vec![7u16; 1001]]);
    assert!(matches!(
        rescale_image(&long, 1000 * UNIT),
        Err(Error::InvalidDimensions { .. })
    ));
}

#[test]
fn the_frame_of_a_group_is_the_first_or_the_last() {
    let frames = vec![
        image_from("first", &[vec![1]]),
        image_from("middle", &[vec![2]]),
        image_from("last", &[vec![3]]),
    ];
    assert_eq!(preprocess_images(&frames, None, "first").unwrap().name, "first");
    assert_eq!(preprocess_images(&frames, None, "Last").unwrap().name, "last");
    assert_eq!(preprocess_images(&frames, None, "LAST").unwrap().get(0, 0), 3);
    assert_eq!(preprocess_images(&frames, None, "median").unwrap().name, "first");
    assert_eq!(preprocess_images(&frames[1..2], None, "last").unwrap().name, "middle");
    let scaled = preprocess_images(&frames, Some(3 * UNIT), "last").unwrap();
    assert_eq!((scaled.width, scaled.height, scaled.get(2, 2)), (3, 3, 3));
    let none: Vec<ImageData> = Vec::new();
    match preprocess_images(&none, None, "first") {
        Err(Error::InvalidParameter(text)) => assert_eq!(text, "No images provided"),
        _ => panic!("expected an invalid parameter"),
    }
}

#[test]
fn a_template_matches_the_window_that_equals_it() {
    let image = plane_from(&[
        vec![0, 0, 0, 0],
        vec![0, UNIT, 500_000, 0],
        vec![0, 250_000, UNIT, 0],
    ]);
    let template = plane_from(&[vec![UNIT, 500_000], vec![250_000, UNIT]]);
    let matched = cross_correlate(&image, &template);
    assert_eq!((matched.height, matched.width), (2, 3));
    assert_eq!(matched.get(1, 1), UNIT);
    // the window at (0, 0) holds the one sample 1 where the template holds
    // 1: 1 / sqrt(1 * 2.3125)
    assert_eq!(matched.get(0, 0), 657_596);
    // the window at (0, 2) holds 0.5 where the template holds 0.25:
    // 0.125 / sqrt(0.25 * 2.3125)
    assert_eq!(matched.get(0, 2), 164_399);
    // a template as large as the raster gives one cell
    let whole = cross_correlate(&template, &template);
    assert_eq!(rows_of(&whole), vec![vec![UNIT]]);
}

#[test]
fn matching_is_normalised() {
    let image = plane_from(&[vec![UNIT, 0, 0], vec![0, 0, -UNIT]]);
    let ones = plane_from(&[vec![UNIT, UNIT], vec![UNIT, UNIT]]);
    // one sample of four under a flat template: 1 / sqrt(1 * 4); a window
    // without a sample gives 0
    assert_eq!(rows_of(&cross_correlate(&image, &ones)), vec![vec![500_000, -500_000]]);
    let dark = plane_from(&[vec![0i64, 0], vec![0, 0]]);
    assert_eq!(rows_of(&cross_correlate(&dark, &ones)), vec![vec![0]]);
    // a template without cells lies everywhere and matches nothing
    let none: Plane<i64> = Plane { height: 0, width: 0, cells: vec![] };
    assert_eq!(rows_of(&cross_correlate(&dark, &none)), vec![vec![0, 0, 0]; 3]);
    // the opposite of the window
    let minus = plane_from(&[vec![-UNIT, 0], vec![0, 0]]);
    assert_eq!(cross_correlate(&image, &minus).get(0, 0), -UNIT);
    // weak samples: the root of the energies is rounded down
    let weak = plane_from(&[vec![3i64, 4]]);
    let pattern = plane_from(&[vec![4i64, 3]]);
    // 24 / floor(sqrt(25 * 25)) = 0.96
    assert_eq!(rows_of(&cross_correlate(&weak, &pattern)), vec![vec![960_000]]);
}

#[test]
fn square_roots_of_large_numbers() {
    assert_eq!(isqrt(1u128 << 120), 1u64 << 60);
    assert_eq!(isqrt((1u128 << 120) - 1), (1u64 << 60) - 1);
    assert_eq!(isqrt((1u128 << 126) - 1), (1u64 << 63) - 1);
}
