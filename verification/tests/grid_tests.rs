use pamsoft_grid::config::GridParams;
use pamsoft_grid::error::Error;
use pamsoft_grid::fixed::Rotation;
use pamsoft_grid::grid::{
    calculate_grid_coordinates, create_disk_coordinates, cross_correlation, fftshift,
    find_grid_center, find_max_2d, make_template, process_gridding, refine_grid_positions,
    rotate_point, template_correlation,
};
use pamsoft_grid::plane::Plane;
use pamsoft_grid::types::{ImageData, PixelGrid, Spot};

fn image_from(height: usize, width: usize, sample: impl Fn(usize, usize) -> u16) -> ImageData {
    let mut cells = Vec::new();
    for y in 0..height {
        for x in 0..width {
            cells.push(sample(y, x));
        }
    }
    ImageData::new(PixelGrid::from_shape_vec(height, width, cells).unwrap(), "test".to_string())
}

fn spot_at(x: i64, y: i64) -> Spot {
    Spot {
        id: "A1".to_string(),
        row: 1,
        col: 1,
        is_reference: false,
        x_offset: 0,
        y_offset: 0,
        x_fixed: 0,
        y_fixed: 0,
        grid_x: x,
        grid_y: y,
        diameter: 0,
        is_manual: false,
        is_bad: false,
        is_empty: false,
        rotation: 0,
    }
}

#[test]
fn grid_test_rotate_point() {
    let (x, y) = rotate_point(1_000_000, 0, Rotation::quarter_turns(1));
    assert_eq!(x, 0);
    assert_eq!(y, 1_000_000);

    let (x, y) = rotate_point(1_000_000, 0, Rotation::quarter_turns(2));
    assert_eq!(x, -1_000_000);
    assert_eq!(y, 0);
}

#[test]
fn grid_old_test_rotate_point() {
    let (x, y) = rotate_point(1_000_000, 0, Rotation::of_degrees(90));
    assert_eq!(x, 0);
    assert_eq!(y, 1_000_000);

    let (x, y) = rotate_point(1_000_000, 0, Rotation::of_degrees(180));
    assert_eq!(x, -1_000_000);
    assert_eq!(y, 0);
}

#[test]
fn rotate_point_rounds_to_the_nearest_millionth() {
    let r = Rotation::of_degrees(30);
    assert_eq!((r.cos, r.sin), (866_025, 500_000));
    // (10, 0) turned by 30 degrees
    assert_eq!(rotate_point(10_000_000, 0, r), (8_660_250, 5_000_000));
    // (0, 3) turned by 30 degrees: (-1.5, 2.598075)
    assert_eq!(rotate_point(0, 3_000_000, r), (-1_500_000, 2_598_075));
    // a tie goes away from zero: 1 millionth times a half
    assert_eq!(rotate_point(0, 1, r), (-1, 1));
}

#[test]
fn disk_of_radius_one_and_two() {
    assert!(create_disk_coordinates(0).is_empty());
    assert_eq!(create_disk_coordinates(1), vec![(0, 0), (1, 0), (0, 1), (1, 1)]);
    let disk = create_disk_coordinates(2);
    // side 5, middle 2.5: the cells within 2 of the middle
    assert_eq!(disk.len(), 12);
    assert!(disk.contains(&(-1, 0)) && disk.contains(&(2, 1)) && disk.contains(&(0, -1)));
    assert!(!disk.contains(&(-1, -1)) && !disk.contains(&(2, 2)) && !disk.contains(&(-2, 0)));
}

#[test]
fn reference_positions_of_a_layout() {
    let layout = vec![
        ("#REF".to_string(), true, 1, 1),
        ("a".to_string(), false, 1, 1),
        ("b".to_string(), false, 3, 3),
        ("#REF".to_string(), true, -4, 2),
    ];
    let coords =
        calculate_grid_coordinates(&layout, (50_000_000, 60_000_000), 10_000_000, Rotation::none())
            .unwrap();
    assert_eq!(coords, vec![(40_000_000, 50_000_000), (70_000_000, 60_000_000)]);
    let degenerate = vec![("#REF".to_string(), true, 1, 1)];
    assert!(calculate_grid_coordinates(&degenerate, (0, 0), 10_000_000, Rotation::none()).is_none());
}

#[test]
fn template_has_a_disk_at_each_reference() {
    let layout = vec![
        ("#REF".to_string(), true, 1, 1),
        ("a".to_string(), false, 1, 1),
        ("b".to_string(), false, 3, 3),
    ];
    // frame of 20 rows and 30 columns: the midpoint goes to (15, 10); the
    // reference lies one index, 4 pixels, up and left of it
    let template =
        make_template((20, 30), &layout, 2_000_000, 4_000_000, Rotation::none()).unwrap();
    assert_eq!((template.height, template.width), (20, 30));
    let mut lit = Vec::new();
    for y in 0..20 {
        for x in 0..30 {
            if template.get(y, x) {
                lit.push((x, y));
            }
        }
    }
    assert_eq!(lit, vec![(11, 6), (12, 6), (11, 7), (12, 7)]);
}

#[test]
fn template_of_a_degenerate_layout_fails() {
    let layout = vec![("#REF".to_string(), true, 1, 1)];
    let res = make_template((20, 30), &layout, 2_000_000, 4_000_000, Rotation::none());
    assert!(matches!(res, Err(Error::GridDetectionFailed(_))));
}

#[test]
fn correlation_is_the_circular_overlap() {
    let image = image_from(3, 4, |y, x| (10 * y + x) as u16);
    let mut template = Plane::filled(3, 4, false);
    template.set(0, 0, true);
    template.set(1, 1, true);
    let surface = cross_correlation(&image, &template);
    // lag (0, 0): samples (0, 0) and (1, 1)
    assert_eq!(surface.get(0, 0), 0 + 11);
    // lag (2, 3): samples (2, 3) and (0, 0)
    assert_eq!(surface.get(2, 3), 23 + 0);
    // lag (1, 2): samples (1, 2) and (2, 3)
    assert_eq!(surface.get(1, 2), 12 + 23);
}

#[test]
fn shift_moves_the_origin_to_the_middle() {
    let mut data = Plane::filled(3, 4, 0i64);
    for y in 0..3 {
        for x in 0..4 {
            data.set(y, x, (10 * y + x) as i64);
        }
    }
    let shifted = fftshift(&data);
    assert_eq!(shifted.get(1, 2), 0);
    assert_eq!(shifted.get(0, 0), 22);
    assert_eq!(shifted.get(2, 3), 11);
    assert_eq!(shifted.get(1, 1), 3);
    let empty: Plane<i64> = Plane::filled(0, 5, 0);
    assert_eq!(fftshift(&empty).cells.len(), 0);
}

#[test]
fn test_find_max_2d() {
    let mut data = Plane::filled(2, 2, 0i64);
    data.set(0, 0, 1_000_000);
    data.set(0, 1, 2_000_000);
    data.set(1, 0, 3_000_000);
    data.set(1, 1, 4_000_000);
    let result = find_max_2d(&data);
    assert!(result.is_some());
    let (max_val, (y, x)) = result.unwrap();
    assert_eq!(max_val, 4_000_000);
    assert_eq!((y, x), (1, 1));
}

#[test]
fn find_max_2d_takes_the_first_of_equals() {
    let mut data = Plane::filled(3, 3, -5i64);
    data.set(1, 2, 7);
    data.set(2, 0, 7);
    assert_eq!(find_max_2d(&data), Some((7, (1, 2))));
    let flat = Plane::filled(2, 2, -5i64);
    assert_eq!(find_max_2d(&flat), Some((-5, (0, 0))));
    let empty: Plane<i64> = Plane::filled(0, 0, 0);
    assert_eq!(find_max_2d(&empty), None);
}

fn lattice_image() -> (ImageData, Vec<(String, bool, i32, i32)>, GridParams) {
    // references at the four corners of a lattice of pitch 8 whose midpoint
    // lies at (26, 22)
    let image = image_from(40, 48, |y, x| {
        let bright = [(18usize, 14usize), (34, 14), (18, 30), (34, 30)]
            .iter()
            .any(|&(cx, cy)| x >= cx && x <= cx + 1 && y >= cy && y <= cy + 1);
        if bright {
            1000
        } else {
            10
        }
    });
    let layout = vec![
        ("#REF".to_string(), true, -1, -1),
        ("#REF".to_string(), true, -3, -1),
        ("#REF".to_string(), true, -1, -3),
        ("#REF".to_string(), true, -3, -3),
        ("a".to_string(), false, 1, 1),
        ("b".to_string(), false, 3, 3),
        ("c".to_string(), false, 2, 2),
    ];
    let mut params = GridParams::default();
    params.spot_pitch = 8_000_000;
    params.spot_size = 2_000_000;
    (image, layout, params)
}

#[test]
fn the_lattice_is_found_where_the_references_are() {
    let (image, layout, params) = lattice_image();
    let template =
        make_template((40, 48), &layout, params.spot_size, params.spot_pitch, Rotation::none())
            .unwrap();
    // the template has its midpoint at (24, 20); the frame has it 2 to the
    // right and 2 down, so the peak lies 2 right and 2 down of the middle,
    // where the midpoint of the lattice is
    let (x, y, score) = template_correlation(&image, &template).unwrap();
    assert_eq!((x, y), (26, 22));
    assert_eq!(score, 16 * 1000);

    let (cx, cy, rotation) = find_grid_center(&image, &layout, &params).unwrap();
    assert_eq!((cx, cy), (26_000_000, 22_000_000));
    assert_eq!(rotation, Rotation::none());
}

#[test]
fn the_best_rotation_wins() {
    let (image, layout, mut params) = lattice_image();
    params.rotation_range = vec![Rotation::of_degrees(45), Rotation::none(), Rotation::of_degrees(10)];
    let (_, _, rotation) = find_grid_center(&image, &layout, &params).unwrap();
    assert_eq!(rotation, Rotation::none());
    params.rotation_range = vec![];
    let (_, _, rotation) = find_grid_center(&image, &layout, &params).unwrap();
    assert_eq!(rotation, Rotation::none());
}

#[test]
fn a_degenerate_layout_is_not_located() {
    let (image, _, params) = lattice_image();
    let references_only = vec![("#REF".to_string(), true, 1, 1), ("#REF".to_string(), true, 3, 3)];
    assert!(matches!(
        find_grid_center(&image, &references_only, &params),
        Err(Error::GridDetectionFailed(_))
    ));
    let empty: Vec<(String, bool, i32, i32)> = Vec::new();
    assert!(matches!(
        find_grid_center(&image, &empty, &params),
        Err(Error::GridDetectionFailed(_))
    ));
    assert!(matches!(
        process_gridding(&[image], &references_only, &params),
        Err(Error::GridDetectionFailed(_))
    ));
}

#[test]
fn a_frame_without_pixels_is_not_located() {
    let (_, layout, params) = lattice_image();
    let blank = image_from(0, 0, |_, _| 0);
    assert!(matches!(
        find_grid_center(&blank, &layout, &params),
        Err(Error::GridDetectionFailed(_))
    ));
}

#[test]
fn gridding_needs_a_frame() {
    let (_, layout, params) = lattice_image();
    let none: Vec<ImageData> = Vec::new();
    match process_gridding(&none, &layout, &params) {
        Err(Error::InvalidParameter(text)) => assert_eq!(text, "No images provided"),
        _ => panic!("expected an invalid parameter"),
    }
}

#[test]
fn gridding_puts_the_spots_about_the_located_centre() {
    let (image, layout, params) = lattice_image();
    let spots = process_gridding(&[image], &layout, &params).unwrap();
    assert_eq!(spots.len(), layout.len());
    // centre (26, 22), midpoint index 2, pitch 8
    assert_eq!((spots[4].grid_x, spots[4].grid_y), (18_000_000, 14_000_000));
    assert_eq!((spots[6].grid_x, spots[6].grid_y), (26_000_000, 22_000_000));
    assert_eq!((spots[0].grid_x, spots[0].grid_y), (18_000_000, 14_000_000));
    assert!(spots[0].is_reference);
}

#[test]
fn spots_move_to_the_brightest_pixel_nearby() {
    let image = image_from(30, 30, |y, x| if (y, x) == (12, 14) { 500 } else { 20 });
    let mut params = GridParams::default();
    params.spot_pitch = 10_000_000;
    let mut pinned = spot_at(5_000_000, 5_000_000);
    pinned.x_fixed = 7_500_000;
    pinned.y_fixed = 8_250_000;
    let far = spot_at(25_000_000, 25_000_000);
    let mut spots = vec![spot_at(13_000_000, 13_000_000), pinned, far];
    refine_grid_positions(&image, &mut spots, &params).unwrap();
    // within 3 pixels of (13, 13): the bright pixel of column 14, row 12
    assert_eq!((spots[0].grid_x, spots[0].grid_y), (14_000_000, 12_000_000));
    assert_eq!((spots[1].grid_x, spots[1].grid_y), (7_500_000, 8_250_000));
    // nothing brighter than a tenth of the largest sample is near
    assert_eq!((spots[2].grid_x, spots[2].grid_y), (25_000_000, 25_000_000));
}

#[test]
fn rotations_by_whole_degrees() {
    let r = Rotation::of_degrees(2);
    assert_eq!((r.degrees, r.cos, r.sin), (2_000_000, 999_391, 34_899));
    let r = Rotation::of_degrees(359);
    assert_eq!((r.degrees, r.cos, r.sin), (359_000_000, 999_848, -17_452));
    let r = Rotation::of_degrees(91);
    assert_eq!((r.cos, r.sin), (-17_452, 999_848));
    let r = Rotation::of_degrees(225);
    assert_eq!((r.cos, r.sin), (-707_107, -707_107));
}

#[test]
fn cosine_and_sine_belong_together() {
    for degrees in 0..360 {
        assert!(Rotation::of_degrees(degrees).is_wf(), "{} degrees", degrees);
    }
    assert!(Rotation::none().is_wf());
    assert!(!Rotation { degrees: 0, cos: 1_000_000, sin: 1_000_000 }.is_wf());
    assert!(!Rotation { degrees: 0, cos: 0, sin: 0 }.is_wf());
    assert!(!Rotation { degrees: 0, cos: 1_000_001, sin: 0 }.is_wf());
}
