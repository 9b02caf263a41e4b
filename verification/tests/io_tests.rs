use pamsoft_grid::config::{GridDetectionMethod, GridParams, SegmentationMethod};
use pamsoft_grid::error::Error;
use pamsoft_grid::fixed::Rotation;
use pamsoft_grid::io::parse_layout;
use pamsoft_grid::plane::Plane;
use pamsoft_grid::quantification::{compute_spot_statistics, spot_statistics, SpotStatistics};
use pamsoft_grid::types::{detect_image_type, GroupConfig, ImageData, ImageType, PixelGrid, Spot};

fn entry(id: &str, is_ref: bool, row: i32, col: i32) -> (String, bool, i32, i32) {
    (id.to_string(), is_ref, row, col)
}

#[test]
fn a_layout_file_is_read_line_by_line() {
    let content = "Row\tCol\tID\n1\t1\tspotA\n# comment\n\n-1\t2\t#REF\n 3 \t 4 \t NA \textra\nx\t1\tbad\n5\t6\n7\t8\tlast";
    assert_eq!(
        parse_layout(content.as_bytes()),
        vec![
            entry("spotA", false, 1, 1),
            entry("#REF", true, -1, 2),
            entry("NA", true, 3, 4),
            entry("last", false, 7, 8),
        ]
    );
}

#[test]
fn the_first_line_is_the_header() {
    assert_eq!(parse_layout(b"1\t1\tfirst\n2\t2\tsecond\n"), vec![entry("second", false, 2, 2)]);
    assert!(parse_layout(b"").is_empty());
    assert!(parse_layout(b"1\t1\tonly").is_empty());
    assert!(parse_layout(b"\n").is_empty());
    assert_eq!(parse_layout(b"\n9\t8\tx"), vec![entry("x", false, 9, 8)]);
}

#[test]
fn lines_that_hold_no_entry_are_passed_over() {
    let content = b"h\nRow\t1\t2\nRows\t1\tx\n#1\t2\tx\n1\t2\n1 2 3\n\t\t\n1\t\tx\n 4\t5\t6 \r\n  \n4\t5\t";
    // the tabulator at the end of the last line is white space: two fields are left
    assert_eq!(parse_layout(content), vec![entry("6", false, 4, 5)]);
    assert_eq!(parse_layout(b"h\n4\t5\t\tx"), vec![entry("", false, 4, 5)]);
}

#[test]
fn indices_are_numbers_of_32_bits() {
    let content = b"h\n+5\t-0\ta\n2147483647\t-2147483648\tb\n2147483648\t1\tc\n1\t-2147483649\td\n1.5\t2\te\n-\t2\tf\n+\t2\tg\n1\t2x\th\n007\t00\ti\n99999999999999999999999\t1\tj\n- 1\t2\tk";
    assert_eq!(
        parse_layout(content),
        vec![
            entry("a", false, 5, 0),
            entry("b", false, 2147483647, -2147483648),
            entry("i", false, 7, 0),
        ]
    );
}

#[test]
fn identifiers_are_text() {
    let content = "h\n1\t2\t#REF \n1\t2\t#ref\n1\t2\tNA\n1\t2\tNAN\n1\t2\tSpot \u{e4} 1\tmore\n";
    let layout = parse_layout(content.as_bytes());
    assert_eq!(
        layout,
        vec![
            entry("#REF", true, 1, 2),
            entry("#ref", false, 1, 2),
            entry("NA", true, 1, 2),
            entry("NAN", false, 1, 2),
            entry("Spot \u{e4} 1", false, 1, 2),
        ]
    );
    // bytes that are no text are replaced
    let layout = parse_layout(b"h\n1\t2\ta\xffb\n");
    assert_eq!(layout, vec![entry("a\u{fffd}b", false, 1, 2)]);
}

fn spot_at(x: i64, y: i64, diameter: i64) -> Spot {
    Spot {
        id: "A1".to_string(),
        row: 5,
        col: 5,
        is_reference: true,
        x_offset: 0,
        y_offset: 0,
        x_fixed: 0,
        y_fixed: 0,
        grid_x: x,
        grid_y: y,
        diameter,
        is_manual: false,
        is_bad: false,
        is_empty: false,
        rotation: 0,
    }
}

#[test]
fn test_compute_spot_statistics() {
    let mut cells = vec![0u16; 100 * 100];
    for y in 45..55 {
        for x in 45..55 {
            cells[y * 100 + x] = 1000;
        }
    }
    let image = ImageData::new(PixelGrid::from_shape_vec(100, 100, cells).unwrap(), "test".to_string());
    let spot = spot_at(50_000_000, 50_000_000, 8_000_000);

    let stats = compute_spot_statistics(&image, &spot).unwrap();
    assert!(stats.mean > 0);
    assert!(stats.sum > 0);
    assert!(stats.pixel_count > 0);
    // the pixels within 4 of (50, 50), without those of column and row 54
    assert_eq!(
        stats,
        SpotStatistics {
            mean: 1_000_000,
            median: 1_000_000,
            std_dev: 0,
            min: 1_000_000,
            max: 1_000_000,
            sum: 47_000_000,
            pixel_count: 47,
        }
    );
}

#[test]
fn statistics_of_three_pixels() {
    let mut plane = Plane::filled(10, 10, 0i64);
    plane.set(4, 5, 100_000);
    plane.set(5, 4, 400_000);
    plane.set(5, 5, 1_000_000);
    plane.set(4, 4, 777_777);
    let stats = spot_statistics(&plane, &spot_at(5_000_000, 5_000_000, 2_000_000)).unwrap();
    assert_eq!(
        stats,
        SpotStatistics {
            mean: 500_000,
            median: 400_000,
            std_dev: 374_165,
            min: 100_000,
            max: 1_000_000,
            sum: 1_500_000,
            pixel_count: 3,
        }
    );
    // an even number of pixels: the median lies between the two in the middle
    let stats = spot_statistics(&plane, &spot_at(4_500_000, 4_500_000, 1_500_000)).unwrap();
    assert_eq!(stats.pixel_count, 4);
    assert_eq!(stats.median, 588_889);
    assert_eq!((stats.min, stats.max, stats.sum), (100_000, 1_000_000, 2_277_777));
    assert_eq!(stats.mean, 569_444);
}

#[test]
fn a_spot_without_pixels_has_no_statistics() {
    let plane = Plane::filled(10, 10, 500_000i64);
    let mut bad = spot_at(5_000_000, 5_000_000, 2_000_000);
    bad.is_bad = true;
    assert_eq!(spot_statistics(&plane, &bad), None);
    assert_eq!(spot_statistics(&plane, &spot_at(50_000_000, 5_000_000, 2_000_000)), None);
    assert_eq!(spot_statistics(&plane, &spot_at(5_500_000, 5_500_000, 0)), None);
    assert_eq!(spot_statistics(&plane, &spot_at(-3_000_000, 5_000_000, 2_000_000)), None);
}

fn group() -> GroupConfig {
    GroupConfig {
        group_id: "g1".to_string(),
        min_diameter: 400_000,
        max_diameter: 900_000,
        edge_sensitivity: vec![0, 50_000],
        series_mode: 0,
        show_viewer: 0,
        spot_pitch: 0,
        spot_size: 700_000,
        rotation: vec![Rotation::none(), Rotation::of_degrees(5)],
        saturation_limit: 65_535_000_000,
        seg_method: "Hough".to_string(),
        use_image: "Last".to_string(),
        pg_mode: "grid".to_string(),
        debug_show: 0,
        array_layout_file: "layout.txt".to_string(),
        images_list: vec![],
    }
}

#[test]
fn the_parameters_of_a_group() {
    let p = GridParams::from_group(&group(), ImageType::Evolve2).unwrap();
    assert_eq!((p.min_diameter, p.max_diameter), (400_000, 900_000));
    assert_eq!(p.spot_pitch, 21_500_000);
    assert_eq!(p.spot_size, 700_000);
    assert_eq!(p.rotation_range, vec![Rotation::none(), Rotation::of_degrees(5)]);
    assert_eq!(p.saturation_limit, 65_535_000_000);
    assert_eq!(p.segmentation_method, SegmentationMethod::Hough);
    assert_eq!(p.grid_detection_method, GridDetectionMethod::Template);
    assert_eq!(p.edge_sensitivity, [0, 50_000]);
    assert_eq!(p.array_layout_file.as_deref(), Some("layout.txt"));
    assert_eq!((p.area_size, p.min_edge_pixels, p.small_disk), (700_000, 6, 170_000));

    assert_eq!(GridParams::from_group(&group(), ImageType::Evolve3).unwrap().spot_pitch, 17_000_000);
    let mut given = group();
    given.spot_pitch = 19_250_000;
    given.seg_method = "watershed".to_string();
    let p = GridParams::from_group(&given, ImageType::Unknown).unwrap();
    assert_eq!(p.spot_pitch, 19_250_000);
    assert_eq!(p.segmentation_method, SegmentationMethod::Edge);
}

#[test]
fn a_group_that_cannot_be_worked_on() {
    match GridParams::from_group(&group(), ImageType::Unknown) {
        Err(Error::InvalidConfiguration(text)) => assert_eq!(text, "Cannot auto-detect spot pitch"),
        _ => panic!("expected an invalid configuration"),
    }
    let mut wide = group();
    wide.min_diameter = 900_000;
    wide.array_layout_file = String::new();
    match GridParams::from_group(&wide, ImageType::Evolve2) {
        Err(Error::InvalidParameter(text)) => {
            assert_eq!(text, "min_diameter must be less than max_diameter")
        },
        _ => panic!("expected an invalid parameter"),
    }
    let mut bare = group();
    bare.array_layout_file = String::new();
    match GridParams::from_group(&bare, ImageType::Evolve2) {
        Err(Error::InvalidConfiguration(text)) => assert_eq!(text, "Array layout file required"),
        _ => panic!("expected an invalid configuration"),
    }
}

#[test]
fn the_camera_is_told_by_the_frame() {
    let frame = |height: usize, width: usize| {
        ImageData::new(
            PixelGrid::from_shape_vec(height, width, vec![0u16; height * width]).unwrap(),
            "f".to_string(),
        )
    };
    assert_eq!(detect_image_type(&frame(413, 552)), ImageType::Evolve3);
    assert_eq!(detect_image_type(&frame(520, 697)), ImageType::Evolve2);
    assert_eq!(detect_image_type(&frame(552, 413)), ImageType::Unknown);
}
