use pamsoft_grid::batch::{frames_fit, group_table, process_single_group};
use pamsoft_grid::config::GridParams;
use pamsoft_grid::error::Error;
use pamsoft_grid::fixed::Rotation;
use pamsoft_grid::grid::process_gridding;
use pamsoft_grid::quantification::quantify_spots;
use pamsoft_grid::segmentation::segment_spots;
use pamsoft_grid::types::{GroupConfig, ImageData, ImageType, PixelGrid, SpotResult};

fn frame(name: &str, shift: usize) -> ImageData {
    // four bright references at the corners of a lattice of pitch 8
    let (width, height) = (40usize, 48usize);
    let mut cells = Vec::new();
    for y in 0..height {
        for x in 0..width {
            let bright = [(18usize, 14usize), (34, 14), (18, 30), (34, 30)]
                .iter()
                .any(|&(cy, cx)| x >= cx + shift && x <= cx + shift + 1 && y >= cy && y <= cy + 1);
            cells.push(if bright { 1000u16 } else { 10 });
        }
    }
    ImageData::new(PixelGrid::from_shape_vec(height, width, cells).unwrap(), name.to_string())
}

fn told(rows: &[SpotResult]) -> Vec<String> {
    rows.iter().map(|row| format!("{:?}", row)).collect()
}

fn layout() -> Vec<(String, bool, i32, i32)> {
    vec![
        ("#REF".to_string(), true, -1, -1),
        ("#REF".to_string(), true, -3, -1),
        ("#REF".to_string(), true, -1, -3),
        ("#REF".to_string(), true, -3, -3),
        ("a".to_string(), false, 1, 1),
        ("b".to_string(), false, 3, 3),
        ("c".to_string(), false, 2, 2),
    ]
}

fn group() -> GroupConfig {
    GroupConfig {
        group_id: "g7".to_string(),
        min_diameter: 450_000,
        max_diameter: 850_000,
        edge_sensitivity: vec![0, 10_000],
        series_mode: 0,
        show_viewer: 0,
        spot_pitch: 8_000_000,
        spot_size: 660_000,
        rotation: vec![Rotation::none()],
        saturation_limit: 4_095_000_000,
        seg_method: "Edge".to_string(),
        use_image: "Last".to_string(),
        pg_mode: "grid".to_string(),
        debug_show: 0,
        array_layout_file: "layout.txt".to_string(),
        images_list: vec![],
    }
}

#[test]
fn a_group_gives_one_row_for_each_entry_of_its_layout() {
    let frames = vec![frame("first", 0), frame("second", 4)];
    let rows = process_single_group(&group(), &frames, &layout()).unwrap();
    assert_eq!(rows.len(), 7);
    for (row, entry) in rows.iter().zip(layout().iter()) {
        assert_eq!(row.group_id, "g7");
        assert_eq!(row.image_name, "second");
        assert_eq!(row.spot_id, entry.0);
        assert_eq!(row.is_reference, entry.1);
        assert_eq!((row.row, row.col), (entry.2, entry.3));
    }

    // the same as the steps one after another, on the last frame
    let params = GridParams::from_group(&group(), ImageType::detect(40, 48)).unwrap();
    let last = [frame("second", 4)];
    let mut spots = process_gridding(&last, &layout(), &params).unwrap();
    segment_spots(&last[0], &mut spots, &params).unwrap();
    let expected = quantify_spots(&last[0], &spots, "g7", &params).unwrap();
    assert_eq!(told(&rows), told(&expected));
    assert_eq!(
        told(&group_table(&group(), &params, &frames, &layout()).unwrap()),
        told(&expected)
    );

    // the first frame where the choice is another
    let mut first = group();
    first.use_image = "First".to_string();
    let rows = process_single_group(&first, &frames, &layout()).unwrap();
    assert_eq!(rows[0].image_name, "first");
    let only = [frame("first", 0)];
    let mut spots = process_gridding(&only, &layout(), &params).unwrap();
    segment_spots(&only[0], &mut spots, &params).unwrap();
    assert_eq!(told(&rows), told(&quantify_spots(&only[0], &spots, "g7", &params).unwrap()));
    assert_ne!(told(&rows), told(&expected));
}

#[test]
fn a_group_without_frames_is_refused() {
    match process_single_group(&group(), &[], &layout()) {
        Err(Error::InvalidParameter(text)) => assert_eq!(text, "No images in group"),
        _ => panic!("expected an invalid parameter"),
    }
}

#[test]
fn a_group_needs_valid_parameters() {
    let frames = vec![frame("only", 0)];
    let mut unknown = group();
    unknown.spot_pitch = 0;
    match process_single_group(&unknown, &frames, &layout()) {
        Err(Error::InvalidConfiguration(text)) => assert_eq!(text, "Cannot auto-detect spot pitch"),
        _ => panic!("expected an invalid configuration"),
    }
    let mut nameless = group();
    nameless.array_layout_file = String::new();
    match process_single_group(&nameless, &frames, &layout()) {
        Err(Error::InvalidConfiguration(text)) => assert_eq!(text, "Array layout file required"),
        _ => panic!("expected an invalid configuration"),
    }
    let mut narrow = group();
    narrow.min_diameter = 900_000;
    assert!(matches!(
        process_single_group(&narrow, &frames, &layout()),
        Err(Error::InvalidParameter(_))
    ));
}

#[test]
fn a_group_beyond_the_limits_is_refused() {
    let frames = vec![frame("only", 0)];
    let mut wide = group();
    wide.spot_pitch = 100_000_000_000;
    match process_single_group(&wide, &frames, &layout()) {
        Err(Error::InvalidParameter(text)) => assert_eq!(text, "a parameter is too large"),
        _ => panic!("expected an invalid parameter"),
    }
    let mut far = layout();
    far.push(("z".to_string(), false, 2_000_000, 1));
    match process_single_group(&group(), &frames, &far) {
        Err(Error::InvalidParameter(text)) => assert_eq!(text, "a layout index is too large"),
        _ => panic!("expected an invalid parameter"),
    }
    assert!(frames_fit(&frames));
    assert!(frames_fit(&[]));
}

#[test]
fn a_group_whose_lattice_is_not_located_fails() {
    let frames = vec![frame("only", 0)];
    let references_only = vec![("#REF".to_string(), true, 1, 1), ("#REF".to_string(), true, 3, 3)];
    assert!(matches!(
        process_single_group(&group(), &frames, &references_only),
        Err(Error::GridDetectionFailed(_))
    ));
    let blank = vec![ImageData::new(
        PixelGrid::from_shape_vec(0, 0, vec![]).unwrap(),
        "blank".to_string(),
    )];
    assert!(matches!(
        process_single_group(&group(), &blank, &layout()),
        Err(Error::GridDetectionFailed(_))
    ));
}
