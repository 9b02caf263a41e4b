use pamsoft_grid::config::GridParams;
use pamsoft_grid::quantification::{quantify_single_spot, quantify_spots};
use pamsoft_grid::types::{ImageData, PixelGrid, Spot};

fn spot() -> Spot {
    Spot {
        id: "A1".to_string(),
        row: 5,
        col: 5,
        is_reference: true,
        x_offset: 0,
        y_offset: 0,
        x_fixed: 0,
        y_fixed: 0,
        grid_x: 50_000_000,
        grid_y: 50_000_000,
        diameter: 10_000_000,
        is_manual: false,
        is_bad: false,
        is_empty: false,
        rotation: 0,
    }
}

fn image() -> ImageData {
    let data = PixelGrid::from_shape_vec(100, 100, vec![100u16; 100 * 100]).unwrap();
    ImageData::new(data, "test".to_string())
}

#[test]
fn test_quantify_single_spot() {
    let image = image();
    let result = quantify_single_spot(&image, &spot(), "group1");

    assert_eq!(result.spot_id, "A1");
    assert_eq!(result.group_id, "group1");
    assert!(result.is_reference);
    assert_eq!(result.is_bad, 0);
    assert_eq!(result.image_name, "test");
    assert_eq!((result.row, result.col), (5, 5));
    assert_eq!((result.grid_x, result.grid_y, result.diameter), (50_000_000, 50_000_000, 10_000_000));
}

#[test]
fn flags_become_numbers() {
    let image = image();
    let mut bad = spot();
    bad.is_bad = true;
    bad.is_empty = true;
    bad.id = "B2".to_string();
    let mut manual = spot();
    manual.is_manual = true;
    manual.x_fixed = 7;
    manual.rotation = -2_000_000;
    let rows = quantify_spots(&image, &[bad, manual], "g", &GridParams::default()).unwrap();
    assert_eq!(rows.len(), 2);
    assert_eq!((rows[0].is_bad, rows[0].is_empty, rows[0].is_manual), (1, 1, 0));
    assert_eq!((rows[1].is_bad, rows[1].is_empty, rows[1].is_manual), (0, 0, 1));
    assert_eq!(rows[0].spot_id, "B2");
    assert_eq!((rows[1].x_fixed, rows[1].rotation), (7, -2_000_000));
    assert!(quantify_spots(&image, &[], "g", &GridParams::default()).unwrap().is_empty());
}

#[test]
fn a_frame_holds_its_samples() {
    let data = PixelGrid::from_shape_vec(2, 3, vec![1, 2, 3, 4, 5, 6]).unwrap();
    assert_eq!(data.dim(), (2, 3));
    assert_eq!((data.get(0, 0), data.get(0, 2), data.get(1, 0), data.get(1, 2)), (1, 3, 4, 6));
    assert!(PixelGrid::from_shape_vec(2, 3, vec![1, 2, 3, 4, 5]).is_none());
    assert!(PixelGrid::from_shape_vec(0, 3, vec![]).is_some());
    assert!(PixelGrid::from_shape_vec(0, usize::MAX, vec![]).is_none());
    let image = ImageData::new(data, "frame".to_string());
    assert_eq!((image.width, image.height, image.get(1, 2)), (3, 2, 6));
    let samples = image.samples();
    assert_eq!(samples.cells, vec![1, 2, 3, 4, 5, 6]);
    let copy = image.duplicate();
    assert_eq!((copy.name.as_str(), copy.get(0, 1), copy.get(1, 1)), ("frame", 2, 5));
    assert_eq!((copy.data.dim(), copy.width, copy.height), ((2, 3), 3, 2));
}
