use pamsoft_grid::config::{GridDetectionMethod, GridParams, SegmentationMethod};
use pamsoft_grid::error::Error;
use pamsoft_grid::fixed::{div_floor, div_round, floor_to_whole, round_to_whole, Rotation};
use pamsoft_grid::trig::{cosine_of, sine_of};

#[test]
fn method_names_are_read_in_any_case() {
    assert_eq!(SegmentationMethod::parse("edge").unwrap(), SegmentationMethod::Edge);
    assert_eq!(SegmentationMethod::parse("HOUGH").unwrap(), SegmentationMethod::Hough);
    assert_eq!(SegmentationMethod::parse("Advanced").unwrap(), SegmentationMethod::Advanced);
    assert_eq!("Edge".parse::<SegmentationMethod>().unwrap(), SegmentationMethod::Edge);
    assert_eq!(SegmentationMethod::from_lowercase("hough"), Some(SegmentationMethod::Hough));
    assert_eq!(SegmentationMethod::from_lowercase("Hough"), None);
    match SegmentationMethod::parse("canny") {
        Err(Error::InvalidParameter(text)) => assert_eq!(text, "Unknown segmentation method: canny"),
        _ => panic!("expected an invalid parameter"),
    }

    assert_eq!(GridDetectionMethod::parse("Template").unwrap(), GridDetectionMethod::Template);
    assert_eq!(GridDetectionMethod::parse("FFT").unwrap(), GridDetectionMethod::FFT);
    assert_eq!("hybrid".parse::<GridDetectionMethod>().unwrap(), GridDetectionMethod::Hybrid);
    assert_eq!(GridDetectionMethod::from_lowercase("FFT"), None);
    match GridDetectionMethod::parse("") {
        Err(Error::InvalidParameter(text)) => assert_eq!(text, "Unknown grid detection method: "),
        _ => panic!("expected an invalid parameter"),
    }
}

#[test]
fn default_parameters() {
    let p = GridParams::default();
    assert_eq!((p.min_diameter, p.max_diameter), (450_000, 850_000));
    assert_eq!((p.spot_pitch, p.spot_size), (21_500_000, 660_000));
    assert_eq!(p.rotation_range, vec![Rotation::none()]);
    assert_eq!(p.edge_sensitivity, [0, 10_000]);
    assert_eq!((p.area_size, p.min_edge_pixels), (700_000, 6));
    assert_eq!((p.small_disk, p.large_disk), (170_000, 510_000));
    assert_eq!(p.saturation_limit, 4_095_000_000);
    assert_eq!(p.segmentation_method, SegmentationMethod::Edge);
    assert_eq!(p.grid_detection_method, GridDetectionMethod::Template);
    assert!(p.array_layout_file.is_none());
    assert!(p.validate().is_ok());
}

fn complaint(p: &GridParams) -> String {
    match p.validate() {
        Err(Error::InvalidParameter(text)) => text,
        _ => panic!("expected an invalid parameter"),
    }
}

#[test]
fn validation_names_the_first_fault() {
    let mut p = GridParams::default();
    p.min_diameter = 850_000;
    assert_eq!(complaint(&p), "min_diameter must be less than max_diameter");
    p.spot_pitch = -1;
    assert_eq!(complaint(&p), "min_diameter must be less than max_diameter");
    p.min_diameter = 450_000;
    assert_eq!(complaint(&p), "spot_pitch must be non-negative");
    p.spot_pitch = 0;
    assert!(p.validate().is_ok());
    p.spot_size = 0;
    assert_eq!(complaint(&p), "spot_size must be between 0 and 1");
    p.spot_size = 1_000_001;
    assert_eq!(complaint(&p), "spot_size must be between 0 and 1");
    p.spot_size = 1_000_000;
    assert!(p.validate().is_ok());
    p.edge_sensitivity = [0, -1];
    assert_eq!(complaint(&p), "edge_sensitivity values must be non-negative");
    p.edge_sensitivity = [-1, 0];
    assert_eq!(complaint(&p), "edge_sensitivity values must be non-negative");
}

#[test]
fn errors_have_messages() {
    assert_eq!(
        Error::InvalidParameter("x".to_string()).message(),
        "Invalid parameter: x"
    );
    assert_eq!(
        Error::InvalidDimensions { expected: "2x2".to_string(), actual: "3x3".to_string() }
            .message(),
        "Invalid image dimensions: expected 2x2, got 3x3"
    );
    assert_eq!(
        Error::GridDetectionFailed("no peak".to_string()).message(),
        "Grid detection failed: no peak"
    );
    assert_eq!(
        Error::SegmentationFailed("no fit".to_string()).message(),
        "Segmentation failed: no fit"
    );
    assert_eq!(Error::NoValidSpots.message(), "No valid spots found");
    assert_eq!(Error::FileNotFound("a.tif".to_string()).message(), "File not found: a.tif");
    assert_eq!(
        Error::InvalidConfiguration("c".to_string()).message(),
        "Invalid configuration: c"
    );
    assert_eq!(Error::ProcessingError("p".to_string()).message(), "Processing error: p");
}

#[test]
fn division_rounds_to_the_nearest_or_down() {
    assert_eq!(div_round(7, 2), 4);
    assert_eq!(div_round(-7, 2), -4);
    assert_eq!(div_round(5, 3), 2);
    assert_eq!(div_round(4, 3), 1);
    assert_eq!(div_round(-4, 3), -1);
    assert_eq!(div_round(0, 5), 0);
    assert_eq!(div_floor(7, 2), 3);
    assert_eq!(div_floor(-7, 2), -4);
    assert_eq!(div_floor(-6, 2), -3);
    assert_eq!(round_to_whole(21_500_000), 22);
    assert_eq!(round_to_whole(-21_500_000), -22);
    assert_eq!(round_to_whole(21_499_999), 21);
    assert_eq!(floor_to_whole(21_999_999), 21);
    assert_eq!(floor_to_whole(-1), -1);
}

#[test]
fn sines_and_cosines_of_the_table() {
    assert_eq!((cosine_of(0), sine_of(0)), (1_000_000, 0));
    assert_eq!((cosine_of(90), sine_of(90)), (0, 1_000_000));
    assert_eq!((cosine_of(180), sine_of(180)), (-1_000_000, 0));
    assert_eq!((cosine_of(270), sine_of(270)), (0, -1_000_000));
    assert_eq!((cosine_of(60), sine_of(60)), (500_000, 866_025));
    assert_eq!((cosine_of(135), sine_of(135)), (-707_107, 707_107));
    assert_eq!((cosine_of(200), sine_of(200)), (-939_693, -342_020));
    assert_eq!((cosine_of(345), sine_of(345)), (965_926, -258_819));
    for degrees in (0..360).step_by(5) {
        let exact = (degrees as f64).to_radians();
        assert!((cosine_of(degrees) as f64 / 1e6 - exact.cos()).abs() < 1e-6);
        assert!((sine_of(degrees) as f64 / 1e6 - exact.sin()).abs() < 1e-6);
    }
    assert_eq!(
        Rotation::of_degrees(30),
        Rotation { degrees: 30_000_000, cos: 866_025, sin: 500_000 }
    );
    assert_eq!(Rotation::quarter_turns(7), Rotation { degrees: 270_000_000, cos: 0, sin: -1_000_000 });
}
