use pamsoft_grid::types::ImageType;
use pamsoft_grid::VERSION;

#[test]
fn test_image_type_detection() {
    assert_eq!(ImageType::detect(552, 413), ImageType::Evolve3);
    assert_eq!(ImageType::detect(697, 520), ImageType::Evolve2);
    assert_eq!(ImageType::detect(100, 100), ImageType::Unknown);
}

#[test]
fn test_spot_pitch_defaults() {
    assert_eq!(ImageType::Evolve3.default_spot_pitch(), Some(17_000_000));
    assert_eq!(ImageType::Evolve2.default_spot_pitch(), Some(21_500_000));
    assert_eq!(ImageType::Unknown.default_spot_pitch(), None);
}

#[test]
fn test_version() {
    assert!(!VERSION.is_empty());
}
