use pamsoft_grid::fixed::Rotation;
use pamsoft_grid::grid::generate_grid_coordinates;
use pamsoft_grid::types::Spot;
use std::collections::HashMap;

fn fixed(value: f64) -> i64 {
    (value * 1_000_000.0).round() as i64
}

fn pixels(value: i64) -> f64 {
    value as f64 / 1_000_000.0
}

fn square_layout(side: i32) -> Vec<(String, bool, i32, i32)> {
    let mut layout = Vec::new();
    for row in 1..=side {
        for col in 1..=side {
            let spot_id = format!("spot_{}_{}", row, col);
            layout.push((spot_id, false, row, col));
        }
    }
    layout
}

#[test]
fn test_integer_pitch_no_fractions() {
    let center = (fixed(200.0), fixed(200.0));
    let rotation = Rotation::none();
    let spot_pitch = fixed(20.0);
    let layout = square_layout(5);

    let spots = generate_grid_coordinates(center, rotation, spot_pitch, &layout);
    assert_eq!(spots.len(), 25);

    for spot in &spots {
        let frac_x = pixels(spot.grid_x).fract().abs();
        let frac_y = pixels(spot.grid_y).fract().abs();

        assert!(
            frac_x < 0.01 || frac_x > 0.99,
            "Spot at row={}, col={} has non-integer X={:.2} with integer pitch",
            spot.row,
            spot.col,
            pixels(spot.grid_x)
        );
        assert!(
            frac_y < 0.01 || frac_y > 0.99,
            "Spot at row={}, col={} has non-integer Y={:.2} with integer pitch",
            spot.row,
            spot.col,
            pixels(spot.grid_y)
        );
    }
}

#[test]
fn test_grid_spacing_consistency() {
    let center = (fixed(200.0), fixed(200.0));
    let rotation = Rotation::none();
    let spot_pitch = 21.5;
    let layout = square_layout(5);

    let spots = generate_grid_coordinates(center, rotation, fixed(spot_pitch), &layout);

    let mut spot_map: HashMap<(i32, i32), &Spot> = HashMap::new();
    for spot in &spots {
        spot_map.insert((spot.row, spot.col), spot);
    }

    for row in 1..=5 {
        for col in 1..4 {
            if let (Some(spot1), Some(spot2)) =
                (spot_map.get(&(row, col)), spot_map.get(&(row, col + 1)))
            {
                let dy = pixels(spot2.grid_y) - pixels(spot1.grid_y);
                assert!(
                    (dy - spot_pitch).abs() < 1.0,
                    "Horizontal spacing at row={} between col {} and {} is {:.2}, expected ~{:.2}",
                    row,
                    col,
                    col + 1,
                    dy,
                    spot_pitch
                );
            }
        }
    }

    for col in 1..=5 {
        for row in 1..4 {
            if let (Some(spot1), Some(spot2)) =
                (spot_map.get(&(row, col)), spot_map.get(&(row + 1, col)))
            {
                let dx = pixels(spot2.grid_x) - pixels(spot1.grid_x);
                assert!(
                    (dx - spot_pitch).abs() < 1.0,
                    "Vertical spacing at col={} between row {} and {} is {:.2}, expected ~{:.2}",
                    col,
                    row,
                    row + 1,
                    dx,
                    spot_pitch
                );
            }
        }
    }
}

#[test]
fn test_consistent_rounding() {
    let center = (fixed(200.0), fixed(200.0));
    let rotation = Rotation::none();
    let layout = square_layout(5);

    let spots = generate_grid_coordinates(center, rotation, fixed(21.5), &layout);

    for spot in &spots {
        let frac_x = pixels(spot.grid_x).fract().abs();
        let frac_y = pixels(spot.grid_y).fract().abs();

        let x_near_half = (frac_x - 0.5).abs() < 0.01;
        let x_near_zero = frac_x < 0.01 || frac_x > 0.99;

        let y_near_half = (frac_y - 0.5).abs() < 0.01;
        let y_near_zero = frac_y < 0.01 || frac_y > 0.99;

        assert!(
            x_near_half || x_near_zero,
            "Spot row={}, col={} has unexpected X fractional part: {:.3}",
            spot.row,
            spot.col,
            frac_x
        );
        assert!(
            y_near_half || y_near_zero,
            "Spot row={}, col={} has unexpected Y fractional part: {:.3}",
            spot.row,
            spot.col,
            frac_y
        );
    }
}

#[test]
fn test_p92_grid_parameters() {
    let center = (246.95, 293.45);
    let rotation = Rotation::none();
    let spot_pitch = 21.5;
    let layout = square_layout(12);

    let spots = generate_grid_coordinates(
        (fixed(center.0), fixed(center.1)),
        rotation,
        fixed(spot_pitch),
        &layout,
    );

    assert_eq!(spots.len(), 144, "Should generate 144 spots for 12x12 grid");

    let mut diagonal_errors: HashMap<i32, Vec<f64>> = HashMap::new();
    for spot in &spots {
        let diagonal = spot.row + spot.col;

        let expected_x = center.0 + ((spot.row - 1) as f64) * spot_pitch;
        let expected_y = center.1 + ((spot.col - 1) as f64) * spot_pitch;

        let error_x = (pixels(spot.grid_x) - expected_x).abs();
        let error_y = (pixels(spot.grid_y) - expected_y).abs();
        let error = (error_x.powi(2) + error_y.powi(2)).sqrt();

        diagonal_errors.entry(diagonal).or_insert_with(Vec::new).push(error);
    }

    let mut odd_errors = Vec::new();
    let mut even_errors = Vec::new();

    for (diagonal, errors) in &diagonal_errors {
        let avg_error = errors.iter().sum::<f64>() / errors.len() as f64;
        if diagonal % 2 == 1 {
            odd_errors.push(avg_error);
        } else {
            even_errors.push(avg_error);
        }
    }

    if !odd_errors.is_empty() && !even_errors.is_empty() {
        let odd_mean = odd_errors.iter().sum::<f64>() / odd_errors.len() as f64;
        let even_mean = even_errors.iter().sum::<f64>() / even_errors.len() as f64;

        let diff = (odd_mean - even_mean).abs();
        assert!(
            diff < 0.5,
            "P92 grid shows diagonal bias: odd diagonals error={:.3}, even diagonals error={:.3}, diff={:.3}",
            odd_mean,
            even_mean,
            diff
        );
    }
}

#[test]
fn nominal_positions_are_exact() {
    // rows and columns 1..=5: the midpoint is index 3
    let layout = square_layout(5);
    let spots = generate_grid_coordinates(
        (fixed(200.0), fixed(100.0)),
        Rotation::none(),
        fixed(21.5),
        &layout,
    );
    let first = &spots[0];
    assert_eq!((first.row, first.col), (1, 1));
    assert_eq!(first.grid_x, 157_000_000);
    assert_eq!(first.grid_y, 57_000_000);
    let next = &spots[1];
    assert_eq!((next.row, next.col), (1, 2));
    assert_eq!(next.grid_x, 157_000_000);
    assert_eq!(next.grid_y, 78_500_000);
    let last = &spots[24];
    assert_eq!(last.grid_x, 243_000_000);
    assert_eq!(last.grid_y, 143_000_000);
    assert_eq!(last.diameter, 0);
    assert!(!last.is_bad && !last.is_empty && !last.is_manual);
    assert_eq!(last.id, "spot_5_5");
}

#[test]
fn reference_entries_do_not_move_the_midpoint() {
    let layout = vec![
        ("#REF".to_string(), true, -1, -1),
        ("a".to_string(), false, 1, 1),
        ("b".to_string(), false, 3, 5),
        ("#REF".to_string(), true, 9, 9),
    ];
    let spots = generate_grid_coordinates((0, 0), Rotation::none(), fixed(10.0), &layout);
    assert_eq!(spots.len(), 4);
    // midpoint: row 2, column 3; the first reference lies at |-1| = 1
    assert_eq!((spots[0].grid_x, spots[0].grid_y), (-10_000_000, -20_000_000));
    assert_eq!((spots[1].grid_x, spots[1].grid_y), (-10_000_000, -20_000_000));
    assert_eq!((spots[2].grid_x, spots[2].grid_y), (10_000_000, 20_000_000));
    assert_eq!((spots[3].grid_x, spots[3].grid_y), (70_000_000, 60_000_000));
    assert!(spots[0].is_reference && !spots[1].is_reference);
}

#[test]
fn quarter_turn_exchanges_the_axes() {
    let layout = vec![("a".to_string(), false, 1, 1), ("b".to_string(), false, 3, 1)];
    // midpoint: row 2, column 1
    let spots =
        generate_grid_coordinates((0, 0), Rotation::quarter_turns(1), fixed(10.0), &layout);
    assert_eq!((spots[0].grid_x, spots[0].grid_y), (0, -10_000_000));
    assert_eq!((spots[1].grid_x, spots[1].grid_y), (0, 10_000_000));
    assert_eq!(spots[0].rotation, 90_000_000);
}

#[test]
fn degenerate_layout_gives_no_spots() {
    let empty: Vec<(String, bool, i32, i32)> = Vec::new();
    assert!(generate_grid_coordinates((0, 0), Rotation::none(), fixed(20.0), &empty).is_empty());

    let only_references = vec![("#REF".to_string(), true, 1, 1), ("#REF".to_string(), true, 2, 2)];
    assert!(
        generate_grid_coordinates((0, 0), Rotation::none(), fixed(20.0), &only_references)
            .is_empty()
    );

    let no_positive =
        vec![("a".to_string(), false, 0, 2), ("b".to_string(), false, -2, 2)];
    assert!(
        generate_grid_coordinates((0, 0), Rotation::none(), fixed(20.0), &no_positive).is_empty()
    );
}

#[test]
fn whole_pitch_and_centre_give_whole_positions() {
    let layout = square_layout(7);
    for turns in 0..4u8 {
        let spots = generate_grid_coordinates(
            (fixed(300.0), fixed(-40.0)),
            Rotation::quarter_turns(turns),
            fixed(17.0),
            &layout,
        );
        for spot in &spots {
            assert_eq!(spot.grid_x % 1_000_000, 0);
            assert_eq!(spot.grid_y % 1_000_000, 0);
        }
    }
}

#[test]
fn half_pitch_fractions_follow_the_parity() {
    let layout = square_layout(6);
    let spots =
        generate_grid_coordinates((fixed(200.0), fixed(200.0)), Rotation::none(), fixed(21.5), &layout);
    for a in &spots {
        for b in &spots {
            if (a.row - b.row) % 2 == 0 {
                assert_eq!((a.grid_x - b.grid_x) % 1_000_000, 0);
            }
            if (a.col - b.col) % 2 == 0 {
                assert_eq!((a.grid_y - b.grid_y) % 1_000_000, 0);
            }
            if (a.row + a.col - b.row - b.col) % 2 == 0 {
                assert_eq!(((a.grid_x + a.grid_y) - (b.grid_x + b.grid_y)) % 1_000_000, 0);
            }
        }
    }
}

#[test]
fn test_no_diagonal_bias() {
    // a 5 by 5 lattice with a pitch of 21.5: the positions are the pitch
    // times the whole distance from the midpoint, whatever the diagonal
    let center = (fixed(200.0), fixed(200.0));
    let rotation = Rotation::none();
    let spot_pitch = 21.5;
    let layout = square_layout(5);

    let spots = generate_grid_coordinates(center, rotation, fixed(spot_pitch), &layout);
    assert_eq!(spots.len(), 25);

    for spot in &spots {
        assert_eq!(spot.grid_x, fixed(200.0 + 21.5 * (spot.row - 3) as f64));
        assert_eq!(spot.grid_y, fixed(200.0 + 21.5 * (spot.col - 3) as f64));
    }
    // rows 1 and 2
    assert_eq!(spots[0].grid_x, fixed(157.0));
    assert_eq!(spots[5].grid_x, fixed(178.5));
    // odd rows lie on whole pixels, even rows on half pixels
    for spot in &spots {
        let fraction = spot.grid_x.rem_euclid(1_000_000);
        assert_eq!(fraction, if spot.row % 2 == 1 { 0 } else { 500_000 });
    }
}

#[test]
fn test_generate_grid_coordinates_centering() {
    // the midpoint is that of the regular entries with positive indices:
    // here the one entry (2, 2)
    let layout = vec![
        ("A1".to_string(), true, 0, 0),
        ("A2".to_string(), false, 0, 2),
        ("B1".to_string(), false, 2, 0),
        ("B2".to_string(), false, 2, 2),
    ];

    let spots = generate_grid_coordinates((fixed(100.0), fixed(100.0)), Rotation::none(), fixed(20.0), &layout);

    assert_eq!(spots.len(), 4);

    // row 0, column 0 lies two pitches from the midpoint
    let corner_spot = &spots[0];
    assert!((pixels(corner_spot.grid_x) - 60.0).abs() < 1e-6);
    assert!((pixels(corner_spot.grid_y) - 60.0).abs() < 1e-6);
    assert!((pixels(spots[3].grid_x) - 100.0).abs() < 1e-6);
    assert!((pixels(spots[3].grid_y) - 100.0).abs() < 1e-6);
}
