use pamsoft_grid::wide::{normalize, Wide};

fn small(v: i128) -> Wide {
    Wide::from_small(v)
}

// The value of a number that an `i128` holds.
fn held(n: &Wide) -> i128 {
    let mut value: i128 = 0;
    for (k, &digit) in n.digits.iter().enumerate().rev() {
        if k < 4 || digit != 0 {
            value = value * (1i128 << 32) + digit;
        }
    }
    value
}

#[test]
fn small_numbers_are_held_digit_by_digit() {
    assert_eq!(small(0).digits, vec![0; 6]);
    assert_eq!(small(5).digits, vec![5, 0, 0, 0, 0, 0]);
    assert_eq!(small(-1).digits, vec![0xffff_ffff, 0xffff_ffff, 0xffff_ffff, 0xffff_ffff, 0xffff_ffff, -1]);
    assert_eq!(small(1 << 32).digits, vec![0, 1, 0, 0, 0, 0]);
    assert_eq!(Wide::from_pair(3, 7).digits, vec![7, 0, 3, 0, 0, 0, 0, 0]);
    // digits of any size and sign
    assert_eq!(normalize(&vec![-1, 1]).digits, vec![0xffff_ffff, 0, 0, 0, 0, 0, 0]);
    assert!(small(-7).is_negative());
    assert!(!small(7).is_negative());
    assert!(small(0).is_zero());
    assert!(!small(-1).is_zero());
}

#[test]
fn sums_products_and_quotients() {
    let values: [i128; 9] = [
        0,
        1,
        -1,
        12_345,
        -987_654_321,
        0xffff_ffff,
        0x1_0000_0000,
        -0x7fff_ffff_ffff_ffff,
        1_000_000_007,
    ];
    for &a in &values {
        for &b in &values {
            assert_eq!(held(&small(a).add(&small(b))), a + b, "{} + {}", a, b);
            assert_eq!(held(&small(a).sub(&small(b))), a - b, "{} - {}", a, b);
            assert_eq!(held(&small(a).mul(&small(b))), a * b, "{} * {}", a, b);
            assert_eq!(small(a).is_less(&small(b)), a < b);
            if a >= 0 && b > 0 {
                assert_eq!(small(a).quotient(&small(b), 1 << 100), Some(a / b));
            }
            if b > 0 {
                let rounded = if a >= 0 { (2 * a + b) / (2 * b) } else { -((-2 * a + b) / (2 * b)) };
                assert_eq!(small(a).round_quotient(&small(b), 1 << 100), Some(rounded));
            }
        }
    }
    // a quotient beyond the limit
    assert_eq!(small(1000).quotient(&small(3), 333), None);
    assert_eq!(small(1000).quotient(&small(3), 334), Some(333));
    assert_eq!(small(-1000).round_quotient(&small(3), 333), None);
    assert_eq!(small(-1000).round_quotient(&small(3), 334), Some(-333));
}

#[test]
fn products_beyond_128_bits() {
    // (2^100 + 3)^2 = 2^200 + 6 * 2^100 + 9
    let a = small((1i128 << 100) + 3);
    let square = a.mul(&a);
    let mut expected = vec![0i128; square.digits.len()];
    expected[0] = 9;
    expected[3] = 6 << 4;
    expected[6] = 1 << 8;
    assert_eq!(square.digits, expected);
    // and back
    assert_eq!(square.quotient(&a, 1 << 101), Some((1i128 << 100) + 3));
    let cube = square.mul(&a);
    assert_eq!(cube.quotient(&square, 1 << 101), Some((1i128 << 100) + 3));
    assert!(small(0).sub(&cube).is_negative());
    assert!(cube.sub(&cube).is_zero());
}
