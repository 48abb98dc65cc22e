use array_kernels::pattern::{
    is_greater, is_less, is_nan, is_negative, is_zero, key, magnitude, HUNDRED, NAN_KEY, ONE,
    POSITIVE_INFINITY, POSITIVE_ZERO, SIGN_BIT, TWO,
};

fn samples() -> Vec<f64> {
    vec![
        0.0,
        -0.0,
        1.0,
        -1.0,
        2.0,
        100.0,
        0.1,
        -0.1,
        5e-324,
        -5e-324,
        2.2250738585072014e-308,
        1.7976931348623157e308,
        -1.7976931348623157e308,
        f64::INFINITY,
        f64::NEG_INFINITY,
        f64::NAN,
        -f64::NAN,
        f64::from_bits(0x7FF0_0000_0000_0001),
        f64::from_bits(0xFFFF_FFFF_FFFF_FFFF),
    ]
}

#[test]
fn the_constants_are_the_patterns_they_name() {
    assert_eq!(POSITIVE_ZERO, 0.0f64.to_bits());
    assert_eq!(SIGN_BIT, (-0.0f64).to_bits());
    assert_eq!(ONE, 1.0f64.to_bits());
    assert_eq!(TWO, 2.0f64.to_bits());
    assert_eq!(HUNDRED, 100.0f64.to_bits());
    assert_eq!(POSITIVE_INFINITY, f64::INFINITY.to_bits());
    assert_eq!(NAN_KEY, (f64::INFINITY.to_bits() + 1) as i64);
}

#[test]
fn classification_agrees_with_the_numbers() {
    for v in samples().iter() {
        let x: u64 = v.to_bits();
        assert_eq!(is_nan(x), v.is_nan());
        assert_eq!(is_zero(x), *v == 0.0);
        assert_eq!(is_negative(x), v.is_sign_negative());
        assert_eq!(magnitude(x), v.abs().to_bits());
    }
}

#[test]
fn comparison_agrees_with_the_numbers() {
    for v in samples().iter() {
        for w in samples().iter() {
            assert_eq!(is_less(v.to_bits(), w.to_bits()), v < w);
            assert_eq!(is_greater(v.to_bits(), w.to_bits()), v > w);
        }
    }
}

#[test]
fn keys_order_numbers_as_they_compare() {
    for v in samples().iter() {
        for w in samples().iter() {
            if !v.is_nan() && !w.is_nan() {
                assert_eq!(key(v.to_bits()) < key(w.to_bits()), v < w);
                assert_eq!(key(v.to_bits()) == key(w.to_bits()), v == w);
            }
        }
    }
}

#[test]
fn every_nan_has_the_one_key_above_infinity() {
    for v in samples().iter() {
        if v.is_nan() {
            assert_eq!(key(v.to_bits()), NAN_KEY);
        } else {
            assert!(key(v.to_bits()) < NAN_KEY);
        }
    }
    assert_eq!(key(f64::INFINITY.to_bits()), NAN_KEY - 1);
    assert_eq!(key(f64::NEG_INFINITY.to_bits()), -(NAN_KEY - 1));
    assert_eq!(key(0.0f64.to_bits()), 0);
    assert_eq!(key((-0.0f64).to_bits()), 0);
}
