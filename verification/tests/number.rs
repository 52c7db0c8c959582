use stackalc::number::{
    is_at_least, is_at_most, is_equal, is_fraction, is_nan, is_zero, negate, INFINITY, ONE, SIGN,
    ZERO,
};

fn samples() -> Vec<f64> {
    let mut all = vec![
        0.0,
        -0.0,
        1.0,
        -1.0,
        0.5,
        2.0,
        1.0 + f64::EPSILON,
        1.0 - f64::EPSILON,
        3.141592653589793,
        -3.141592653589793,
        5e-324,
        -5e-324,
        f64::MIN_POSITIVE,
        -f64::MIN_POSITIVE,
        f64::MAX,
        f64::MIN,
        f64::INFINITY,
        f64::NEG_INFINITY,
        f64::NAN,
        -f64::NAN,
    ];
    for pattern in [
        0x7ff0_0000_0000_0001u64,
        0x7fff_ffff_ffff_ffff,
        0xfff0_0000_0000_0001,
        0xffff_ffff_ffff_ffff,
        0x7fef_ffff_ffff_fffe,
        0x000f_ffff_ffff_ffff,
        0x0010_0000_0000_0001,
        0x8000_0000_0000_0001,
    ] {
        all.push(f64::from_bits(pattern));
    }
    all
}

#[test]
fn the_named_patterns_are_those_of_the_numbers() {
    assert_eq!(ZERO, 0.0f64.to_bits());
    assert_eq!(ONE, 1.0f64.to_bits());
    assert_eq!(INFINITY, f64::INFINITY.to_bits());
    assert_eq!(SIGN, (-0.0f64).to_bits());
}

#[test]
fn not_a_number_is_told_by_its_pattern() {
    for value in samples() {
        assert_eq!(is_nan(value.to_bits()), value.is_nan(), "{value}");
    }
}

#[test]
fn fractions_lie_from_zero_up_to_one() {
    for value in samples() {
        let expected = value.is_sign_positive() && value < 1.0;
        assert_eq!(is_fraction(value.to_bits()), expected, "{value}");
    }
    assert!(is_fraction(0.0f64.to_bits()));
    assert!(is_fraction(0.9999999999999999f64.to_bits()));
    assert!(!is_fraction(1.0f64.to_bits()));
    assert!(!is_fraction((-0.0f64).to_bits()));
}

#[test]
fn both_zeros_are_zero() {
    for value in samples() {
        assert_eq!(is_zero(value.to_bits()), value == 0.0, "{value}");
    }
}

#[test]
fn negation_flips_the_sign_bit_only() {
    for value in samples() {
        assert_eq!(negate(value.to_bits()), (-value).to_bits(), "{value}");
        assert_eq!(negate(negate(value.to_bits())), value.to_bits());
    }
}

#[test]
fn the_comparisons_are_those_of_the_numbers() {
    for a in samples() {
        for b in samples() {
            let (x, y) = (a.to_bits(), b.to_bits());
            assert_eq!(is_equal(x, y), a == b, "{a} == {b}");
            assert_eq!(is_at_most(x, y), a <= b, "{a} <= {b}");
            assert_eq!(is_at_least(x, y), a >= b, "{a} >= {b}");
        }
    }
}
