use sketchlang::number::Number;

fn num(x: f64) -> Number {
    Number::new(x.to_bits())
}

fn samples() -> Vec<f64> {
    vec![
        0.0,
        -0.0,
        1.0,
        -1.0,
        0.5,
        -0.5,
        2.5,
        -2.5,
        3.0,
        -3.0,
        1e-320,
        -1e-320,
        f64::MIN_POSITIVE,
        4503599627370496.0,
        4503599627370496.5,
        -4503599627370497.0,
        9007199254740992.0,
        9007199254740993.0,
        1e15 + 0.25,
        -1e15 - 0.25,
        1e18,
        9.2e18,
        9223372036854775807.0,
        -9223372036854775808.0,
        1e19,
        -1e19,
        1e300,
        -1e300,
        f64::MAX,
        f64::MIN,
        f64::INFINITY,
        f64::NEG_INFINITY,
        f64::NAN,
        -f64::NAN,
        0.1,
        123456.789,
        -7.999999,
    ]
}

#[test]
fn floor_agrees_with_the_floor_of_doubles() {
    for x in samples() {
        let expected = x.floor() as i64;
        assert_eq!(num(x).floor(), expected, "floor of {}", x);
    }
}

#[test]
fn floor_of_chosen_values() {
    assert_eq!(num(2.5).floor(), 2);
    assert_eq!(num(-2.5).floor(), -3);
    assert_eq!(num(-0.0).floor(), 0);
    assert_eq!(num(-1e-320).floor(), -1);
    assert_eq!(num(f64::NAN).floor(), 0);
    assert_eq!(num(f64::INFINITY).floor(), i64::MAX);
    assert_eq!(num(f64::NEG_INFINITY).floor(), i64::MIN);
    assert_eq!(num(1e19).floor(), i64::MAX);
    assert_eq!(num(-9223372036854775808.0).floor(), i64::MIN);
    assert_eq!(num(4611686018427387904.0).floor(), 4611686018427387904);
}

#[test]
fn integral_agrees_with_the_fraction_of_doubles() {
    for x in samples() {
        assert_eq!(num(x).is_integral(), x.is_finite() && x.fract() == 0.0, "integral {}", x);
    }
}

#[test]
fn equality_and_order_agree_with_doubles() {
    for x in samples() {
        for y in samples() {
            assert_eq!(num(x).equals(&num(y)), x == y, "{} == {}", x, y);
            assert_eq!(num(x).less_than(&num(y)), x < y, "{} < {}", x, y);
        }
    }
}

#[test]
fn zeros_are_equal_and_not_a_number_equals_nothing() {
    assert!(num(0.0).equals(&num(-0.0)));
    assert!(!num(f64::NAN).equals(&num(f64::NAN)));
    assert!(!num(f64::NAN).less_than(&num(1.0)));
    assert!(!num(1.0).less_than(&num(f64::NAN)));
}

#[test]
fn zero_and_not_a_number_are_told_from_the_pattern() {
    assert!(num(0.0).is_zero());
    assert!(num(-0.0).is_zero());
    assert!(!num(1e-320).is_zero());
    assert!(num(f64::NAN).is_nan());
    assert!(!num(f64::INFINITY).is_nan());
    assert!(!num(1.0).is_nan());
}
