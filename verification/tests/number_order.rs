use sketchlang::number::Number;

fn num(x: f64) -> Number {
    Number::new(x.to_bits())
}

fn samples() -> Vec<f64> {
    vec![
        0.0,
        -0.0,
        1.0,
        -1.0,
        2.5,
        -2.5,
        1e-320,
        -1e-320,
        1e300,
        -1e300,
        f64::MAX,
        f64::MIN,
        f64::INFINITY,
        f64::NEG_INFINITY,
        f64::NAN,
        -f64::NAN,
    ]
}

#[test]
fn total_order_puts_negative_zero_first_and_matches_doubles() {
    assert!(num(-0.0).precedes(&num(0.0)));
    assert!(!num(0.0).precedes(&num(-0.0)));
    assert!(num(f64::INFINITY).precedes(&num(f64::NAN)));
    assert!(num(-f64::NAN).precedes(&num(f64::NEG_INFINITY)));
    for x in samples() {
        for y in samples() {
            let expected = x.to_bits() == y.to_bits() || x.total_cmp(&y).is_lt();
            assert_eq!(num(x).precedes(&num(y)), expected, "{} before {}", x, y);
        }
    }
}
