use lispy::number::{index_of_number, number_eq, number_is_nan, number_le, number_lt};

fn samples() -> Vec<f64> {
    vec![
        0.0,
        -0.0,
        1.0,
        -1.0,
        0.5,
        -0.5,
        1.5,
        2.0,
        1e-320,
        -1e-320,
        f64::MIN_POSITIVE,
        f64::MAX,
        f64::MIN,
        f64::INFINITY,
        f64::NEG_INFINITY,
        f64::NAN,
        -f64::NAN,
        4503599627370496.0,
        9007199254740993.0,
        1e19,
        1e300,
        123456.789,
    ]
}

#[test]
fn equality_is_that_of_doubles() {
    for a in samples() {
        for b in samples() {
            assert_eq!(number_eq(a.to_bits(), b.to_bits()), a == b, "{} == {}", a, b);
        }
    }
}

#[test]
fn order_is_that_of_doubles() {
    for a in samples() {
        for b in samples() {
            assert_eq!(number_lt(a.to_bits(), b.to_bits()), a < b, "{} < {}", a, b);
            assert_eq!(number_le(a.to_bits(), b.to_bits()), a <= b, "{} <= {}", a, b);
        }
    }
}

#[test]
fn nan_is_told_apart() {
    for a in samples() {
        assert_eq!(number_is_nan(a.to_bits()), a.is_nan());
    }
}

#[test]
fn zeros_are_equal_and_nan_equals_nothing() {
    assert!(number_eq(0.0f64.to_bits(), (-0.0f64).to_bits()));
    assert!(!number_eq(f64::NAN.to_bits(), f64::NAN.to_bits()));
    assert!(!number_lt(f64::NAN.to_bits(), 1.0f64.to_bits()));
    assert!(!number_le(f64::NAN.to_bits(), f64::NAN.to_bits()));
}

#[test]
fn index_is_the_integer_part() {
    assert_eq!(index_of_number(0.0f64.to_bits()), Some(0));
    assert_eq!(index_of_number(0.99f64.to_bits()), Some(0));
    assert_eq!(index_of_number(1.0f64.to_bits()), Some(1));
    assert_eq!(index_of_number(2.75f64.to_bits()), Some(2));
    assert_eq!(index_of_number(1e15f64.to_bits()), Some(1_000_000_000_000_000));
    assert_eq!(index_of_number(4503599627370497.0f64.to_bits()), Some(4503599627370497));
    assert_eq!(index_of_number(1e18f64.to_bits()), Some(1_000_000_000_000_000_000));
}

#[test]
fn index_of_what_is_no_index() {
    assert_eq!(index_of_number((-3.0f64).to_bits()), Some(0));
    assert_eq!(index_of_number(f64::NAN.to_bits()), Some(0));
    assert_eq!(index_of_number(f64::NEG_INFINITY.to_bits()), Some(0));
    assert_eq!(index_of_number(f64::INFINITY.to_bits()), None);
    assert_eq!(index_of_number(1e19f64.to_bits()), None);
}

#[test]
fn index_agrees_with_the_cast_of_a_double() {
    for a in samples() {
        match index_of_number(a.to_bits()) {
            Some(index) => assert_eq!(index, a as u64, "{}", a),
            None => assert!(a >= 9223372036854775808.0, "{}", a),
        }
    }
}
