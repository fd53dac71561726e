use jslite::number::Number;

fn n(x: f64) -> Number {
    Number::from_bits(x.to_bits())
}

fn f(x: Number) -> f64 {
    f64::from_bits(x.to_bits())
}

fn samples() -> Vec<f64> {
    vec![
        0.0,
        -0.0,
        1.0,
        -1.0,
        0.5,
        0.1,
        0.2,
        0.3,
        2.0,
        3.0,
        10.0,
        1e21,
        -1e21,
        1e-7,
        123456789.125,
        f64::MAX,
        f64::MIN,
        f64::MIN_POSITIVE,
        f64::from_bits(1),
        f64::from_bits(0x8000_0000_0000_0001),
        f64::INFINITY,
        f64::NEG_INFINITY,
        f64::NAN,
        -f64::NAN,
        f64::EPSILON,
        1.0 + f64::EPSILON,
        9007199254740993.0,
    ]
}

fn same(a: f64, b: f64) -> bool {
    (a.is_nan() && b.is_nan()) || a.to_bits() == b.to_bits()
}

#[test]
fn arithmetic_agrees_with_hardware_doubles() {
    for &a in &samples() {
        for &b in &samples() {
            assert!(same(f(n(a).add(n(b))), a + b), "{} + {}", a, b);
            assert!(same(f(n(a).subtract(n(b))), a - b), "{} - {}", a, b);
            assert!(same(f(n(a).multiply(n(b))), a * b), "{} * {}", a, b);
            assert!(same(f(n(a).divide(n(b))), a / b), "{} / {}", a, b);
        }
    }
}

#[test]
fn exact_sums_and_quotients() {
    assert_eq!(n(1.0).add(n(2.0)).to_bits(), 3.0f64.to_bits());
    assert_eq!(n(0.1).add(n(0.2)).to_bits(), 0.30000000000000004f64.to_bits());
    assert_eq!(n(1.0).divide(n(2.0)).to_bits(), 0.5f64.to_bits());
    assert_eq!(n(7.0).multiply(n(3.0)).to_bits(), 21.0f64.to_bits());
    assert_eq!(n(1.0).subtract(n(2.0)).to_bits(), (-1.0f64).to_bits());
    assert_eq!(n(1.0).divide(n(0.0)).to_bits(), f64::INFINITY.to_bits());
    assert!(n(0.0).divide(n(0.0)).is_nan());
}

#[test]
fn comparisons_agree_with_hardware_doubles() {
    for &a in &samples() {
        assert_eq!(n(a).is_nan(), a.is_nan(), "{}", a);
        assert_eq!(n(a).is_zero(), a == 0.0, "{}", a);
        assert!(same(f(n(a).negate()), -a), "{}", a);
        for &b in &samples() {
            assert_eq!(n(a).equals(n(b)), a == b, "{} == {}", a, b);
            assert_eq!(n(a).less_than(n(b)), a < b, "{} < {}", a, b);
        }
    }
}

#[test]
fn decimal_texts_are_read_as_the_nearest_double() {
    let texts = [
        "0", "1", "123", "1.23", ".51", "2.", "0.1", "0.30000000000000004", "007",
        "123456789012345678901234567890", "0.000000000000000000000000000001",
        "179769313486231570000000000000000000000000000000000000000000000000000000000000000000000000000000000000000000000000000000000000000000000000000000000000000000000000000000000000000000000000000000000000000000000000000000000000000000000000000000000000000000000000000000000000000000000000000000000000000000000000000000000",
        "9007199254740993", "4.35", "2.2250738585072014", "1.7976931348623157",
    ];
    for text in texts {
        let expected: f64 = text.parse().unwrap();
        let got = Number::parse(text).unwrap();
        assert_eq!(got.to_bits(), expected.to_bits(), "{}", text);
    }
}

#[test]
fn what_is_no_number_literal_is_refused() {
    for text in ["", ".", "1.2.3", "..", "1e5", "-1", "+1", "inf", "NaN", "0x10", "1 ", " 1", "a", "１"] {
        assert_eq!(Number::parse(text), None, "{:?}", text);
    }
}

#[test]
fn zero_has_the_bits_zero() {
    assert_eq!(Number::zero().to_bits(), 0);
    assert_eq!(Number::zero(), Number::from_bits(0));
    assert!(Number::zero().is_zero());
    assert!(Number::from_bits(0x8000_0000_0000_0000).is_zero());
    assert_eq!(Number::from_bits(0).negate().to_bits(), 0x8000_0000_0000_0000);
}

#[test]
fn long_decimal_texts_are_read_like_short_ones() {
    let mut texts: Vec<String> = Vec::new();
    texts.push("9".repeat(2000));
    texts.push(format!("0.{}1", "0".repeat(1000)));
    texts.push(format!("{}.{}", "123456789".repeat(40), "987654321".repeat(40)));
    texts.push(format!("1{}", "0".repeat(308)));
    texts.push(format!("0.{}49406564584124654", "0".repeat(323)));
    texts.push(format!("0.{}24703282292062327", "0".repeat(323)));
    texts.push(format!("0.{}24703282292062328", "0".repeat(323)));
    texts.push("4.9406564584124654".to_string());
    texts.push("2.2250738585072011".to_string());
    texts.push("17976931348623158".to_string() + &"0".repeat(292));
    texts.push("17976931348623159".to_string() + &"0".repeat(292));
    texts.push("0.1".to_string() + &"0".repeat(500));
    texts.push("0".repeat(500) + "1." + &"0".repeat(500));
    texts.push("9007199254740992.5".to_string());
    texts.push("9007199254740993.5".to_string());
    texts.push("9007199254740994.5".to_string());
    texts.push("1.00000000000000011102230246251565404236316680908203125".to_string());
    texts.push("1.00000000000000011102230246251565404236316680908203124".to_string());
    texts.push("1.00000000000000011102230246251565404236316680908203126".to_string());
    for text in texts {
        let expected: f64 = text.parse().unwrap();
        let got = Number::parse(&text).unwrap();
        assert_eq!(got.to_bits(), expected.to_bits(), "{}", text);
    }
}
