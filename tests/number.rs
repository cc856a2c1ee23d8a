use orderbook_challenge::number::{FinitePositiveF64, NumberError};
use std::cmp::Ordering;

fn try_from(x: f64) -> Result<FinitePositiveF64, &'static str> {
    FinitePositiveF64::try_from_bits(x.to_bits()).map_err(|e| e.message())
}

fn value(x: f64) -> FinitePositiveF64 {
    FinitePositiveF64::try_from_bits(x.to_bits()).unwrap()
}

#[test]
fn finite_positive_f64_test_try_from() {
    assert_eq!(try_from(3.0), Ok(value(3.)));
    assert_eq!(try_from(0.0), Ok(value(0.)));

    assert_eq!(
        try_from(-3.0),
        Err("Can't construct FinitePositiveF64 from negative f64")
    );
    assert_eq!(
        try_from(-0.0),
        Err("Can't construct FinitePositiveF64 from negative f64")
    );

    assert_eq!(
        try_from(f64::NAN),
        Err("Can't construct FinitePositiveF64 from non finite f64")
    );
    assert_eq!(
        try_from(f64::INFINITY),
        Err("Can't construct FinitePositiveF64 from non finite f64")
    );
    assert_eq!(
        try_from(f64::NEG_INFINITY),
        Err("Can't construct FinitePositiveF64 from non finite f64")
    );
}

#[test]
fn rejects_negative_zero_nan_and_infinities() {
    let refused = [-0.0, f64::NAN, f64::INFINITY, f64::NEG_INFINITY, -f64::NAN];
    for x in refused {
        assert!(FinitePositiveF64::try_from_bits(x.to_bits()).is_err(), "{}", x);
    }
    assert_eq!(
        FinitePositiveF64::try_from_bits((-0.0f64).to_bits()),
        Err(NumberError::Negative)
    );
    assert_eq!(
        FinitePositiveF64::try_from_bits((-f64::NAN).to_bits()),
        Err(NumberError::NonFinite)
    );
}

#[test]
fn accepted_values_are_finite_and_positive() {
    for x in [0.0, 1.4, 5e-324, f64::MAX, 123456.789] {
        let v = value(x);
        let back = f64::from_bits(v.to_bits());
        assert_eq!(back, x);
        assert!(back.is_finite());
        assert!(back.is_sign_positive());
    }
}

#[test]
fn compares_numerically() {
    assert_eq!(value(1.0).cmp(&value(2.0)), Ordering::Less);
    assert_eq!(value(2.5).cmp(&value(2.0)), Ordering::Greater);
    assert_eq!(value(0.0).cmp(&value(0.0)), Ordering::Equal);
    assert_eq!(value(5e-324).cmp(&value(0.0)), Ordering::Greater);
    assert_eq!(value(1e300).cmp(&value(f64::MAX)), Ordering::Less);
}

#[test]
fn decimal_text_gives_the_value_of_the_number() {
    for text in ["0", "1.4", "51", "0.000123", "98765.4321"] {
        let parsed: f64 = fast_float::parse(text).unwrap();
        let direct: f64 = text.parse().unwrap();
        assert_eq!(
            FinitePositiveF64::try_from_bits(parsed.to_bits()),
            FinitePositiveF64::try_from_bits(direct.to_bits())
        );
    }
}

fn deserialize(json: &str) -> Option<FinitePositiveF64> {
    let mut bytes = json.as_bytes().to_vec();
    let text: String = simd_json::from_slice(&mut bytes).ok()?;
    let parsed: f64 = fast_float::parse(text.as_str()).ok()?;
    FinitePositiveF64::try_from_bits(parsed.to_bits()).ok()
}

#[test]
fn finite_positive_f64_test_deserialize() {
    assert_eq!(deserialize(r#""0""#), Some(value(0.)));
    assert_eq!(deserialize(r#""1.4""#), Some(value(1.4)));

    assert!(deserialize(r#""""#).is_none());
    assert!(deserialize(r#""#).is_none());
    assert!(deserialize(r#"0"#).is_none());
    assert!(deserialize(r#""-0""#).is_none());
    assert!(deserialize(r#""-3.4""#).is_none());
    assert!(deserialize(r#""blah""#).is_none());
    assert!(deserialize(r#""1e500""#).is_none());
    assert!(deserialize(r#""  1.4  ""#).is_none());
}
