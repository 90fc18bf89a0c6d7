use bullet_core::trainer::quant::{QuantError, QuantTarget, Sample};
use bullet_core::scalar::Scalar;

/// What the caller of the library computes: the product with the factor,
/// rounded toward zero.
fn sample(target: QuantTarget, value: f32) -> Sample {
    let scaled = match target.factor() {
        None => None,
        Some(q) => {
            let product = (f64::from(q) * f64::from(value)).trunc();
            if product.is_finite() && product.abs() < 9.0e18 {
                Some(product as i64)
            } else {
                None
            }
        }
    };
    Sample { value: Scalar::from_bits(value.to_bits()), scaled }
}

fn quantise(target: QuantTarget, values: &[f32]) -> Result<Vec<u8>, QuantError> {
    let samples: Vec<Sample> = values.iter().map(|&v| sample(target, v)).collect();
    target.quantise(&samples)
}

#[test]
fn factor_of_each_target() {
    assert_eq!(QuantTarget::Float.factor(), None);
    assert_eq!(QuantTarget::I8(64).factor(), Some(64));
    assert_eq!(QuantTarget::I16(-255).factor(), Some(-255));
    assert_eq!(QuantTarget::I32(65536).factor(), Some(65536));
}

#[test]
fn float_target_writes_the_numbers_themselves() {
    let bytes = quantise(QuantTarget::Float, &[1.0, -0.5, f32::INFINITY]).unwrap();
    let mut expected = Vec::new();
    for v in [1.0f32, -0.5, f32::INFINITY] {
        expected.extend_from_slice(&v.to_le_bytes());
    }
    assert_eq!(bytes, expected);
    assert_eq!(quantise(QuantTarget::Float, &[]), Ok(vec![]));
}

#[test]
fn i8_target_rounds_toward_zero() {
    let bytes = quantise(QuantTarget::I8(64), &[0.5, -0.5, 0.99, -0.99, 0.0, 1.984375]).unwrap();
    assert_eq!(bytes, vec![32, (-32i8) as u8, 63, (-63i8) as u8, 0, 127]);
    assert_eq!(quantise(QuantTarget::I8(128), &[-1.0]), Ok(vec![0x80]));
}

#[test]
fn i8_overflow_is_a_failure() {
    assert_eq!(quantise(QuantTarget::I8(64), &[0.5, 2.0, 4.0]), Err(QuantError { index: 1 }));
    assert_eq!(quantise(QuantTarget::I8(128), &[1.0]), Err(QuantError { index: 0 }));
    assert_eq!(quantise(QuantTarget::I8(128), &[-1.01]), Err(QuantError { index: 0 }));
    assert_eq!(quantise(QuantTarget::I8(1), &[f32::NAN]), Err(QuantError { index: 0 }));
    assert_eq!(quantise(QuantTarget::I8(1), &[0.0, f32::INFINITY]), Err(QuantError { index: 1 }));
}

#[test]
fn i16_target_writes_two_bytes() {
    let bytes = quantise(QuantTarget::I16(255), &[1.0, -1.0, 0.5, 128.0]).unwrap();
    let mut expected = Vec::new();
    for v in [255i16, -255, 127, 32640] {
        expected.extend_from_slice(&v.to_le_bytes());
    }
    assert_eq!(bytes, expected);
    assert_eq!(quantise(QuantTarget::I16(1), &[-32768.0]), Ok(vec![0x00, 0x80]));
    assert_eq!(quantise(QuantTarget::I16(1), &[32767.9]), Ok(vec![0xFF, 0x7F]));
    assert_eq!(quantise(QuantTarget::I16(-2), &[1.0]), Ok(vec![0xFE, 0xFF]));
}

#[test]
fn i16_overflow_is_a_failure() {
    assert_eq!(quantise(QuantTarget::I16(1), &[32768.0]), Err(QuantError { index: 0 }));
    assert_eq!(quantise(QuantTarget::I16(255), &[1.0, 1.0, 129.0]), Err(QuantError { index: 2 }));
    assert_eq!(quantise(QuantTarget::I16(1), &[-32769.0]), Err(QuantError { index: 0 }));
}

#[test]
fn i32_target_writes_four_bytes() {
    let bytes = quantise(QuantTarget::I32(65536), &[1.0, -1.5, 0.0000152587890625]).unwrap();
    let mut expected = Vec::new();
    for v in [65536i32, -98304, 1] {
        expected.extend_from_slice(&v.to_le_bytes());
    }
    assert_eq!(bytes, expected);
    assert_eq!(quantise(QuantTarget::I32(1), &[-2147483648.0]), Ok(vec![0, 0, 0, 0x80]));
}

#[test]
fn i32_overflow_is_a_failure() {
    assert_eq!(quantise(QuantTarget::I32(1), &[2147483648.0]), Err(QuantError { index: 0 }));
    assert_eq!(quantise(QuantTarget::I32(2), &[0.0, -1073741952.0]), Err(QuantError { index: 1 }));
    assert_eq!(quantise(QuantTarget::I32(1), &[1.0e30]), Err(QuantError { index: 0 }));
}

#[test]
fn quantised_value_divided_by_the_factor_is_close_to_the_number() {
    let q = 255i16;
    let values = [0.7311f32, -0.2048, 0.0039, -1.0, 1.0];
    let bytes = quantise(QuantTarget::I16(q), &values).unwrap();
    for (i, &v) in values.iter().enumerate() {
        let x = i16::from_le_bytes([bytes[2 * i], bytes[2 * i + 1]]);
        assert!((f32::from(x) / f32::from(q) - v).abs() < 1.0 / f32::from(q));
    }
}

#[test]
fn a_missing_product_is_a_failure_but_not_for_float() {
    let s = Sample { value: Scalar::from_bits(0x4000_0000), scaled: None };
    assert_eq!(QuantTarget::I16(1).quantise(&[s]), Err(QuantError { index: 0 }));
    assert_eq!(QuantTarget::Float.quantise(&[s]), Ok(vec![0, 0, 0, 0x40]));
    // the product decides, not the number
    let t = Sample { value: Scalar::from_bits(0), scaled: Some(-2) };
    assert_eq!(QuantTarget::I8(1).quantise(&[t]), Ok(vec![0xFE]));
    assert_eq!(QuantTarget::I32(1).quantise(&[t]), Ok(vec![0xFE, 0xFF, 0xFF, 0xFF]));
    let huge = Sample { value: Scalar::from_bits(0), scaled: Some(i64::MIN) };
    assert_eq!(QuantTarget::I32(1).quantise(&[huge]), Err(QuantError { index: 0 }));
}
