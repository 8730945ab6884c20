use q_num::dyadic::{magnitude_le, scaled_magnitude, Dyadic};

fn number(negative: bool, magnitude: u64, exponent: i32) -> Dyadic {
    Dyadic { negative, magnitude, exponent }
}

#[test]
fn from_f64_bits_reads_normal_numbers() {
    assert_eq!(Dyadic::from_f64_bits(1.0f64.to_bits()), Some(number(false, 1 << 52, -52)));
    assert_eq!(Dyadic::from_f64_bits((-2.5f64).to_bits()), Some(number(true, 5 << 50, -51)));
    assert_eq!(
        Dyadic::from_f64_bits(f64::MAX.to_bits()),
        Some(number(false, (1 << 53) - 1, 971))
    );
    assert_eq!(
        Dyadic::from_f64_bits(f64::MIN_POSITIVE.to_bits()),
        Some(number(false, 1 << 52, -1074))
    );
}

#[test]
fn from_f64_bits_reads_zeros_and_subnormals() {
    assert_eq!(Dyadic::from_f64_bits(0.0f64.to_bits()), Some(number(false, 0, -1074)));
    assert_eq!(Dyadic::from_f64_bits((-0.0f64).to_bits()), Some(number(true, 0, -1074)));
    assert_eq!(Dyadic::from_f64_bits(5e-324f64.to_bits()), Some(number(false, 1, -1074)));
    assert_eq!(Dyadic::from_f64_bits(1), Some(number(false, 1, -1074)));
}

#[test]
fn from_f64_bits_refuses_what_is_no_number() {
    assert_eq!(Dyadic::from_f64_bits(f64::INFINITY.to_bits()), None);
    assert_eq!(Dyadic::from_f64_bits(f64::NEG_INFINITY.to_bits()), None);
    assert_eq!(Dyadic::from_f64_bits(f64::NAN.to_bits()), None);
    assert_eq!(Dyadic::from_f64_bits(0x7FF0_0000_0000_0001), None);
}

#[test]
fn from_f64_bits_is_exact() {
    for x in [0.1f64, 3.75, -244.5, 1e300, -1e-300, 123456789.125, 2047.96875] {
        let d = Dyadic::from_f64_bits(x.to_bits()).unwrap();
        let back = d.magnitude as f64 * 2f64.powi(d.exponent);
        assert_eq!(if d.negative { -back } else { back }, x);
    }
}

#[test]
fn is_le_compares_the_numbers() {
    let half = number(false, 1, -1);
    let also_half = number(false, 4, -3);
    let one = number(false, 1, 0);
    let minus_one = number(true, 1, 0);
    let zero = number(false, 0, 7);
    let minus_zero = number(true, 0, -9);
    assert!(half.is_le(&also_half) && also_half.is_le(&half));
    assert!(half.is_le(&one) && !one.is_le(&half));
    assert!(minus_one.is_le(&half) && !half.is_le(&minus_one));
    assert!(minus_one.is_le(&zero) && !zero.is_le(&minus_one));
    assert!(zero.is_le(&minus_zero) && minus_zero.is_le(&zero));
    assert!(number(true, 3, 0).is_le(&number(true, 5, -1)));
    assert!(!number(true, 5, -1).is_le(&number(true, 3, 0)));
}

#[test]
fn is_le_agrees_with_floats() {
    let values = [
        0.0f64, -0.0, 1.0, -1.0, 0.5, 0.75, -0.75, 1e-310, -1e-310, 1e300, -1e300, 7.75, 7.750001,
        f64::MAX, f64::MIN, 5e-324,
    ];
    for a in values {
        for b in values {
            let x = Dyadic::from_f64_bits(a.to_bits()).unwrap();
            let y = Dyadic::from_f64_bits(b.to_bits()).unwrap();
            assert_eq!(x.is_le(&y), a <= b, "{} <= {}", a, b);
        }
    }
}

#[test]
fn magnitude_le_at_the_extremes() {
    assert!(magnitude_le(0, i32::MAX, 0, i32::MIN));
    assert!(!magnitude_le(1, i32::MAX, u64::MAX, i32::MIN));
    assert!(magnitude_le(u64::MAX, i32::MIN, 1, i32::MAX));
    assert!(!magnitude_le(1, 0, 0, 100));
    assert!(magnitude_le(1, 64, 1, 64));
    assert!(!magnitude_le(1, 64, u64::MAX, 0));
    assert!(magnitude_le(u64::MAX, 0, 1, 64));
    assert!(magnitude_le(u64::MAX, 0, u64::MAX, 63));
    assert!(magnitude_le(1 << 63, 0, 1, 63));
    assert!(!magnitude_le((1 << 63) + 1, 0, 1, 63));
    assert!(magnitude_le(12, 3, 96, 0));
    assert!(!magnitude_le(12, 3, 95, 0));
}

#[test]
fn scaled_magnitude_values() {
    assert_eq!(scaled_magnitude(0, 1000), Some(0));
    assert_eq!(scaled_magnitude(0, -1000), Some(0));
    assert_eq!(scaled_magnitude(5, 0), Some(5));
    assert_eq!(scaled_magnitude(5, 2), Some(20));
    assert_eq!(scaled_magnitude(5, -1), Some(2));
    assert_eq!(scaled_magnitude(5, -3), Some(0));
    assert_eq!(scaled_magnitude(u64::MAX, -63), Some(1));
    assert_eq!(scaled_magnitude(u64::MAX, -64), Some(0));
    assert_eq!(scaled_magnitude(u64::MAX, i64::MIN), Some(0));
    assert_eq!(scaled_magnitude(1, 63), Some(1 << 63));
    assert_eq!(scaled_magnitude(1, 64), None);
    assert_eq!(scaled_magnitude(2, 63), None);
    assert_eq!(scaled_magnitude(3, 62), Some(3 << 62));
    assert_eq!(scaled_magnitude(1, i64::MAX), None);
}
