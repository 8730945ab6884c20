use q_num::dyadic::Dyadic;
use q_num::gen::{generate, Input, TypeDescriptor};
use q_num::math::LayoutError;
use q_num::value::{QNum, RangeError};

fn layout(signed: bool, int_bits: u8, frac_bits: u8) -> TypeDescriptor {
    generate(Input { signed, int_bits, frac_bits }).unwrap()
}

fn as_f64(x: Dyadic) -> f64 {
    let magnitude = x.magnitude as f64 * 2f64.powi(x.exponent);
    if x.negative {
        -magnitude
    } else {
        magnitude
    }
}

fn convert(descriptor: &TypeDescriptor, value: f64) -> Result<QNum, RangeError> {
    descriptor.from_f64_bits(value.to_bits())
}

#[test]
fn generate_rejects_more_than_64_bits() {
    let too_wide = generate(Input { signed: true, int_bits: 60, frac_bits: 5 });
    assert_eq!(too_wide, Err(LayoutError::UsedBitsTooLarge { used_bits: 65 }));
    let far_too_wide = generate(Input { signed: false, int_bits: 255, frac_bits: 255 });
    assert_eq!(far_too_wide, Err(LayoutError::UsedBitsTooLarge { used_bits: 510 }));
    assert!(generate(Input { signed: true, int_bits: 32, frac_bits: 32 }).is_ok());
    assert!(generate(Input { signed: false, int_bits: 64, frac_bits: 0 }).is_ok());
}

#[test]
fn generate_picks_the_smallest_width() {
    for int_bits in 1..=64u8 {
        for frac_bits in 0..=(64 - int_bits) {
            let d = layout(true, int_bits, frac_bits);
            let used = int_bits + frac_bits;
            assert_eq!(d.used_bits(), used);
            let expected = [8u8, 16, 32, 64].into_iter().find(|w| *w >= used).unwrap();
            assert_eq!(d.total_bits(), expected);
            assert_eq!(d.pad_bits(), expected - used);
            assert_eq!(d.used_mask().count_ones(), used as u32);
            assert_eq!(d.used_mask().trailing_zeros(), (expected - used) as u32);
            assert_eq!(d.denominator(), 1u64 << frac_bits);
            assert_eq!(d.conversion_factor(), 1u64 << (frac_bits + d.pad_bits()));
            assert_eq!(d.size_of(), (expected / 8) as usize);
        }
    }
}

#[test]
fn extreme_patterns() {
    let q = layout(true, 12, 5);
    assert_eq!(q.min_inner(), 1 << 16);
    assert_eq!(q.max_inner(), (1 << 16) - 1);
    assert_eq!(q.min().to_bits(), 0x8000_0000);
    assert_eq!(q.max().to_bits(), 0x7FFF_8000);
    assert_eq!(q.min().to_bits(), q.min_inner() << q.pad_bits());
    assert_eq!(q.max().to_bits(), q.max_inner() << q.pad_bits());
    assert_eq!(as_f64(q.min().to_float()), -2048.0);
    assert_eq!(as_f64(q.max().to_float()), 2047.96875);

    let uq = layout(false, 5, 3);
    assert_eq!(uq.min_inner(), 0);
    assert_eq!(uq.max_inner(), 255);
    assert_eq!(uq.min().to_bits(), 0);
    assert_eq!(uq.max().to_bits(), 255);
    assert_eq!(as_f64(uq.max_float()), 31.875);
    assert_eq!(as_f64(uq.min_float()), 0.0);

    let wide = layout(false, 64, 0);
    assert_eq!(wide.max_inner(), u64::MAX);
    assert_eq!(wide.max().to_bits(), u64::MAX);
}

#[test]
fn notation_labels() {
    assert_eq!(layout(true, 12, 5).q_notation(), "Q12.5");
    assert_eq!(layout(false, 5, 3).q_notation(), "UQ5.3");
    assert_eq!(layout(true, 1, 0).q_notation(), "Q1.0");
    assert_eq!(layout(false, 64, 0).q_notation(), "UQ64.0");
    assert!(layout(true, 12, 5).signed());
    assert!(!layout(false, 5, 3).signed());
}

#[test]
fn from_bits_clears_the_padding() {
    let uq = layout(false, 4, 2);
    assert_eq!(uq.used_mask(), 0xFC);
    assert_eq!(uq.from_bits(0xFF).to_bits(), 0xFC);
    assert_eq!(uq.from_bits(0x03).to_bits(), 0);
    assert_eq!(uq.from_bits(0xFFFF_FFFF_FFFF_FF07).to_bits(), 0x04);
    for raw in 0..=255u64 {
        let value = uq.from_bits(raw);
        assert_eq!(value.to_bits(), raw & uq.used_mask());
        assert_eq!(uq.from_bits(value.to_bits()), value);
        assert_eq!(value.to_bits() & uq.used_mask(), value.to_bits());
        assert_eq!(value.descriptor(), uq);
    }
}

#[test]
fn from_float_truncates_toward_zero_then_masks() {
    let q = layout(true, 4, 2);
    assert_eq!(q.conversion_factor(), 16);
    assert_eq!(convert(&q, 0.3).unwrap().to_bits(), 0x04);
    assert_eq!(convert(&q, 0.45).unwrap().to_bits(), 0x04);
    assert_eq!(convert(&q, -0.3).unwrap().to_bits(), 0xFC);
    assert_eq!(convert(&q, -0.45).unwrap().to_bits(), 0xF8);
    assert_eq!(convert(&q, -0.01).unwrap().to_bits(), 0x00);
    assert_eq!(convert(&q, 7.75).unwrap().to_bits(), 0x7C);
    assert_eq!(convert(&q, -8.0).unwrap().to_bits(), 0x80);
    assert_eq!(as_f64(convert(&q, -0.45).unwrap().to_float()), -0.5);
    assert_eq!(as_f64(convert(&q, 0.45).unwrap().to_float()), 0.25);
}

#[test]
fn from_float_matches_native_conversion() {
    let q = layout(true, 12, 5);
    for step in -2048 * 64..2048 * 64 {
        let x = step as f64 / 64.0 + 0.001;
        if x > 2047.96875 {
            continue;
        }
        let native = ((x * 1_048_576.0) as i32) & (0xFFFF_8000u32 as i32);
        assert_eq!(convert(&q, x).unwrap().to_bits(), native as u32 as u64);
    }
}

#[test]
fn from_float_range() {
    let q = layout(true, 4, 2);
    assert_eq!(as_f64(q.min_float()), -8.0);
    assert_eq!(as_f64(q.max_float()), 7.75);
    assert!(convert(&q, 7.75).is_ok());
    assert_eq!(convert(&q, 7.750001), Err(RangeError {}));
    assert_eq!(convert(&q, 8.0), Err(RangeError {}));
    assert_eq!(convert(&q, 16.0), Err(RangeError {}));
    assert!(convert(&q, -8.0).is_ok());
    assert_eq!(convert(&q, -8.000001), Err(RangeError {}));
    assert_eq!(convert(&q, f64::MAX), Err(RangeError {}));
    assert_eq!(convert(&q, f64::MIN), Err(RangeError {}));
    assert_eq!(convert(&q, f64::INFINITY), Err(RangeError {}));
    assert_eq!(convert(&q, f64::NEG_INFINITY), Err(RangeError {}));
    assert_eq!(convert(&q, f64::NAN), Err(RangeError {}));
    assert_eq!(convert(&q, 0.0).unwrap().to_bits(), 0);
    assert_eq!(convert(&q, -0.0).unwrap().to_bits(), 0);
    assert_eq!(convert(&q, 5e-324).unwrap().to_bits(), 0);
    assert_eq!(convert(&q, -5e-324).unwrap().to_bits(), 0);

    let uq = layout(false, 4, 2);
    assert!(convert(&uq, 15.75).is_ok());
    assert!(convert(&uq, 15.76).is_err());
    assert!(convert(&uq, -0.25).is_err());
    assert!(convert(&uq, -5e-324).is_err());
    assert!(convert(&uq, -0.0).is_ok());

    // With no positive value at all, the least positive number is out of range.
    let bit = layout(true, 1, 0);
    assert_eq!(as_f64(bit.max_float()), 0.0);
    assert_eq!(as_f64(bit.min_float()), -1.0);
    assert!(convert(&bit, 5e-324).is_err());
    assert_eq!(convert(&bit, -1.0).unwrap().to_bits(), 0x80);
    assert_eq!(convert(&bit, -0.5).unwrap().to_bits(), 0x80);
}

#[test]
fn from_float_on_the_widest_word() {
    let q = layout(true, 32, 32);
    assert_eq!(q.total_bits(), 64);
    assert_eq!(convert(&q, -1.0).unwrap().to_bits(), 0xFFFF_FFFF_0000_0000);
    assert_eq!(convert(&q, 1.5).unwrap().to_bits(), 0x0000_0001_8000_0000);
    assert_eq!(convert(&q, -2147483648.0).unwrap().to_bits(), 0x8000_0000_0000_0000);
    assert!(convert(&q, 2147483648.0).is_err());
    assert_eq!(as_f64(convert(&q, -2147483648.0).unwrap().to_float()), -2147483648.0);

    let uq = layout(false, 64, 0);
    assert_eq!(convert(&uq, 18446744073709549568.0).unwrap().to_bits(), 0xFFFF_FFFF_FFFF_F800);
    assert!(convert(&uq, 18446744073709551616.0).is_err());
    assert_eq!(convert(&uq, 0.999).unwrap().to_bits(), 0);
}

#[test]
fn float_round_trip_stays_within_the_resolution() {
    let layouts = [
        layout(true, 4, 2),
        layout(false, 4, 2),
        layout(true, 1, 6),
        layout(true, 12, 5),
        layout(false, 5, 3),
        layout(true, 3, 10),
    ];
    for d in layouts {
        let low = as_f64(d.min_float());
        let high = as_f64(d.max_float());
        let resolution = 1.0 / d.denominator() as f64;
        for i in 0..=10_000 {
            let x = low + (high - low) * (i as f64 / 10_000.0);
            let x = if x > high { high } else { x };
            let back = as_f64(convert(&d, x).unwrap().to_float());
            assert!((back - x).abs() < resolution, "{} -> {} in {}", x, back, d.q_notation());
        }
    }
}

#[test]
fn to_float_is_exact() {
    for d in [layout(true, 4, 2), layout(false, 4, 2), layout(true, 1, 7), layout(false, 3, 5)] {
        for raw in 0..=255u64 {
            let value = d.from_bits(raw);
            let x = value.to_float();
            assert_eq!(d.from_float(x), Ok(value));
            assert!(d.min_float().is_le(&x) && x.is_le(&d.max_float()));
        }
    }
    let q = layout(true, 4, 2);
    let minus_eight = Dyadic { negative: true, magnitude: 128, exponent: -4 };
    assert_eq!(q.from_bits(0x80).to_float(), minus_eight);
    let greatest = Dyadic { negative: false, magnitude: 124, exponent: -4 };
    assert_eq!(q.from_bits(0x7C).to_float(), greatest);
    let uq = layout(false, 4, 2);
    let eight = Dyadic { negative: false, magnitude: 128, exponent: -4 };
    assert_eq!(uq.from_bits(0x80).to_float(), eight);
}

#[test]
fn add_is_exact_in_range() {
    let q = layout(true, 12, 5);
    let sum = convert(&q, 500.25).unwrap().add(convert(&q, -744.75).unwrap());
    assert_eq!(sum, convert(&q, -244.5).unwrap());
    assert_eq!(as_f64(sum.to_float()), -244.5);

    let uq = layout(false, 4, 2);
    let sum = convert(&uq, 1.5).unwrap().add(convert(&uq, 2.25).unwrap());
    assert_eq!(as_f64(sum.to_float()), 3.75);
    assert_eq!(sum.to_bits(), 0x3C);
    for a in 0..64u64 {
        for b in 0..64u64 {
            let x = uq.from_bits(a << 2);
            let y = uq.from_bits(b << 2);
            let sum = x.add(y);
            assert_eq!(sum, y.add(x));
            assert_eq!(sum.to_bits(), ((a + b) << 2) & 0xFF);
            assert_eq!(sum.to_bits() & uq.used_mask(), sum.to_bits());
            if a + b < 64 {
                assert_eq!(as_f64(sum.to_float()), as_f64(x.to_float()) + as_f64(y.to_float()));
            }
        }
    }
}

#[test]
fn add_wraps_around_the_storage_width() {
    let uq = layout(false, 4, 2);
    let sum = convert(&uq, 15.0).unwrap().add(convert(&uq, 1.0).unwrap());
    assert_eq!(sum.to_bits(), 0);
    let q = layout(true, 4, 2);
    let sum = q.max().add(convert(&q, 0.25).unwrap());
    assert_eq!(sum, q.min());
    let wide = layout(false, 64, 0);
    let sum = wide.max().add(wide.from_bits(2));
    assert_eq!(sum.to_bits(), 1);
    let wide = layout(true, 32, 32);
    let sum = wide.min().add(wide.min());
    assert_eq!(sum.to_bits(), 0);
}
