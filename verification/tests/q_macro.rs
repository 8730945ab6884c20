use q_num::dyadic::Dyadic;
use q_num::gen::{generate, Input, TypeDescriptor};
use q_num::parse::parse_notation;
use q_num::types::{signed_int_qualified, unsigned_int_qualified};
use q_num::value::QNum;
use quote::ToTokens;

/// Builds the descriptor of a notation given as its head and fractional bits.
fn define(head: &str, frac_bits: u8) -> TypeDescriptor {
    let (signed, int_bits) = parse_notation(head).unwrap();
    assert!(int_bits >= 1);
    generate(Input { signed, int_bits, frac_bits }).unwrap()
}

fn to_f64(x: Dyadic) -> f64 {
    let magnitude = x.magnitude as f64 * 2f64.powi(x.exponent);
    if x.negative {
        -magnitude
    } else {
        magnitude
    }
}

fn from(descriptor: &TypeDescriptor, value: f64) -> QNum {
    descriptor.from_f64_bits(value.to_bits()).unwrap()
}

/// Spot check the constants of `Q12.5`.
#[test]
fn test_q12p5_constants() {
    let x = define("Q12", 5);
    assert_eq!(x.total_bits(), 32);
    assert_eq!(x.size_of(), 4);
    assert_eq!(x.used_bits(), 17);
    assert_eq!(x.int_bits(), 12);
    assert_eq!(x.frac_bits(), 5);
    assert_eq!(x.pad_bits(), 15);
    assert_eq!(x.denominator() as f64, 32.0);
    assert_eq!(x.conversion_factor() as f64, 1_048_576.0);
    assert_eq!(x.used_mask() as u32, 0xFFFF8000);
    assert_eq!(to_f64(x.min_float()), -2048.0);
    assert_eq!(to_f64(x.max_float()), 2047.96875);
}

/// Spot check addition for `Q12.5`.
#[test]
fn test_q12p5_add() {
    let x = define("Q12", 5);
    let x1 = from(&x, 500.25);
    let x2 = from(&x, -744.75);
    let x3 = from(&x, -244.5);
    let b1 = x1.to_bits() as u32 as i32;
    let b2 = x2.to_bits() as u32 as i32;
    let b3 = x3.to_bits() as u32 as i32;
    assert_eq!(b1 + b2, b3);
    assert_eq!(x1.add(x2), x3)
}

/// Spot check the constants of `Q1.6`.
#[test]
fn test_q1p6_constants() {
    let x = define("Q1", 6);
    assert_eq!(x.total_bits(), 8);
    assert_eq!(x.size_of(), 1);
    assert_eq!(x.used_bits(), 7);
    assert_eq!(x.int_bits(), 1);
    assert_eq!(x.frac_bits(), 6);
    assert_eq!(x.pad_bits(), 1);
    assert_eq!(x.denominator() as f64, 64.0);
    assert_eq!(x.conversion_factor() as f64, 128.0);
    assert_eq!(x.used_mask() as u8, 0xFE);
    assert_eq!(to_f64(x.min_float()), -1.0);
    assert_eq!(to_f64(x.max_float()), 0.984375);
}

/// Spot check the constants of `Q1.7`.
#[test]
fn test_q1p7_constants() {
    let x = define("Q1", 7);
    assert_eq!(x.total_bits(), 8);
    assert_eq!(x.size_of(), 1);
    assert_eq!(x.used_bits(), 8);
    assert_eq!(x.int_bits(), 1);
    assert_eq!(x.frac_bits(), 7);
    assert_eq!(x.pad_bits(), 0);
    assert_eq!(x.denominator() as f64, 128.0);
    assert_eq!(x.conversion_factor() as f64, 128.0);
    assert_eq!(x.used_mask() as u8, 0xFF);
    assert_eq!(to_f64(x.min_float()), -1.0);
    assert_eq!(to_f64(x.max_float()), 0.9921875);
}

/// The storage type is named by its full path, so that a local `u8` or `i8`
/// cannot take its place, and the storage word is one byte wide.
#[test]
fn test_q4p2_hygienic_inner_type() {
    #[allow(non_camel_case_types)]
    #[allow(dead_code)]
    type u8 = u16;
    let x = define("Q4", 2);
    // The correct size is 1 byte = 8 bits.
    assert_eq!(x.size_of(), 1);
    let ty = signed_int_qualified(x.used_bits()).unwrap();
    assert_eq!(ty.to_token_stream().to_string(), ":: core :: primitive :: i8");
    let ty = unsigned_int_qualified(x.used_bits()).unwrap();
    assert_eq!(ty.to_token_stream().to_string(), ":: core :: primitive :: u8");
}

/// Exhaustively test all valid inner values for `UQ5.3`.
#[test]
fn test_q5p3_inner_values() {
    let q_type = define("UQ5", 3);
    let mut value = 0.0;
    for byte in 0..0b1111_1111 {
        let q = from(&q_type, value);
        assert_eq!(q.to_bits(), byte);
        value += 0.125;
    }
}

/// Exhaustively test all valid inner values for `UQ4.2`. In this case where
/// only 6 of 8 bits are used, the inner values are left-aligned, leaving the
/// rightmost 2 bits unused.
#[test]
fn test_q4p2_inner_values() {
    let q_type = define("UQ4", 2);
    let mut value = 0.0;
    for byte in (0..0b1111_1100).step_by(0b100) {
        let q = from(&q_type, value);
        assert_eq!(q.to_bits(), byte);
        value += 0.25;
    }
}

/// Spot check an out-of-range input for `Q4.2`.
#[test]
#[should_panic]
fn test_q4p2_out_of_range() {
    let q_type = define("Q4", 2);
    let _ = from(&q_type, 16.00);
}
