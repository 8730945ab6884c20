use q_num::math::{power_of_two_bit_length, total_bits, LayoutError};

#[test]
fn power_of_two_bit_length_near_8() {
    assert_eq!(power_of_two_bit_length(7), Some(8));
    assert_eq!(power_of_two_bit_length(8), Some(8));
    assert_eq!(power_of_two_bit_length(9), Some(16));
}

#[test]
fn power_of_two_bit_length_near_16() {
    assert_eq!(power_of_two_bit_length(15), Some(16));
    assert_eq!(power_of_two_bit_length(16), Some(16));
    assert_eq!(power_of_two_bit_length(17), Some(32));
}

#[test]
fn power_of_two_bit_length_near_32() {
    assert_eq!(power_of_two_bit_length(31), Some(32));
    assert_eq!(power_of_two_bit_length(32), Some(32));
    assert_eq!(power_of_two_bit_length(33), Some(64));
}

#[test]
fn power_of_two_bit_length_near_64() {
    assert_eq!(power_of_two_bit_length(63), Some(64));
    assert_eq!(power_of_two_bit_length(64), Some(64));
    assert_eq!(power_of_two_bit_length(65), None);
}

#[test]
fn power_of_two_bit_length_covers_every_bit_count() {
    for bits in 0..=255u8 {
        let expected = match bits {
            0..=8 => Some(8),
            9..=16 => Some(16),
            17..=32 => Some(32),
            33..=64 => Some(64),
            _ => None,
        };
        assert_eq!(power_of_two_bit_length(bits), expected);
    }
}

#[test]
fn power_of_two_bit_length_of_zero() {
    assert_eq!(power_of_two_bit_length(0), Some(8));
}

#[test]
fn total_bits_resolves_widths() {
    assert_eq!(total_bits(0), Ok(8));
    assert_eq!(total_bits(7), Ok(8));
    assert_eq!(total_bits(17), Ok(32));
    assert_eq!(total_bits(64), Ok(64));
}

#[test]
fn total_bits_reports_the_offending_count() {
    assert_eq!(total_bits(65), Err(LayoutError::UsedBitsTooLarge { used_bits: 65 }));
    assert_eq!(total_bits(255), Err(LayoutError::UsedBitsTooLarge { used_bits: 255 }));
}

#[test]
fn layout_error_message() {
    let error = LayoutError::UsedBitsTooLarge { used_bits: 65 };
    assert_eq!(error.message(), "65 is larger than 64 bits");
    let error = LayoutError::UsedBitsTooLarge { used_bits: 300 };
    assert_eq!(error.message(), "300 is larger than 64 bits");
}
