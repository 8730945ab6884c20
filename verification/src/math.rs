//! Storage widths: the power-of-two word sizes a fixed-point number can live in.

use vstd::prelude::*;
use vstd::string::StringExecFns;
use crate::text::{decimal_string, decimal_text};
use vstd::arithmetic::power2::{pow2, lemma_pow2_pos, lemma_pow2_strictly_increases};
use vstd::bits::{lemma_u64_pow2_no_overflow, lemma_u64_shl_is_mul};

verus! {

/// Why a layout cannot be built.
#[derive(Clone, Copy, Debug, PartialEq, Eq)]
pub enum LayoutError {
    /// The integer and fractional bits together exceed the widest storage
    /// word. Carries the number of bits that was asked for.
    UsedBitsTooLarge { used_bits: u16 },
}

impl LayoutError {
    /// The text of the diagnostic: the offending bit count, then what is
    /// wrong with it.
    pub open spec fn message_text(self) -> Seq<char> {
        match self {
            LayoutError::UsedBitsTooLarge { used_bits } => decimal_text(used_bits as nat)
                + " is larger than 64 bits"@,
        }
    }

    /// Writes the diagnostic.
    pub fn message(&self) -> (text: String)
        ensures
            text@ == self.message_text(),
    {
        match self {
            LayoutError::UsedBitsTooLarge { used_bits } => {
                let mut text: String = decimal_string(*used_bits as u64);
                text.append(" is larger than 64 bits");
                text
            },
        }
    }
}

/// The width, in bits, of the narrowest supported storage word that holds
/// `bits` bits. The supported words have 8, 16, 32 and 64 bits, so this is
/// meaningful for `bits <= 64`.
pub open spec fn storage_width(bits: int) -> int {
    if bits <= 8 {
        8
    } else if bits <= 16 {
        16
    } else if bits <= 32 {
        32
    } else {
        64
    }
}

/// Returns the number of bits of the narrowest supported storage word that can
/// hold `bits` bits, or `None` when no supported word is wide enough.
pub fn power_of_two_bit_length(bits: u8) -> (width: Option<u8>)
    ensures
        bits <= 64 ==> width == Some(storage_width(bits as int) as u8),
        bits > 64 ==> width.is_none(),
{
    if bits <= 8 {
        Some(8)
    } else if bits <= 16 {
        Some(16)
    } else if bits <= 32 {
        Some(32)
    } else if bits <= 64 {
        Some(64)
    } else {
        None
    }
}

/// Resolves the storage width for `used_bits` bits, reporting the offending
/// bit count when even the widest word is too narrow.
pub fn total_bits(used_bits: u8) -> (width: Result<u8, LayoutError>)
    ensures
        used_bits <= 64 ==> width == Ok::<u8, LayoutError>(storage_width(used_bits as int) as u8),
        used_bits > 64 ==> width == Err::<u8, LayoutError>(
            LayoutError::UsedBitsTooLarge { used_bits: used_bits as u16 },
        ),
{
    match power_of_two_bit_length(used_bits) {
        Some(n) => Ok(n),
        None => Err(LayoutError::UsedBitsTooLarge { used_bits: used_bits as u16 }),
    }
}

/// Every storage width is one of the four supported word sizes and is the
/// least of them that is no smaller than the requested bit count.
pub proof fn lemma_storage_width_is_least(bits: int, other: int)
    requires
        0 <= bits <= 64,
        other == 8 || other == 16 || other == 32 || other == 64,
        bits <= other,
    ensures
        storage_width(bits) == 8 || storage_width(bits) == 16 || storage_width(bits) == 32
            || storage_width(bits) == 64,
        bits <= storage_width(bits) <= other,
{
}

/// Computes `2^exponent` in a 64-bit word.
pub fn pow2_u64(exponent: u8) -> (power: u64)
    requires
        exponent < 64,
    ensures
        power == pow2(exponent as nat),
{
    proof {
        lemma_u64_pow2_no_overflow(exponent as nat);
        lemma_u64_shl_is_mul(1u64, exponent as u64);
    }
    1u64 << exponent
}

/// Powers of two grow with their exponent.
pub proof fn lemma_pow2_monotonic(a: nat, b: nat)
    requires
        a <= b,
    ensures
        0 < pow2(a) <= pow2(b),
{
    lemma_pow2_pos(a);
    if a < b {
        lemma_pow2_strictly_increases(a, b);
    }
}

} // verus!
