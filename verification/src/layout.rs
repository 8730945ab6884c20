//! The mathematical model of a fixed-point layout: everything that follows
//! from signedness, integer bits and fractional bits.

use vstd::prelude::*;
use vstd::arithmetic::power2::pow2;
use crate::dyadic::Dyadic;
use crate::literal::{high_bits_mask, is_storage_width};
use crate::math::storage_width;
use crate::text::decimal_text;

verus! {

/// The fewest integer bits a notation may ask for. A signed notation counts
/// its sign bit among the integer bits, so it needs at least this one.
pub const MIN_INT_BITS: u8 = 1;

/// A fixed-point notation `Qm.n` (signed) or `UQm.n` (unsigned), with `m`
/// integer bits and `n` fractional bits. Every other quantity of the layout
/// is a function of these three.
pub struct Layout {
    pub signed: bool,
    pub int_bits: nat,
    pub frac_bits: nat,
}

impl Layout {
    /// The notations that have a layout: at least one integer bit, and no
    /// more bits in all than the widest storage word.
    pub open spec fn valid(self) -> bool {
        MIN_INT_BITS <= self.int_bits && self.int_bits + self.frac_bits <= 64
    }

    /// The logical width of the number.
    pub open spec fn used_bits(self) -> nat {
        self.int_bits + self.frac_bits
    }

    /// The width of the storage word.
    pub open spec fn total_bits(self) -> nat {
        storage_width(self.used_bits() as int) as nat
    }

    /// The unused low-order bits of the storage word.
    pub open spec fn pad_bits(self) -> nat {
        (self.total_bits() - self.used_bits()) as nat
    }

    /// The binary exponent of the conversion factor: a stored word counts
    /// units of `2^-scale_bits()`.
    pub open spec fn scale_bits(self) -> nat {
        self.frac_bits + self.pad_bits()
    }

    /// The used bits, left-aligned in the storage word.
    pub open spec fn used_mask(self) -> nat {
        high_bits_mask(self.total_bits(), self.pad_bits())
    }

    /// `2^frac_bits`: the resolution of the number is its reciprocal.
    pub open spec fn denominator(self) -> nat {
        pow2(self.frac_bits)
    }

    /// `2^(frac_bits + pad_bits)`: multiplying a real value by it gives the
    /// left-aligned stored word.
    pub open spec fn conversion_factor(self) -> nat {
        pow2(self.scale_bits())
    }

    /// The least representable value, counted in units of `1 / denominator()`.
    pub open spec fn min_numerator(self) -> int {
        if self.signed {
            -(pow2((self.used_bits() - 1) as nat) as int)
        } else {
            0
        }
    }

    /// The greatest representable value, counted in units of
    /// `1 / denominator()`.
    pub open spec fn max_numerator(self) -> int {
        if self.signed {
            pow2((self.used_bits() - 1) as nat) - 1
        } else {
            pow2(self.used_bits()) - 1
        }
    }

    /// The `used_bits()`-wide bit pattern of the least value, right-aligned.
    pub open spec fn min_inner(self) -> nat {
        if self.signed {
            pow2((self.used_bits() - 1) as nat)
        } else {
            0
        }
    }

    /// The `used_bits()`-wide bit pattern of the greatest value,
    /// right-aligned.
    pub open spec fn max_inner(self) -> nat {
        if self.signed {
            (pow2((self.used_bits() - 1) as nat) - 1) as nat
        } else {
            (pow2(self.used_bits()) - 1) as nat
        }
    }

    /// The number of storage words: `2^total_bits()`.
    pub open spec fn modulus(self) -> nat {
        pow2(self.total_bits())
    }

    /// The storage word of an integer: its residue modulo `2^total_bits()`,
    /// which for a negative integer is its two's complement.
    pub open spec fn wrap(self, n: int) -> u64 {
        (n % (self.modulus() as int)) as u64
    }

    /// The least representable value, `min_numerator() / denominator()`.
    pub open spec fn min_float(self) -> Dyadic {
        Dyadic {
            negative: self.signed,
            magnitude: self.min_inner() as u64,
            exponent: (-(self.frac_bits as int)) as i32,
        }
    }

    /// The greatest representable value, `max_numerator() / denominator()`.
    pub open spec fn max_float(self) -> Dyadic {
        Dyadic {
            negative: false,
            magnitude: self.max_inner() as u64,
            exponent: (-(self.frac_bits as int)) as i32,
        }
    }

    /// The head of the notation: `Q` or `UQ`, then the integer bits.
    pub open spec fn notation_head(self) -> Seq<char> {
        (if self.signed {
            seq!['Q']
        } else {
            seq!['U', 'Q']
        }) + decimal_text(self.int_bits)
    }

    /// The notation as text: its head, a dot, and the fractional bits.
    pub open spec fn notation(self) -> Seq<char> {
        self.notation_head() + seq!['.'] + decimal_text(self.frac_bits)
    }

    /// `min_float() <= x <= max_float()`, as real numbers.
    pub open spec fn in_range(self, x: Dyadic) -> bool {
        self.min_float().le(x) && x.le(self.max_float())
    }
}

/// The facts about the widths of a layout that most proofs start from.
pub proof fn lemma_layout_widths(layout: Layout)
    requires
        layout.valid(),
    ensures
        1 <= layout.used_bits() <= layout.total_bits() <= 64,
        is_storage_width(layout.total_bits() as int),
        layout.pad_bits() < layout.total_bits(),
        layout.pad_bits() + layout.used_bits() == layout.total_bits(),
        layout.scale_bits() + layout.int_bits == layout.total_bits(),
        layout.scale_bits() <= 63,
        layout.frac_bits <= 63,
{
}

} // verus!
