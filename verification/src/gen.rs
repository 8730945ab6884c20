//! Deriving the type descriptor of a notation.

use vstd::prelude::*;
use vstd::string::StringExecFns;
use vstd::arithmetic::power2::{pow2, lemma2_to64, lemma2_to64_rest};
use crate::dyadic::Dyadic;
use crate::layout::{Layout, MIN_INT_BITS};
use crate::literal::used_mask;
use crate::text::decimal_string;
use crate::math::{LayoutError, pow2_u64, total_bits, lemma_pow2_monotonic};

verus! {

/// The three parameters of a notation, as its parser hands them over.
#[derive(Clone, Copy, Debug, PartialEq, Eq)]
pub struct Input {
    pub signed: bool,
    pub int_bits: u8,
    pub frac_bits: u8,
}

impl View for Input {
    type V = Layout;

    open spec fn view(&self) -> Layout {
        Layout {
            signed: self.signed,
            int_bits: self.int_bits as nat,
            frac_bits: self.frac_bits as nat,
        }
    }
}

/// All derived constants of one notation. A descriptor is made by
/// [`generate`] and never changes afterwards; each of its fields holds what
/// the model [`Layout`] says of the notation.
#[derive(Clone, Copy, Debug, PartialEq, Eq)]
pub struct TypeDescriptor {
    signed: bool,
    int_bits: u8,
    frac_bits: u8,
    used_bits: u8,
    total_bits: u8,
    pad_bits: u8,
    used_mask: u64,
    denominator: u64,
    conversion_factor: u64,
    min_inner: u64,
    max_inner: u64,
}

impl View for TypeDescriptor {
    type V = Layout;

    closed spec fn view(&self) -> Layout {
        Layout {
            signed: self.signed,
            int_bits: self.int_bits as nat,
            frac_bits: self.frac_bits as nat,
        }
    }
}

impl TypeDescriptor {
    /// The fields agree with the model of the notation.
    #[verifier::type_invariant]
    pub closed spec fn wf(&self) -> bool {
        &&& self@.valid()
        &&& self.used_bits == self@.used_bits()
        &&& self.total_bits == self@.total_bits()
        &&& self.pad_bits == self@.pad_bits()
        &&& self.used_mask == self@.used_mask()
        &&& self.denominator == self@.denominator()
        &&& self.conversion_factor == self@.conversion_factor()
        &&& self.min_inner == self@.min_inner()
        &&& self.max_inner == self@.max_inner()
    }

    /// A descriptor only exists for a notation that has a layout.
    pub proof fn lemma_valid(self)
        requires
            self.wf(),
        ensures
            self@.valid(),
    {
    }
}

impl TypeDescriptor {
    /// Whether values are read as two's complement.
    pub fn signed(&self) -> (value: bool)
        ensures
            value == self@.signed,
    {
        proof {
            use_type_invariant(self);
        }
        self.signed
    }

    /// The integer bits of the notation.
    pub fn int_bits(&self) -> (value: u8)
        ensures
            value == self@.int_bits,
    {
        proof {
            use_type_invariant(self);
        }
        self.int_bits
    }

    /// The fractional bits of the notation.
    pub fn frac_bits(&self) -> (value: u8)
        ensures
            value == self@.frac_bits,
    {
        proof {
            use_type_invariant(self);
        }
        self.frac_bits
    }

    /// The logical width: integer and fractional bits together.
    pub fn used_bits(&self) -> (value: u8)
        ensures
            value == self@.used_bits(),
    {
        proof {
            use_type_invariant(self);
        }
        self.used_bits
    }

    /// The width of the storage word.
    pub fn total_bits(&self) -> (value: u8)
        ensures
            value == self@.total_bits(),
    {
        proof {
            use_type_invariant(self);
        }
        self.total_bits
    }

    /// The unused low-order bits of the storage word.
    pub fn pad_bits(&self) -> (value: u8)
        ensures
            value == self@.pad_bits(),
    {
        proof {
            use_type_invariant(self);
        }
        self.pad_bits
    }

    /// The used bits, left-aligned in the storage word.
    pub fn used_mask(&self) -> (value: u64)
        ensures
            value == self@.used_mask(),
    {
        proof {
            use_type_invariant(self);
        }
        self.used_mask
    }

    /// `2^frac_bits`.
    pub fn denominator(&self) -> (value: u64)
        ensures
            value == self@.denominator(),
    {
        proof {
            use_type_invariant(self);
        }
        self.denominator
    }

    /// `2^(frac_bits + pad_bits)`.
    pub fn conversion_factor(&self) -> (value: u64)
        ensures
            value == self@.conversion_factor(),
    {
        proof {
            use_type_invariant(self);
        }
        self.conversion_factor
    }

    /// The right-aligned, `used_bits`-wide bit pattern of the least value.
    pub fn min_inner(&self) -> (value: u64)
        ensures
            value == self@.min_inner(),
    {
        proof {
            use_type_invariant(self);
        }
        self.min_inner
    }

    /// The right-aligned, `used_bits`-wide bit pattern of the greatest value.
    pub fn max_inner(&self) -> (value: u64)
        ensures
            value == self@.max_inner(),
    {
        proof {
            use_type_invariant(self);
        }
        self.max_inner
    }
}

impl TypeDescriptor {
    /// The notation as text, such as `Q12.5` or `UQ5.3`.
    pub fn q_notation(&self) -> (label: String)
        ensures
            label@ == self@.notation(),
    {
        proof {
            use_type_invariant(self);
            reveal_strlit("Q");
            reveal_strlit("UQ");
            reveal_strlit(".");
        }
        let mut label: String = String::from_str(
            if self.signed {
                "Q"
            } else {
                "UQ"
            },
        );
        let int_digits: String = decimal_string(self.int_bits as u64);
        let frac_digits: String = decimal_string(self.frac_bits as u64);
        label.append(int_digits.as_str());
        label.append(".");
        label.append(frac_digits.as_str());
        assert(label@ =~= self@.notation());
        label
    }

    /// The size of the storage word in bytes.
    pub fn size_of(&self) -> (bytes: usize)
        ensures
            bytes * 8 == self@.total_bits(),
    {
        proof {
            use_type_invariant(self);
        }
        (self.total_bits / 8) as usize
    }

    /// The least representable value.
    pub fn min_float(&self) -> (value: Dyadic)
        ensures
            value == self@.min_float(),
    {
        proof {
            use_type_invariant(self);
        }
        Dyadic {
            negative: self.signed,
            magnitude: self.min_inner,
            exponent: -(self.frac_bits as i32),
        }
    }

    /// The greatest representable value.
    pub fn max_float(&self) -> (value: Dyadic)
        ensures
            value == self@.max_float(),
    {
        proof {
            use_type_invariant(self);
        }
        Dyadic {
            negative: false,
            magnitude: self.max_inner,
            exponent: -(self.frac_bits as i32),
        }
    }
}

/// Derives the descriptor of the notation `input`.
///
/// Fails exactly when the integer and fractional bits together exceed the
/// widest storage word; the error carries their sum.
pub fn generate(input: Input) -> (result: Result<TypeDescriptor, LayoutError>)
    requires
        input.int_bits >= MIN_INT_BITS,
    ensures
        input@.valid() <==> result.is_ok(),
        result matches Ok(descriptor) ==> descriptor.wf() && descriptor@ == input@,
        result matches Err(error) ==> error == (LayoutError::UsedBitsTooLarge {
            used_bits: (input.int_bits + input.frac_bits) as u16,
        }),
{
    let int_bits: u8 = input.int_bits;
    let frac_bits: u8 = input.frac_bits;
    let wide_used_bits: u16 = int_bits as u16 + frac_bits as u16;
    if wide_used_bits > 64 {
        return Err(LayoutError::UsedBitsTooLarge { used_bits: wide_used_bits });
    }
    let used_bits: u8 = wide_used_bits as u8;
    let total_bits: u8 = match total_bits(used_bits) {
        Ok(n) => n,
        Err(error) => {
            return Err(error);
        },
    };
    let pad_bits: u8 = total_bits - used_bits;
    let denominator: u64 = pow2_u64(frac_bits);
    let conversion_factor: u64 = pow2_u64(frac_bits + pad_bits);
    let signed: bool = input.signed;
    let high_bit: u64 = pow2_u64(used_bits - 1);
    proof {
        lemma2_to64_rest();
        lemma_pow2_monotonic((used_bits - 1) as nat, 63);
        assert(pow2(used_bits as nat) == 2 * pow2((used_bits - 1) as nat)) by {
            vstd::arithmetic::power2::lemma_pow2_unfold(used_bits as nat);
        }
    }
    let (min_inner, max_inner): (u64, u64) = if signed {
        (high_bit, high_bit - 1)
    } else {
        (0, high_bit - 1 + high_bit)
    };
    let used_mask: u64 = used_mask(total_bits, pad_bits);
    Ok(
        TypeDescriptor {
            signed,
            int_bits,
            frac_bits,
            used_bits,
            total_bits,
            pad_bits,
            used_mask,
            denominator,
            conversion_factor,
            min_inner,
            max_inner,
        },
    )
}

} // verus!
