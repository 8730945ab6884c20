//! Values of a fixed-point type: a storage word whose padding bits are zero,
//! read as a multiple of the reciprocal of the conversion factor.

use vstd::prelude::*;
use vstd::arithmetic::div_mod::{
    lemma_add_mod_noop, lemma_mod_add_multiples_vanish, lemma_mod_bound, lemma_mod_mod,
    lemma_mod_multiples_basic, lemma_small_mod,
};
use vstd::arithmetic::power2::{
    pow2, lemma_pow2_adds, lemma_pow2_pos, lemma_pow2_unfold, lemma2_to64, lemma2_to64_rest,
};
use vstd::bits::lemma_u64_shl_is_mul;
use crate::dyadic::{
    Dyadic, f64_is_finite, f64_value, lemma_le_by_sign, lemma_scaled_floor_bound, scaled_floor,
    scaled_magnitude,
};
use crate::gen::TypeDescriptor;
use crate::layout::{Layout, lemma_layout_widths};
use crate::literal::{lemma_mask_clears_padding, lemma_masked_word_fits};
use crate::math::{lemma_pow2_monotonic, pow2_u64};

verus! {

/// A storage word together with the notation it belongs to.
pub struct Stored {
    pub layout: Layout,
    pub bits: u64,
}

impl Stored {
    /// The representation invariant: the notation has a layout, and no bit
    /// outside its used mask is set.
    pub open spec fn wf(self) -> bool {
        self.layout.valid() && self.bits & (self.layout.used_mask() as u64) == self.bits
    }

    /// The word read as an integer: two's complement over the storage width
    /// for a signed notation, plain binary otherwise. The value that the word
    /// stands for is this integer divided by the conversion factor.
    pub open spec fn numerator(self) -> int {
        if self.layout.signed && 2 * self.bits >= self.layout.modulus() {
            self.bits - self.layout.modulus()
        } else {
            self.bits as int
        }
    }

    /// The number that the word stands for: `numerator()` divided by the
    /// conversion factor.
    pub open spec fn to_float(self) -> Dyadic {
        Dyadic {
            negative: self.numerator() < 0,
            magnitude: (if self.numerator() < 0 {
                -self.numerator()
            } else {
                self.numerator()
            }) as u64,
            exponent: (-(self.layout.scale_bits() as int)) as i32,
        }
    }

    /// The sum of two words of one notation, wrapped to the storage width.
    pub open spec fn add(self, rhs: Stored) -> Stored {
        Stored {
            layout: self.layout,
            bits: ((self.bits + rhs.bits) % (self.layout.modulus() as int)) as u64,
        }
    }
}

impl Layout {
    /// The value made from a storage word: the word with every bit outside
    /// the used mask cleared.
    pub open spec fn from_bits(self, bits: u64) -> Stored {
        Stored { layout: self, bits: bits & (self.used_mask() as u64) }
    }

    /// The value made from a number in range: the number times the
    /// conversion factor, rounded toward zero, as a storage word with the
    /// padding cleared.
    pub open spec fn from_float(self, x: Dyadic) -> Stored {
        self.from_bits(self.wrap(x.truncated(self.scale_bits())))
    }

    /// The least value.
    pub open spec fn min(self) -> Stored {
        Stored { layout: self, bits: (self.min_inner() * pow2(self.pad_bits())) as u64 }
    }

    /// The greatest value.
    pub open spec fn max(self) -> Stored {
        Stored { layout: self, bits: (self.max_inner() * pow2(self.pad_bits())) as u64 }
    }
}

/// A value of a fixed-point type. It can only be made by the constructors of
/// its [`TypeDescriptor`], so its padding bits are always zero.
#[derive(Clone, Copy, Debug, PartialEq, Eq)]
pub struct QNum {
    descriptor: TypeDescriptor,
    bits: u64,
}

impl View for QNum {
    type V = Stored;

    closed spec fn view(&self) -> Stored {
        Stored { layout: self.descriptor@, bits: self.bits }
    }
}

/// A number outside the representable range of a type was to be converted.
#[derive(Clone, Copy, Debug, PartialEq, Eq)]
pub struct RangeError {}

impl TypeDescriptor {
    /// Builds a value from a storage word, clearing every bit outside the
    /// used mask.
    pub fn from_bits(&self, bits: u64) -> (value: QNum)
        ensures
            value@ == self@.from_bits(bits),
            value@.wf(),
    {
        let mask: u64 = self.used_mask();
        proof {
            use_type_invariant(self);
            self.lemma_valid();
            assert((bits & mask) & mask == bits & mask) by (bit_vector);
        }
        QNum { descriptor: *self, bits: bits & mask }
    }

    /// Converts a number to the value that stands for it.
    ///
    /// Fails exactly when the number lies outside `min_float ..= max_float`.
    /// Otherwise the number is multiplied by the conversion factor, rounded
    /// toward zero, written as a storage word (two's complement when
    /// negative), and the padding bits are cleared.
    pub fn from_float(&self, x: Dyadic) -> (result: Result<QNum, RangeError>)
        ensures
            result.is_ok() <==> self@.in_range(x),
            result matches Ok(value) ==> value@.wf() && value@ == self@.from_float(x),
    {
        let low: Dyadic = self.min_float();
        let high: Dyadic = self.max_float();
        if !(low.is_le(&x) && x.is_le(&high)) {
            return Err(RangeError {});
        }
        let total: u8 = self.total_bits();
        let mask: u64 = self.used_mask();
        proof {
            use_type_invariant(self);
            self.lemma_valid();
            lemma_layout_widths(self@);
            lemma_in_range_floor(self@, x);
            lemma2_to64();
            lemma2_to64_rest();
            lemma_pow2_pos(self@.pad_bits());
        }
        let scale: u8 = self.frac_bits() + self.pad_bits();
        let floor: u64 = match scaled_magnitude(x.magnitude, x.exponent as i64 + scale as i64) {
            Some(floor) => floor,
            None => {
                return Err(RangeError {});
            },
        };
        let word: u64 = if x.negative && floor != 0 {
            if total == 64 {
                (0xFFFF_FFFF_FFFF_FFFF - floor) + 1
            } else {
                pow2_u64(total) - floor
            }
        } else {
            floor
        };
        proof {
            let modulus = self@.modulus() as int;
            if x.negative && floor != 0 {
                lemma_mod_add_multiples_vanish(-(floor as int), modulus);
                lemma_small_mod((modulus - floor) as nat, modulus as nat);
            } else {
                lemma_small_mod(floor as nat, modulus as nat);
            }
            assert(word == self@.wrap(x.truncated(self@.scale_bits())));
            assert((word & mask) & mask == word & mask) by (bit_vector);
        }
        Ok(QNum { descriptor: *self, bits: word & mask })
    }

    /// Converts the number that a binary64 bit pattern stands for.
    ///
    /// Fails when the pattern is an infinity or a NaN, and when the number
    /// lies outside `min_float ..= max_float`; otherwise gives what
    /// [`TypeDescriptor::from_float`] gives for the number.
    pub fn from_f64_bits(&self, bits: u64) -> (result: Result<QNum, RangeError>)
        ensures
            result.is_ok() <==> f64_is_finite(bits) && self@.in_range(f64_value(bits)),
            result matches Ok(value) ==> value@.wf() && value@ == self@.from_float(
                f64_value(bits),
            ),
    {
        match Dyadic::from_f64_bits(bits) {
            Some(x) => self.from_float(x),
            None => Err(RangeError {}),
        }
    }

    /// The least value of the type: the storage word of `min_float`, which
    /// is `min_inner` moved up past the padding.
    pub fn min(&self) -> (value: QNum)
        ensures
            value@.wf(),
            value@ == self@.min(),
    {
        let pad: u8 = self.pad_bits();
        let pattern: u64 = self.min_inner();
        proof {
            use_type_invariant(self);
            self.lemma_valid();
            lemma_extreme_words(self@);
            lemma_u64_shl_is_mul(pattern, pad as u64);
        }
        QNum { descriptor: *self, bits: pattern << pad }
    }

    /// The greatest value of the type: the storage word of `max_float`,
    /// which is `max_inner` moved up past the padding.
    pub fn max(&self) -> (value: QNum)
        ensures
            value@.wf(),
            value@ == self@.max(),
    {
        let pad: u8 = self.pad_bits();
        let pattern: u64 = self.max_inner();
        proof {
            use_type_invariant(self);
            self.lemma_valid();
            lemma_extreme_words(self@);
            lemma_u64_shl_is_mul(pattern, pad as u64);
        }
        QNum { descriptor: *self, bits: pattern << pad }
    }
}

impl QNum {
    #[verifier::type_invariant]
    pub closed spec fn wf(&self) -> bool {
        self.descriptor.wf() && self@.wf()
    }

    /// The descriptor of the value's type.
    pub fn descriptor(&self) -> (descriptor: TypeDescriptor)
        ensures
            descriptor@ == self@.layout,
            self@.wf(),
    {
        proof {
            use_type_invariant(self);
        }
        self.descriptor
    }

    /// Returns the storage word as it is.
    pub fn to_bits(&self) -> (bits: u64)
        ensures
            bits == self@.bits,
            self@.wf(),
    {
        proof {
            use_type_invariant(self);
        }
        self.bits
    }

    /// Returns the number that the value stands for, exactly: the storage
    /// word, read as an integer, over the conversion factor.
    pub fn to_float(&self) -> (x: Dyadic)
        ensures
            x == self@.to_float(),
            x.numerator() == self@.numerator(),
            self@.wf(),
    {
        let total: u8 = self.descriptor.total_bits();
        let signed: bool = self.descriptor.signed();
        proof {
            use_type_invariant(self);
            let layout = self@.layout;
            lemma_layout_widths(layout);
            lemma2_to64();
            lemma2_to64_rest();
            lemma_masked_word_fits(self.bits, layout.total_bits(), layout.pad_bits());
            lemma_pow2_unfold(layout.total_bits());
        }
        let scale: u8 = self.descriptor.frac_bits() + self.descriptor.pad_bits();
        let half: u64 = pow2_u64(total - 1);
        if signed && self.bits >= half {
            let magnitude: u64 = if total == 64 {
                (0xFFFF_FFFF_FFFF_FFFF - self.bits) + 1
            } else {
                pow2_u64(total) - self.bits
            };
            Dyadic { negative: true, magnitude, exponent: -(scale as i32) }
        } else {
            Dyadic { negative: false, magnitude: self.bits, exponent: -(scale as i32) }
        }
    }

    /// Adds two values of one type, wrapping around the storage width as the
    /// addition of two machine words does. The padding stays zero, since both
    /// words are multiples of `2^pad_bits`. Where the sum of the two numbers
    /// is representable, the result stands for exactly that sum.
    pub fn add(self, rhs: QNum) -> (sum: QNum)
        requires
            self@.layout == rhs@.layout,
        ensures
            sum@ == self@.add(rhs@),
            sum@.wf(),
    {
        let total: u8 = self.descriptor.total_bits();
        proof {
            use_type_invariant(&self);
            use_type_invariant(&rhs);
            let layout = self@.layout;
            lemma_layout_widths(layout);
            lemma2_to64();
            lemma2_to64_rest();
            lemma_masked_word_fits(self.bits, layout.total_bits(), layout.pad_bits());
            lemma_masked_word_fits(rhs.bits, layout.total_bits(), layout.pad_bits());
        }
        let bits: u64 = if total == 64 {
            let wide: u128 = self.bits as u128 + rhs.bits as u128;
            (wide % 0x1_0000_0000_0000_0000u128) as u64
        } else {
            let modulus: u64 = pow2_u64(total);
            (self.bits + rhs.bits) % modulus
        };
        proof {
            let layout = self@.layout;
            lemma_sum_keeps_padding(layout, self.bits, rhs.bits);
        }
        QNum { descriptor: self.descriptor, bits }
    }
}

/// The wrapped sum of two words without padding bits has no padding bits.
pub proof fn lemma_sum_keeps_padding(layout: Layout, a: u64, b: u64)
    requires
        (Stored { layout, bits: a }).wf(),
        (Stored { layout, bits: b }).wf(),
    ensures
        0 <= (a + b) % (layout.modulus() as int) < layout.modulus() <= 0x1_0000_0000_0000_0000,
        (Stored { layout, bits: a }).add(Stored { layout, bits: b }).wf(),
{
    lemma_layout_widths(layout);
    lemma2_to64();
    lemma2_to64_rest();
    let total = layout.total_bits();
    let pad = layout.pad_bits();
    let unit: int = pow2(pad) as int;
    let rest: int = pow2((total - pad) as nat) as int;
    let modulus: int = layout.modulus() as int;
    lemma_pow2_pos(pad);
    lemma_pow2_pos((total - pad) as nat);
    lemma_pow2_adds(pad, (total - pad) as nat);
    lemma_masked_word_fits(a, total, pad);
    lemma_masked_word_fits(b, total, pad);
    assert(modulus == unit * rest);
    lemma_mod_bound(a + b, modulus);
    lemma_mod_mod(a + b, unit, rest);
    lemma_add_mod_noop(a as int, b as int, unit);
    lemma_small_mod(0, unit as nat);
    let sum: u64 = ((a + b) % modulus) as u64;
    assert(sum == (a + b) % (unit * rest));
    assert((sum as int) % unit == 0);
    lemma_mask_clears_padding(sum, total, pad);
}

/// The truncated, scaled magnitude of a number in range fits the storage
/// word: a non-negative one stays below the modulus, a negative one reaches
/// at most half of it, and for an unsigned type is zero.
pub proof fn lemma_in_range_floor(layout: Layout, x: Dyadic)
    requires
        layout.valid(),
        layout.in_range(x),
    ensures
        !x.negative ==> scaled_floor(x.magnitude as nat, x.exponent + layout.scale_bits())
            + pow2(layout.pad_bits()) <= layout.modulus(),
        !x.negative && layout.signed ==> 2 * (scaled_floor(
            x.magnitude as nat,
            x.exponent + layout.scale_bits(),
        ) + pow2(layout.pad_bits())) <= layout.modulus(),
        x.negative ==> 2 * scaled_floor(x.magnitude as nat, x.exponent + layout.scale_bits())
            <= layout.modulus(),
        x.negative && !layout.signed ==> scaled_floor(
            x.magnitude as nat,
            x.exponent + layout.scale_bits(),
        ) == 0,
{
    lemma_layout_widths(layout);
    lemma2_to64();
    lemma2_to64_rest();
    let used = layout.used_bits();
    let pad = layout.pad_bits();
    let pp = pow2(pad) as int;
    lemma_pow2_pos(pad);
    lemma_pow2_adds(used, pad);
    lemma_pow2_adds((used - 1) as nat, pad);
    lemma_pow2_unfold(used);
    lemma_pow2_unfold(layout.total_bits());
    lemma_pow2_monotonic((used - 1) as nat, 63);
    lemma_pow2_monotonic(used, 64);
    lemma_le_by_sign(layout.min_float(), x);
    lemma_le_by_sign(x, layout.max_float());
    let frac_exponent: int = -(layout.frac_bits as int);
    assert(layout.min_float().exponent == frac_exponent);
    assert(layout.max_float().exponent == frac_exponent);
    if !x.negative {
        let bound = layout.max_inner();
        lemma_scaled_floor_bound(
            x.magnitude as nat,
            x.exponent as int,
            bound,
            layout.frac_bits,
            pad,
        );
        let b = bound as int;
        let pu = pow2(used) as int;
        if layout.signed {
            let ph = pow2((used - 1) as nat) as int;
            assert(2 * (b * pp + pp) == (2 * ph) * pp && b * pp + pp <= (2 * ph) * pp)
                by (nonlinear_arith)
                requires
                    b == ph - 1,
                    pp >= 0,
                    ph >= 1,
            ;
        } else {
            assert(b * pp + pp == pu * pp) by (nonlinear_arith)
                requires
                    b == pu - 1,
            ;
        }
    } else if layout.signed {
        let bound = layout.min_inner();
        lemma_scaled_floor_bound(
            x.magnitude as nat,
            x.exponent as int,
            bound,
            layout.frac_bits,
            pad,
        );
        let ph = pow2((used - 1) as nat) as int;
        assert(2 * (ph * pp) == (2 * ph) * pp) by (nonlinear_arith);
    } else {
        lemma_scaled_floor_bound(x.magnitude as nat, x.exponent as int, 0, layout.frac_bits, pad);
        assert(0 * pp == 0) by (nonlinear_arith);
    }
}

/// The right-aligned patterns of the two extreme values, moved up past the
/// padding, are storage words without padding bits, and they stand for
/// `min_float` and `max_float`.
pub proof fn lemma_extreme_words(layout: Layout)
    requires
        layout.valid(),
    ensures
        layout.min_inner() * pow2(layout.pad_bits()) < layout.modulus(),
        layout.max_inner() * pow2(layout.pad_bits()) < layout.modulus(),
        layout.modulus() <= 0x1_0000_0000_0000_0000,
        layout.min().wf(),
        layout.max().wf(),
        layout.min().numerator() == layout.min_numerator() * pow2(layout.pad_bits()),
        layout.max().numerator() == layout.max_numerator() * pow2(layout.pad_bits()),
{
    lemma_layout_widths(layout);
    lemma2_to64();
    lemma2_to64_rest();
    let used = layout.used_bits();
    let total = layout.total_bits();
    let pad = layout.pad_bits();
    let pp = pow2(pad) as int;
    let ph = pow2((used - 1) as nat) as int;
    let pu = pow2(used) as int;
    let low = layout.min_inner() as int;
    let high = layout.max_inner() as int;
    lemma_pow2_pos(pad);
    lemma_pow2_pos((used - 1) as nat);
    lemma_pow2_adds(used, pad);
    lemma_pow2_unfold(used);
    assert(0 <= low * pp < pu * pp && 0 <= high * pp < pu * pp) by (nonlinear_arith)
        requires
            0 <= low < pu,
            0 <= high < pu,
            pp > 0,
    ;
    lemma_mod_multiples_basic(low, pp);
    lemma_mod_multiples_basic(high, pp);
    lemma_mask_clears_padding((low * pp) as u64, total, pad);
    lemma_mask_clears_padding((high * pp) as u64, total, pad);
    assert(2 * (ph * pp) == pu * pp && (ph - 1) * pp == ph * pp - pp && (pu - 1) * pp == pu * pp
        - pp && (-ph) * pp == -(ph * pp) && 0 * pp == 0) by (nonlinear_arith)
        requires
            pu == 2 * ph,
    ;
}

} // verus!
