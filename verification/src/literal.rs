//! The mask that separates the used bits of a storage word from its padding,
//! and integer literals in hexadecimal.

use vstd::prelude::*;
use vstd::arithmetic::power2::{pow2, lemma2_to64, lemma2_to64_rest};
use vstd::arithmetic::div_mod::{lemma_fundamental_div_mod, lemma_mod_bound};
use vstd::bits::{lemma_u64_pow2_no_overflow, lemma_u64_shl_is_mul, lemma_u64_shr_is_div};
use vstd::set_lib::{set_int_range, lemma_int_range};
use crate::syntax::{literal_from_hex_text, literal_text};
use crate::text::{hex_string, hex_text, lemma_hex_digits_shape};

verus! {

/// Whether `width` is one of the supported storage widths.
pub open spec fn is_storage_width(width: int) -> bool {
    width == 8 || width == 16 || width == 32 || width == 64
}

/// The word whose set bits are exactly the positions `pad .. total`: the
/// `total - pad` most significant bits of a `total`-bit word.
pub open spec fn high_bits_mask(total: nat, pad: nat) -> nat {
    (pow2(total) - pow2(pad)) as nat
}

/// Whether bit `index` of `word` is set, counting from the least significant
/// bit.
pub open spec fn bit_is_set(word: u64, index: int) -> bool {
    0 <= index < 64 && (word >> (index as u64)) & 1 == 1
}

/// The positions of the set bits of `word`.
pub open spec fn set_bits(word: u64) -> Set<int> {
    Set::new(|index: int| bit_is_set(word, index))
}

/// Builds the mask of a `total_bits`-wide storage word whose low `pad_bits`
/// bits are padding: an all-ones word of that width with the padding cleared.
pub fn used_mask(total_bits: u8, pad_bits: u8) -> (mask: u64)
    requires
        is_storage_width(total_bits as int),
        pad_bits < total_bits,
    ensures
        mask == high_bits_mask(total_bits as nat, pad_bits as nat),
        forall|index: int| bit_is_set(mask, index) <==> pad_bits <= index < total_bits,
{
    let all_ones: u64 = if total_bits == 8 {
        0xFF
    } else if total_bits == 16 {
        0xFFFF
    } else if total_bits == 32 {
        0xFFFF_FFFF
    } else {
        0xFFFF_FFFF_FFFF_FFFF
    };
    let mask: u64 = (all_ones >> pad_bits) << pad_bits;
    proof {
        let pad: u64 = pad_bits as u64;
        let total: u64 = total_bits as u64;
        lemma2_to64();
        lemma2_to64_rest();
        lemma_u64_pow2_no_overflow(pad as nat);
        lemma_u64_shl_is_mul(1u64, pad);
        assert(((all_ones >> pad) << pad) == all_ones + 1 - (1u64 << pad)) by (bit_vector)
            requires
                (all_ones == 0xFF && pad < 8) || (all_ones == 0xFFFF && pad < 16) || (all_ones
                    == 0xFFFF_FFFF && pad < 32) || (all_ones == 0xFFFF_FFFF_FFFF_FFFF && pad < 64),
        ;
        assert forall|index: int| bit_is_set(mask, index) <==> pad_bits <= index
            < total_bits by {
            if 0 <= index < 64 {
                let i: u64 = index as u64;
                assert((((all_ones >> pad) << pad) >> i) & 1 == 1 <==> pad <= i && i < total)
                    by (bit_vector)
                    requires
                        i < 64,
                        (all_ones == 0xFF && pad < 8 && total == 8) || (all_ones == 0xFFFF && pad
                            < 16 && total == 16) || (all_ones == 0xFFFF_FFFF && pad < 32 && total
                            == 32) || (all_ones == 0xFFFF_FFFF_FFFF_FFFF && pad < 64 && total
                            == 64),
                ;
            }
        }
    }
    mask
}

/// The used mask has exactly `total - pad` set bits, and they are the
/// contiguous positions `pad .. total` at the top of the storage word.
pub proof fn lemma_used_mask_bits(mask: u64, total: nat, pad: nat)
    requires
        is_storage_width(total as int),
        pad < total,
        mask == high_bits_mask(total, pad),
    ensures
        set_bits(mask) == set_int_range(pad as int, total as int),
        set_bits(mask).finite(),
        set_bits(mask).len() == total - pad,
{
    let p: u64 = pad as u64;
    let t: u64 = total as u64;
    lemma2_to64();
    lemma2_to64_rest();
    lemma_u64_pow2_no_overflow(pad);
    lemma_u64_shl_is_mul(1u64, p);
    let all_ones: u64 = (pow2(total) - 1) as u64;
    assert(mask == all_ones + 1 - (1u64 << p));
    assert forall|index: int| bit_is_set(mask, index) <==> pad <= index < total by {
        if 0 <= index < 64 {
            let i: u64 = index as u64;
            assert((mask >> i) & 1 == 1 <==> p <= i && i < t) by (bit_vector)
                requires
                    i < 64,
                    mask == all_ones + 1 - (1u64 << p),
                    (all_ones == 0xFF && p < 8 && t == 8) || (all_ones == 0xFFFF && p < 16 && t
                        == 16) || (all_ones == 0xFFFF_FFFF && p < 32 && t == 32) || (all_ones
                        == 0xFFFF_FFFF_FFFF_FFFF && p < 64 && t == 64),
            ;
        }
    }
    assert(set_bits(mask) =~= set_int_range(pad as int, total as int));
    lemma_int_range(pad as int, total as int);
}

/// Masking a word of a `total`-bit storage clears its low `pad` bits and
/// nothing else: the word is rounded down to a multiple of `2^pad`.
pub proof fn lemma_mask_clears_padding(word: u64, total: nat, pad: nat)
    requires
        is_storage_width(total as int),
        pad < total,
        word < pow2(total),
    ensures
        word & (high_bits_mask(total, pad) as u64) == word - (word as int) % (pow2(pad) as int),
        word & (high_bits_mask(total, pad) as u64) == word <==> (word as int) % (pow2(pad) as int)
            == 0,
{
    let p: u64 = pad as u64;
    lemma2_to64();
    lemma2_to64_rest();
    lemma_u64_pow2_no_overflow(pad);
    lemma_u64_shl_is_mul(1u64, p);
    let all_ones: u64 = (pow2(total) - 1) as u64;
    let mask: u64 = high_bits_mask(total, pad) as u64;
    assert(word & mask == (word >> p) << p) by (bit_vector)
        requires
            mask == all_ones + 1 - (1u64 << p),
            word <= all_ones,
            (all_ones == 0xFF && p < 8) || (all_ones == 0xFFFF && p < 16) || (all_ones
                == 0xFFFF_FFFF && p < 32) || (all_ones == 0xFFFF_FFFF_FFFF_FFFF && p < 64),
    ;
    let unit: int = pow2(pad) as int;
    let quotient: u64 = word >> p;
    lemma_u64_shr_is_div(word, p);
    lemma_fundamental_div_mod(word as int, unit);
    lemma_mod_bound(word as int, unit);
    assert(quotient * unit == unit * quotient) by (nonlinear_arith);
    lemma_u64_shl_is_mul(quotient, p);
}

/// A word that keeps its value under the mask of a `total`-bit storage fits
/// in that storage.
pub proof fn lemma_masked_word_fits(word: u64, total: nat, pad: nat)
    requires
        is_storage_width(total as int),
        pad < total,
        word & (high_bits_mask(total, pad) as u64) == word,
    ensures
        word < pow2(total),
        (word as int) % (pow2(pad) as int) == 0,
{
    let p: u64 = pad as u64;
    lemma2_to64();
    lemma2_to64_rest();
    lemma_u64_pow2_no_overflow(pad);
    lemma_u64_shl_is_mul(1u64, p);
    let all_ones: u64 = (pow2(total) - 1) as u64;
    let mask: u64 = high_bits_mask(total, pad) as u64;
    assert(word <= all_ones) by (bit_vector)
        requires
            mask == all_ones + 1 - (1u64 << p),
            word & mask == word,
            (all_ones == 0xFF && p < 8) || (all_ones == 0xFFFF && p < 16) || (all_ones
                == 0xFFFF_FFFF && p < 32) || (all_ones == 0xFFFF_FFFF_FFFF_FFFF && p < 64),
    ;
    lemma_mask_clears_padding(word, total, pad);
}

/// Converts `value` to a hexadecimal integer literal, `0x` followed by its
/// upper-case digits.
pub fn hex_literal(value: u64) -> (literal: proc_macro2::Literal)
    ensures
        literal_text(literal) == hex_text(value as nat),
{
    let text: String = hex_string(value);
    proof {
        lemma_hex_digits_shape(value as nat);
    }
    literal_from_hex_text(text.as_str())
}

/// The literal of the used mask of a `total_bits`-wide storage word with
/// `pad_bits` bits of padding: for five used bits and three of padding in
/// eight, `0xF8`.
pub fn used_mask_literal(total_bits: u8, pad_bits: u8) -> (literal: proc_macro2::Literal)
    requires
        is_storage_width(total_bits as int),
        pad_bits < total_bits,
    ensures
        literal_text(literal) == hex_text(high_bits_mask(total_bits as nat, pad_bits as nat)),
{
    hex_literal(used_mask(total_bits, pad_bits))
}

} // verus!
