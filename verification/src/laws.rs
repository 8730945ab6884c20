//! What holds of the numeric operations of every fixed-point type.

use vstd::prelude::*;
use vstd::arithmetic::div_mod::{
    lemma_div_is_ordered, lemma_fundamental_div_mod, lemma_mod_add_multiples_vanish,
    lemma_mod_bound, lemma_mod_multiples_basic, lemma_mod_multiples_vanish, lemma_mod_self_0,
    lemma_small_mod,
};
use vstd::arithmetic::power2::{
    pow2, lemma_pow2_adds, lemma_pow2_pos, lemma_pow2_unfold, lemma2_to64, lemma2_to64_rest,
};
use crate::dyadic::{Dyadic, scaled_floor};
use crate::layout::{Layout, lemma_layout_widths};
use vstd::set_lib::set_int_range;
use crate::literal::{
    bit_is_set, lemma_mask_clears_padding, lemma_masked_word_fits, lemma_used_mask_bits, set_bits,
};
use crate::math::lemma_pow2_monotonic;
use crate::value::{Stored, lemma_in_range_floor, lemma_sum_keeps_padding};

verus! {

/// The used mask of every layout has exactly `used_bits` set bits, and they
/// are the contiguous positions at the top of the storage word, above the
/// padding.
pub proof fn lemma_mask_correct(layout: Layout)
    requires
        layout.valid(),
    ensures
        layout.used_mask() < layout.modulus() <= 0x1_0000_0000_0000_0000,
        forall|index: int|
            #[trigger] bit_is_set(layout.used_mask() as u64, index) <==> layout.pad_bits()
                <= index < layout.total_bits(),
        set_bits(layout.used_mask() as u64).finite(),
        set_bits(layout.used_mask() as u64).len() == layout.used_bits(),
{
    lemma_layout_widths(layout);
    lemma2_to64();
    lemma2_to64_rest();
    lemma_pow2_pos(layout.pad_bits());
    let mask: u64 = layout.used_mask() as u64;
    lemma_used_mask_bits(mask, layout.total_bits(), layout.pad_bits());
    assert forall|index: int| bit_is_set(mask, index) <==> layout.pad_bits() <= index
        < layout.total_bits() by {
        assert(set_bits(mask).contains(index) <==> set_int_range(
            layout.pad_bits() as int,
            layout.total_bits() as int,
        ).contains(index));
    }
}

/// Reading the word of a value built from `bits` gives `bits` with the
/// padding cleared, and building a value from that word again changes
/// nothing.
pub proof fn lemma_bits_round_trip(layout: Layout, bits: u64)
    requires
        layout.valid(),
    ensures
        layout.from_bits(bits).wf(),
        layout.from_bits(bits).bits == bits & (layout.used_mask() as u64),
        layout.from_bits(layout.from_bits(bits).bits) == layout.from_bits(bits),
{
    let mask: u64 = layout.used_mask() as u64;
    assert((bits & mask) & mask == bits & mask) by (bit_vector);
}

/// The value made from a number in range is well formed, and the integer it
/// holds is the truncated, scaled number rounded down to a multiple of
/// `2^pad_bits`.
pub proof fn lemma_from_float_numerator(layout: Layout, x: Dyadic)
    requires
        layout.valid(),
        layout.in_range(x),
    ensures
        layout.from_float(x).wf(),
        layout.from_float(x).numerator() == x.truncated(layout.scale_bits()) - x.truncated(
            layout.scale_bits(),
        ) % (pow2(layout.pad_bits()) as int),
{
    lemma_layout_widths(layout);
    lemma_in_range_floor(layout, x);
    lemma2_to64();
    lemma2_to64_rest();
    let total = layout.total_bits();
    let pad = layout.pad_bits();
    let unit: int = pow2(pad) as int;
    let modulus: int = layout.modulus() as int;
    let half: int = pow2((total - 1) as nat) as int;
    let rest: int = pow2((total - pad) as nat) as int;
    let half_rest: int = pow2((total - 1 - pad) as nat) as int;
    lemma_pow2_pos(pad);
    lemma_pow2_unfold(total);
    lemma_pow2_adds(pad, (total - pad) as nat);
    lemma_pow2_adds(pad, (total - 1 - pad) as nat);
    assert(modulus == unit * rest);
    assert(half == unit * half_rest);
    assert(modulus == 2 * half);
    let floor: int = scaled_floor(x.magnitude as nat, x.exponent + layout.scale_bits()) as int;
    let truncated: int = x.truncated(layout.scale_bits());
    let word: u64 = layout.wrap(truncated);
    if x.negative && floor != 0 {
        lemma_mod_add_multiples_vanish(-floor, modulus);
        lemma_small_mod((modulus - floor) as nat, modulus as nat);
        assert(word == modulus - floor);
        lemma_mask_clears_padding(word, total, pad);
        let bits: int = word - (word as int) % unit;
        assert(layout.from_float(x).bits == bits);
        // The word is at least half the modulus, and so is its multiple of the unit.
        lemma_fundamental_div_mod(word as int, unit);
        lemma_div_is_ordered(half, word as int, unit);
        lemma_fundamental_div_mod(half, unit);
        assert(half_rest * unit == unit * half_rest) by (nonlinear_arith);
        lemma_mod_multiples_basic(half_rest, unit);
        let qw = (word as int) / unit;
        let qh = half / unit;
        assert(unit * qh <= unit * qw) by (nonlinear_arith)
            requires
                qh <= qw,
                unit > 0,
        ;
        assert(bits >= half);
        lemma_mod_bound(word as int, unit);
        lemma_mod_multiples_vanish(rest, -floor, unit);
        assert((word as int) % unit == truncated % unit);
        lemma_mod_multiples_basic(qw, unit);
        assert(qw * unit == unit * qw) by (nonlinear_arith);
        lemma_mask_clears_padding(bits as u64, total, pad);
    } else {
        assert(truncated == floor);
        lemma_small_mod(floor as nat, modulus as nat);
        assert(word == floor);
        lemma_mask_clears_padding(word, total, pad);
        let bits: int = word - (word as int) % unit;
        lemma_mod_bound(word as int, unit);
        lemma_fundamental_div_mod(word as int, unit);
        let qw = (word as int) / unit;
        lemma_mod_multiples_basic(qw, unit);
        assert(qw * unit == unit * qw) by (nonlinear_arith);
        lemma_mask_clears_padding(bits as u64, total, pad);
    }
}

/// Reading a value gives the integer it holds over the conversion factor.
pub proof fn lemma_to_float_numerator(value: Stored)
    requires
        value.wf(),
    ensures
        value.to_float().numerator() == value.numerator(),
        value.to_float().exponent == -(value.layout.scale_bits() as int),
        0 <= value.bits < value.layout.modulus(),
        value.layout.signed ==> -(value.layout.modulus() as int) <= 2 * value.numerator()
            < value.layout.modulus(),
        !value.layout.signed ==> value.numerator() == value.bits,
        value.numerator() % (pow2(value.layout.pad_bits()) as int) == 0,
{
    let layout = value.layout;
    lemma_layout_widths(layout);
    lemma2_to64();
    lemma2_to64_rest();
    lemma_masked_word_fits(value.bits, layout.total_bits(), layout.pad_bits());
    let unit: int = pow2(layout.pad_bits()) as int;
    let rest: int = pow2((layout.total_bits() - layout.pad_bits()) as nat) as int;
    lemma_pow2_pos(layout.pad_bits());
    lemma_pow2_adds(layout.pad_bits(), (layout.total_bits() - layout.pad_bits()) as nat);
    assert(unit * (-rest) == -(unit * rest)) by (nonlinear_arith);
    lemma_mod_multiples_vanish(-rest, value.bits as int, unit);
}

/// Converting a number in range and reading the value back gives a number
/// less than one resolution step, `1 / denominator`, away from the first.
///
/// Both numbers and the step are compared in units of `2^low`, where `low` is
/// the smaller of the two exponents, so that all three are integers.
pub proof fn lemma_float_round_trip(layout: Layout, x: Dyadic)
    requires
        layout.valid(),
        layout.in_range(x),
    ensures
        ({
            let y = layout.from_float(x).to_float();
            let low: int = if x.exponent <= y.exponent {
                x.exponent as int
            } else {
                y.exponent as int
            };
            let step: int = pow2((-(layout.frac_bits as int) - low) as nat) as int;
            -step < y.scaled_numerator(low) - x.scaled_numerator(low) < step
        }),
{
    lemma_layout_widths(layout);
    lemma_from_float_numerator(layout, x);
    lemma_to_float_numerator(layout.from_float(x));
    lemma2_to64();
    let scale = layout.scale_bits();
    let pad = layout.pad_bits();
    let unit: int = pow2(pad) as int;
    lemma_pow2_pos(pad);
    let y = layout.from_float(x).to_float();
    let n: int = y.numerator();
    let truncated: int = x.truncated(scale);
    let magnitude: int = x.magnitude as int;
    lemma_mod_bound(truncated, unit);
    assert(truncated - unit < n <= truncated);
    if x.exponent >= -(scale as int) {
        let up = pow2((x.exponent + scale) as nat) as int;
        assert((-magnitude) * up == -(magnitude * up)) by (nonlinear_arith);
        assert(n * 1 == n);
    } else {
        let down_bits = (-(scale as int) - x.exponent) as nat;
        let down: int = pow2(down_bits) as int;
        let floor: int = magnitude / down;
        lemma_pow2_pos(down_bits);
        lemma_pow2_adds(pad, down_bits);
        lemma_fundamental_div_mod(magnitude, down);
        lemma_mod_bound(magnitude, down);
        assert(magnitude * 1 == magnitude && (-magnitude) * 1 == -magnitude);
        if x.negative {
            assert(-(unit * down) < n * down + magnitude < unit * down) by (nonlinear_arith)
                requires
                    -floor - unit < n <= -floor,
                    down * floor <= magnitude < down * floor + down,
                    unit >= 1,
                    down >= 1,
            ;
        } else {
            assert(-(unit * down) < n * down - magnitude < unit * down) by (nonlinear_arith)
                requires
                    floor - unit < n <= floor,
                    down * floor <= magnitude < down * floor + down,
                    unit >= 1,
                    down >= 1,
            ;
        }
    }
}

/// Every value stands for a number in range, and converting that number
/// gives the value back: reading a value loses nothing.
pub proof fn lemma_to_float_exact(value: Stored)
    requires
        value.wf(),
    ensures
        value.layout.in_range(value.to_float()),
        value.layout.from_float(value.to_float()) == value,
{
    let layout = value.layout;
    let x = value.to_float();
    let n: int = value.numerator();
    let total = layout.total_bits();
    let used = layout.used_bits();
    let pad = layout.pad_bits();
    let unit: int = pow2(pad) as int;
    let modulus: int = layout.modulus() as int;
    lemma_layout_widths(layout);
    lemma_to_float_numerator(value);
    lemma2_to64();
    lemma2_to64_rest();
    lemma_pow2_pos(pad);
    lemma_pow2_adds(used, pad);
    lemma_pow2_adds((used - 1) as nat, pad);
    lemma_pow2_unfold(used);
    lemma_pow2_monotonic((used - 1) as nat, 63);
    lemma_pow2_monotonic(used, 64);
    let half_used: int = pow2((used - 1) as nat) as int;
    let full_used: int = pow2(used) as int;
    // In range: compared in units of 2^-scale, the bounds are the extreme
    // patterns times 2^pad, and the held integer is a multiple of 2^pad.
    lemma_fundamental_div_mod(n, unit);
    let quotient: int = n / unit;
    assert(n == unit * quotient);
    assert(n * 1 == n);
    let low: int = -(layout.scale_bits() as int);
    assert(x.scaled_numerator(low) == n);
    assert(layout.max_float().scaled_numerator(low) == layout.max_inner() * unit);
    assert(layout.min_float().scaled_numerator(low) == layout.min_numerator() * unit) by {
        assert((-half_used) * unit == -(half_used * unit)) by (nonlinear_arith);
        assert(0 * unit == 0) by (nonlinear_arith);
    }
    if layout.signed {
        assert(-half_used <= quotient <= half_used - 1) by (nonlinear_arith)
            requires
                -(2 * half_used * unit) <= 2 * (unit * quotient) < 2 * half_used * unit,
                unit >= 1,
        ;
        assert((-half_used) * unit <= unit * quotient <= (half_used - 1) * unit)
            by (nonlinear_arith)
            requires
                -half_used <= quotient <= half_used - 1,
                unit >= 1,
        ;
    } else {
        assert(0 <= quotient <= full_used - 1) by (nonlinear_arith)
            requires
                0 <= unit * quotient < full_used * unit,
                unit >= 1,
        ;
        assert(0 * unit <= unit * quotient <= (full_used - 1) * unit) by (nonlinear_arith)
            requires
                0 <= quotient <= full_used - 1,
                unit >= 1,
        ;
    }
    assert(layout.in_range(x));
    // Converting back: nothing is truncated, and wrapping restores the word.
    let magnitude: int = x.magnitude as int;
    assert(magnitude * 1 == magnitude);
    assert(pow2(0) == 1);
    assert(x.truncated(layout.scale_bits()) == n);
    if n < 0 {
        lemma_mod_add_multiples_vanish(n, modulus);
    }
    lemma_small_mod(value.bits as nat, modulus as nat);
    assert(layout.wrap(n) == value.bits);
}

/// Addition is exact wherever the sum of the two numbers is representable:
/// the integer held by the sum is then the sum of the integers held. In
/// every case the two differ by a multiple of `2^total_bits`.
pub proof fn lemma_add_exact(a: Stored, b: Stored)
    requires
        a.wf(),
        b.wf(),
        a.layout == b.layout,
    ensures
        a.add(b).wf(),
        a.add(b) == b.add(a),
        (a.add(b).numerator() - (a.numerator() + b.numerator())) % (a.layout.modulus() as int)
            == 0,
        a.layout.signed && -(a.layout.modulus() as int) <= 2 * (a.numerator() + b.numerator())
            < a.layout.modulus() ==> a.add(b).numerator() == a.numerator() + b.numerator(),
        !a.layout.signed && a.numerator() + b.numerator() < a.layout.modulus() ==> a.add(
            b,
        ).numerator() == a.numerator() + b.numerator(),
{
    let layout = a.layout;
    let modulus: int = layout.modulus() as int;
    lemma_layout_widths(layout);
    lemma2_to64();
    lemma2_to64_rest();
    lemma_sum_keeps_padding(layout, a.bits, b.bits);
    lemma_to_float_numerator(a);
    lemma_to_float_numerator(b);
    lemma_to_float_numerator(a.add(b));
    let raw: int = a.bits + b.bits;
    let sum: int = a.add(b).bits as int;
    lemma_fundamental_div_mod(raw, modulus);
    lemma_mod_bound(raw, modulus);
    let wraps: int = raw / modulus;
    assert(0 <= wraps <= 1) by (nonlinear_arith)
        requires
            raw == modulus * wraps + sum,
            0 <= sum < modulus,
            0 <= raw < 2 * modulus,
    ;
    assert(modulus * 0 == 0 && modulus * 1 == modulus);
    // Each held integer is its word or its word less the modulus.
    let difference: int = a.add(b).numerator() - (a.numerator() + b.numerator());
    assert(difference == 0 || difference == modulus || difference == -modulus || difference == 2
        * modulus || difference == -2 * modulus);
    lemma_mod_self_0(modulus);
    lemma_small_mod(0, modulus as nat);
    lemma_mod_multiples_basic(-1, modulus);
    lemma_mod_multiples_basic(2, modulus);
    lemma_mod_multiples_basic(-2, modulus);
}

} // verus!
