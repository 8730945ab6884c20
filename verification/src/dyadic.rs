//! Exact binary rationals: the real numbers a fixed-point layout converts
//! from and to, held as a sign, an integer magnitude and a binary exponent.

use vstd::prelude::*;
use vstd::arithmetic::power2::{
    pow2, lemma_pow2_adds, lemma_pow2_pos, lemma2_to64, lemma2_to64_rest,
};
use vstd::arithmetic::div_mod::{
    lemma_basic_div, lemma_div_basics_1, lemma_div_by_multiple, lemma_div_is_ordered,
};
use vstd::bits::{
    lemma_u64_mul_pow2_le_max_iff_max_shr, lemma_u64_shl_is_mul, lemma_u64_shr_is_div,
};
use crate::math::{pow2_u64, lemma_pow2_monotonic};

verus! {

/// The real number `magnitude * 2^exponent`, negated where `negative` is set. Several values of this type may
/// stand for the same real number; [`Dyadic::le`] compares the numbers, not
/// the representations.
#[derive(Clone, Copy, Debug, PartialEq, Eq)]
pub struct Dyadic {
    pub negative: bool,
    pub magnitude: u64,
    pub exponent: i32,
}

/// `magnitude * 2^exponent <= bound * 2^bound_exponent`, for natural
/// magnitudes and integer exponents.
pub open spec fn scaled_le(magnitude: nat, exponent: int, bound: nat, bound_exponent: int) -> bool {
    if exponent >= bound_exponent {
        magnitude * pow2((exponent - bound_exponent) as nat) <= bound
    } else {
        magnitude <= bound * pow2((bound_exponent - exponent) as nat)
    }
}

/// The integer part of `magnitude * 2^exponent`.
pub open spec fn scaled_floor(magnitude: nat, exponent: int) -> nat {
    if exponent >= 0 {
        magnitude * pow2(exponent as nat)
    } else {
        magnitude / pow2((-exponent) as nat)
    }
}

impl Dyadic {
    /// The signed integer that `2^exponent` is multiplied by.
    pub open spec fn numerator(self) -> int {
        if self.negative {
            -(self.magnitude as int)
        } else {
            self.magnitude as int
        }
    }

    /// The number in units of `2^low`: an integer wherever `low` is at most
    /// the exponent.
    pub open spec fn scaled_numerator(self, low: int) -> int {
        self.numerator() * pow2((self.exponent - low) as nat)
    }

    /// `self <= other` as real numbers: both are brought to the smaller of
    /// the two exponents and compared there.
    pub open spec fn le(self, other: Dyadic) -> bool {
        let low: int = if self.exponent <= other.exponent {
            self.exponent as int
        } else {
            other.exponent as int
        };
        self.scaled_numerator(low) <= other.scaled_numerator(low)
    }

    /// `self * 2^shift`, rounded toward zero to an integer.
    pub open spec fn truncated(self, shift: nat) -> int {
        let floor: nat = scaled_floor(self.magnitude as nat, self.exponent + shift);
        if self.negative {
            -(floor as int)
        } else {
            floor as int
        }
    }
}

/// Decides `magnitude * 2^exponent <= bound * 2^bound_exponent` without
/// leaving 128-bit arithmetic.
pub fn magnitude_le(magnitude: u64, exponent: i32, bound: u64, bound_exponent: i32) -> (le: bool)
    ensures
        le == scaled_le(magnitude as nat, exponent as int, bound as nat, bound_exponent as int),
{
    let distance: i64 = exponent as i64 - bound_exponent as i64;
    proof {
        lemma2_to64();
        lemma2_to64_rest();
    }
    if distance >= 0 {
        if magnitude == 0 {
            proof {
                assert(0 * pow2(distance as nat) == 0) by (nonlinear_arith);
            }
            true
        } else if distance >= 64 {
            proof {
                lemma_pow2_monotonic(64, distance as nat);
                let p = pow2(distance as nat) as int;
                let m = magnitude as int;
                assert(m * p >= p) by (nonlinear_arith)
                    requires
                        m >= 1,
                        p >= 0,
                ;
            }
            false
        } else {
            proof {
                lemma_u64_mul_pow2_le_max_iff_max_shr(magnitude, distance as u64, bound);
            }
            magnitude <= (bound >> (distance as u64))
        }
    } else {
        if bound == 0 {
            proof {
                assert(0 * pow2((-distance) as nat) == 0) by (nonlinear_arith);
            }
            magnitude == 0
        } else if distance <= -64 {
            proof {
                lemma_pow2_monotonic(64, (-distance) as nat);
                let p = pow2((-distance) as nat) as int;
                let b = bound as int;
                assert(b * p >= p) by (nonlinear_arith)
                    requires
                        b >= 1,
                        p >= 0,
                ;
            }
            true
        } else {
            let factor: u64 = pow2_u64((-distance) as u8);
            proof {
                let b = bound as int;
                let f = factor as int;
                assert(0 <= b * f <= 0xFFFF_FFFF_FFFF_FFFF * 0xFFFF_FFFF_FFFF_FFFF)
                    by (nonlinear_arith)
                    requires
                        0 <= b <= 0xFFFF_FFFF_FFFF_FFFF,
                        0 <= f <= 0xFFFF_FFFF_FFFF_FFFF,
                ;
            }
            (magnitude as u128) <= (bound as u128) * (factor as u128)
        }
    }
}

/// Computes the integer part of `magnitude * 2^exponent`, or `None` when it
/// does not fit in a 64-bit word.
pub fn scaled_magnitude(magnitude: u64, exponent: i64) -> (floor: Option<u64>)
    ensures
        floor == if scaled_floor(magnitude as nat, exponent as int) <= u64::MAX {
            Some(scaled_floor(magnitude as nat, exponent as int) as u64)
        } else {
            None
        },
{
    proof {
        lemma2_to64();
        lemma2_to64_rest();
    }
    if magnitude == 0 {
        proof {
            if exponent >= 0 {
                assert(0 * pow2(exponent as nat) == 0) by (nonlinear_arith);
            } else {
                lemma_pow2_pos((-exponent) as nat);
                lemma_div_basics_1(pow2((-exponent) as nat) as int);
            }
        }
        Some(0)
    } else if exponent >= 64 {
        proof {
            lemma_pow2_monotonic(64, exponent as nat);
            let p = pow2(exponent as nat) as int;
            let m = magnitude as int;
            assert(m * p >= p) by (nonlinear_arith)
                requires
                    m >= 1,
                    p >= 0,
            ;
        }
        None
    } else if exponent >= 0 {
        let shift: u64 = exponent as u64;
        proof {
            lemma_u64_mul_pow2_le_max_iff_max_shr(magnitude, shift, u64::MAX);
        }
        if magnitude <= (u64::MAX >> shift) {
            proof {
                lemma_u64_shl_is_mul(magnitude, shift);
            }
            Some(magnitude << shift)
        } else {
            None
        }
    } else if exponent <= -64 {
        proof {
            lemma_pow2_monotonic(64, (-exponent) as nat);
            lemma_basic_div(magnitude as int, pow2((-exponent) as nat) as int);
        }
        Some(0)
    } else {
        let shift: u64 = (-exponent) as u64;
        proof {
            lemma_u64_shr_is_div(magnitude, shift);
        }
        Some(magnitude >> shift)
    }
}

/// A magnitude that is at most `bound * 2^-frac` has, after scaling by
/// `2^(frac + pad)` and truncation, at most the value `bound * 2^pad`.
pub proof fn lemma_scaled_floor_bound(
    magnitude: nat,
    exponent: int,
    bound: nat,
    frac: nat,
    pad: nat,
)
    requires
        scaled_le(magnitude, exponent, bound, -(frac as int)),
    ensures
        scaled_floor(magnitude, exponent + frac + pad) <= bound * pow2(pad),
{
    let m = magnitude as int;
    let b = bound as int;
    let pp = pow2(pad) as int;
    lemma_pow2_pos(pad);
    if exponent + frac >= 0 {
        let a = (exponent + frac) as nat;
        let pa = pow2(a) as int;
        lemma_pow2_adds(a, pad);
        assert(m * (pa * pp) <= b * pp) by (nonlinear_arith)
            requires
                m * pa <= b,
                pp >= 0,
        ;
    } else {
        let t = (-(exponent + frac)) as nat;
        let pt = pow2(t) as int;
        if pad >= t {
            let rest = (pad - t) as nat;
            let pr = pow2(rest) as int;
            lemma_pow2_pos(rest);
            lemma_pow2_adds(t, rest);
            assert(m * pr <= b * (pt * pr)) by (nonlinear_arith)
                requires
                    m <= b * pt,
                    pr >= 0,
            ;
        } else {
            let rest = (t - pad) as nat;
            let pr = pow2(rest) as int;
            lemma_pow2_pos(rest);
            lemma_pow2_adds(pad, rest);
            assert(b * pt == (b * pp) * pr) by (nonlinear_arith)
                requires
                    pt == pp * pr,
            ;
            lemma_div_is_ordered(m, (b * pp) * pr, pr);
            lemma_div_by_multiple(b * pp, pr);
        }
    }
}

impl Dyadic {
    /// Compares two numbers exactly.
    pub fn is_le(&self, other: &Dyadic) -> (le: bool)
        ensures
            le == self.le(*other),
    {
        proof {
            lemma_le_by_sign(*self, *other);
        }
        if self.negative {
            if other.negative {
                magnitude_le(other.magnitude, other.exponent, self.magnitude, self.exponent)
            } else {
                true
            }
        } else {
            if other.negative {
                self.magnitude == 0 && other.magnitude == 0
            } else {
                magnitude_le(self.magnitude, self.exponent, other.magnitude, other.exponent)
            }
        }
    }
}

/// The order of two numbers, read off their signs and magnitudes.
pub proof fn lemma_le_by_sign(a: Dyadic, b: Dyadic)
    ensures
        a.negative && !b.negative ==> a.le(b),
        !a.negative && b.negative ==> (a.le(b) <==> a.magnitude == 0 && b.magnitude == 0),
        !a.negative && !b.negative ==> (a.le(b) <==> scaled_le(
            a.magnitude as nat,
            a.exponent as int,
            b.magnitude as nat,
            b.exponent as int,
        )),
        a.negative && b.negative ==> (a.le(b) <==> scaled_le(
            b.magnitude as nat,
            b.exponent as int,
            a.magnitude as nat,
            a.exponent as int,
        )),
{
    let low: int = if a.exponent <= b.exponent {
        a.exponent as int
    } else {
        b.exponent as int
    };
    let pa = pow2((a.exponent - low) as nat) as int;
    let pb = pow2((b.exponent - low) as nat) as int;
    let am = a.magnitude as int;
    let bm = b.magnitude as int;
    lemma_pow2_pos((a.exponent - low) as nat);
    lemma_pow2_pos((b.exponent - low) as nat);
    lemma2_to64();
    assert(pa == 1 || pb == 1);
    assert((-am) * pa == -(am * pa)) by (nonlinear_arith);
    assert((-bm) * pb == -(bm * pb)) by (nonlinear_arith);
    assert(am * pa >= 0 && (am > 0 ==> am * pa > 0)) by (nonlinear_arith)
        requires
            am >= 0,
            pa > 0,
    ;
    assert(bm * pb >= 0 && (bm > 0 ==> bm * pb > 0)) by (nonlinear_arith)
        requires
            bm >= 0,
            pb > 0,
    ;
    assert(am * 1 == am && bm * 1 == bm);
}

/// The sign bit of a binary64 bit pattern.
pub open spec fn f64_sign(bits: u64) -> bool {
    bits / 0x8000_0000_0000_0000 == 1
}

/// The biased exponent field of a binary64 bit pattern.
pub open spec fn f64_exponent_field(bits: u64) -> nat {
    ((bits / 0x10_0000_0000_0000) % 0x800) as nat
}

/// The fraction field of a binary64 bit pattern.
pub open spec fn f64_fraction_field(bits: u64) -> nat {
    (bits % 0x10_0000_0000_0000) as nat
}

/// Whether a binary64 bit pattern is a number: neither an infinity nor a NaN.
pub open spec fn f64_is_finite(bits: u64) -> bool {
    f64_exponent_field(bits) != 0x7FF
}

/// The number that a finite binary64 bit pattern stands for. A subnormal
/// pattern has no implicit leading bit and the least exponent.
pub open spec fn f64_value(bits: u64) -> Dyadic {
    if f64_exponent_field(bits) == 0 {
        Dyadic {
            negative: f64_sign(bits),
            magnitude: f64_fraction_field(bits) as u64,
            exponent: (-1074i32),
        }
    } else {
        Dyadic {
            negative: f64_sign(bits),
            magnitude: (0x10_0000_0000_0000 + f64_fraction_field(bits)) as u64,
            exponent: (f64_exponent_field(bits) - 1075) as i32,
        }
    }
}

impl Dyadic {
    /// Reads a binary64 bit pattern. Infinities and NaNs are no numbers and
    /// give `None`; every other pattern gives the number it stands for,
    /// exactly.
    pub fn from_f64_bits(bits: u64) -> (number: Option<Dyadic>)
        ensures
            number == if f64_is_finite(bits) {
                Some(f64_value(bits))
            } else {
                None
            },
    {
        let negative: bool = (bits >> 63) == 1;
        let exponent_field: u64 = (bits >> 52) & 0x7FF;
        let fraction_field: u64 = bits & 0xF_FFFF_FFFF_FFFF;
        proof {
            assert((bits >> 63) == bits / 0x8000_0000_0000_0000) by (bit_vector);
            assert((bits >> 52) & 0x7FF == (bits / 0x10_0000_0000_0000) % 0x800) by (bit_vector);
            assert(bits & 0xF_FFFF_FFFF_FFFF == bits % 0x10_0000_0000_0000) by (bit_vector);
        }
        if exponent_field == 0x7FF {
            None
        } else if exponent_field == 0 {
            Some(Dyadic { negative, magnitude: fraction_field, exponent: -1074 })
        } else {
            Some(
                Dyadic {
                    negative,
                    magnitude: 0x10_0000_0000_0000 + fraction_field,
                    exponent: exponent_field as i32 - 1075,
                },
            )
        }
    }
}

} // verus!
