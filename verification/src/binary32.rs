//! Single precision: the 32-bit patterns that `Float32` elements hold, and
//! the two conversions between them and Numbers.
//!
//! A finite single-precision pattern with exponent field `t` and fraction
//! `f` stands for `(2^23 + f) * 2^(t - 150)`, or for `f * 2^-149` where `t`
//! is zero.  Read as a number, the 31 bits below the sign grow with the
//! magnitude they stand for, and one more in the pattern is one more unit
//! in the last place; narrowing leans on that.

use crate::number::{Number, HIDDEN_BIT, INFINITY_BITS, NAN_BITS, SIGN_BIT};
use crate::scaling::{
    bit_length, lemma_bit_length_bounds, lemma_pow2_increases, lemma_rounded_exact,
    lemma_rounded_is_nearest, normalize, round_half_even, rounded_half_even,
};
use vstd::arithmetic::div_mod::{
    lemma_basic_div, lemma_div_is_ordered_by_denominator, lemma_small_mod,
};
use vstd::arithmetic::power2::{
    lemma2_to64, lemma2_to64_rest, lemma_pow2_adds, lemma_pow2_pos, lemma_pow2_unfold, pow2,
};
use vstd::prelude::*;

verus! {

/// The single-precision pattern of positive infinity.
pub const INFINITY_BITS_32: u32 = 0x7f80_0000;

/// The single-precision pattern every NaN this library produces has.
pub const NAN_BITS_32: u32 = 0x7fc0_0000;

/// The single-precision sign bit.
pub const SIGN_BIT_32: u32 = 0x8000_0000;

impl Number {
    /// The exponent field a single-precision result has when rounding does
    /// not carry: that of the value's own binade, or 1 where the value lies
    /// below the normal range.
    pub open spec fn binary32_binade(self) -> nat {
        if self.exponent_field() > 896 {
            (self.exponent_field() - 896) as nat
        } else {
            1
        }
    }

    /// The bits below the sign of the nearest single-precision value to a
    /// finite value: the significand is rounded to a whole number of units
    /// in the last place of the result's binade, ties going to the even
    /// one, and what passes the largest finite pattern becomes infinity.
    pub open spec fn binary32_magnitude(self) -> nat {
        let binade = self.binary32_binade();
        let shift = (binade - 150 - self.exponent()) as nat;
        let pattern = (binade - 1) * 0x80_0000 + rounded_half_even(self.significand(), shift);
        if pattern >= 0x7f80_0000 {
            0x7f80_0000
        } else {
            pattern as nat
        }
    }

    /// The single-precision pattern nearest to the value.  Every NaN gives
    /// the same pattern.
    pub open spec fn binary32_bits(self) -> u32 {
        if self.is_nan() {
            NAN_BITS_32
        } else {
            let sign: nat = if self.is_negative() {
                0x8000_0000
            } else {
                0
            };
            let magnitude = if self.is_infinite() {
                0x7f80_0000
            } else {
                self.binary32_magnitude()
            };
            (sign + magnitude) as u32
        }
    }

    /// The Number with the value of a single-precision pattern: the
    /// exponent is carried over, a subnormal fraction is scaled up to a
    /// normal significand, and every NaN gives the same Number.
    pub open spec fn of_binary32(bits: u32) -> Number {
        let negative = bits >= SIGN_BIT_32;
        let field = (bits as nat / 0x80_0000) % 0x100;
        let fraction = bits as nat % 0x80_0000;
        if field == 0xff {
            if fraction != 0 {
                Number { bits: NAN_BITS }
            } else {
                Number::from_parts(negative, 0x7ff, 0)
            }
        } else if field != 0 {
            Number::from_parts(negative, field + 896, fraction * 0x2000_0000)
        } else if fraction == 0 {
            Number::from_parts(negative, 0, 0)
        } else {
            let length = bit_length(fraction);
            let significand = fraction * pow2((53 - length) as nat);
            Number::from_parts(
                negative,
                873 + length,
                (significand - 0x10_0000_0000_0000) as nat,
            )
        }
    }

    /// The magnitude of a finite value in units of `2^-1074`, the smallest
    /// magnitude that a Number has above zero.
    pub open spec fn scaled_magnitude(self) -> nat {
        self.significand() * pow2((self.exponent() + 1074) as nat)
    }

    /// The magnitude of a finite single-precision pattern in units of
    /// `2^-1074`.
    pub open spec fn scaled_magnitude_32(bits: u32) -> nat {
        let field = (bits as nat / 0x80_0000) % 0x100;
        let fraction = bits as nat % 0x80_0000;
        if field == 0 {
            fraction * pow2(925)
        } else {
            (0x80_0000 + fraction) * pow2(924 + field)
        }
    }

    /// The Number of a finite single-precision pattern has the sign and
    /// the magnitude of the pattern exactly.
    pub proof fn lemma_widening_is_exact(bits: u32)
        requires
            (bits as nat / 0x80_0000) % 0x100 != 0xff,
        ensures
            Number::of_binary32(bits).is_finite(),
            Number::of_binary32(bits).is_negative() == (bits >= SIGN_BIT_32),
            Number::of_binary32(bits).scaled_magnitude() == Number::scaled_magnitude_32(bits),
    {
        let negative = bits >= SIGN_BIT_32;
        let field = (bits as nat / 0x80_0000) % 0x100;
        let fraction = bits as nat % 0x80_0000;
        let n = Number::of_binary32(bits);
        lemma2_to64();
        lemma2_to64_rest();
        if field != 0 {
            Number::lemma_from_parts(negative, field + 896, fraction * 0x2000_0000);
            lemma_pow2_adds(29, 895 + field);
            assert(n.significand() == (0x80_0000 + fraction) * pow2(29));
            assert(n.exponent() + 1074 == 895 + field);
            assert((0x80_0000 + fraction) * pow2(29) * pow2(895 + field) == (0x80_0000
                + fraction) * (pow2(29) * pow2(895 + field))) by (nonlinear_arith);
        } else if fraction == 0 {
            Number::lemma_from_parts(negative, 0, 0);
            assert(n.significand() == 0);
            assert(0 * pow2(0) == 0 * pow2(925)) by (nonlinear_arith);
        } else {
            let length = bit_length(fraction);
            lemma_bit_length_bounds(fraction);
            if length > 23 {
                lemma_pow2_increases(23, (length - 1) as nat);
            }
            let up = (53 - length) as nat;
            let significand = fraction * pow2(up);
            lemma_pow2_adds((length - 1) as nat, up);
            lemma_pow2_adds(length, up);
            lemma_pow2_pos(up);
            assert(pow2(52) <= significand < pow2(53)) by (nonlinear_arith)
                requires
                    pow2((length - 1) as nat) <= fraction < pow2(length),
                    pow2(52) == pow2((length - 1) as nat) * pow2(up),
                    pow2(53) == pow2(length) * pow2(up),
                    significand == fraction * pow2(up),
                    pow2(up) > 0,
            ;
            Number::lemma_from_parts(
                negative,
                873 + length,
                (significand - 0x10_0000_0000_0000) as nat,
            );
            assert(n.significand() == significand);
            assert(n.exponent() + 1074 == 872 + length);
            lemma_pow2_adds(up, 872 + length);
            assert(fraction * pow2(up) * pow2(872 + length) == fraction * (pow2(up) * pow2(
                872 + length,
            ))) by (nonlinear_arith);
        }
    }

    /// Rounding to single precision is to the nearest: where the result is
    /// finite, it lies no more than half a unit in the last place of its
    /// binade from the value.
    pub proof fn lemma_narrowing_is_nearest(self)
        requires
            self.is_finite(),
            self.binary32_magnitude() < 0x7f80_0000,
        ensures
            ({
                let result = Number::scaled_magnitude_32(self.binary32_magnitude() as u32) as int;
                let value = self.scaled_magnitude() as int;
                let unit = pow2(924 + self.binary32_binade()) as int;
                &&& 2 * (result - value) <= unit
                &&& 2 * (value - result) <= unit
            }),
    {
        let binade = self.binary32_binade();
        let shift = (binade - 150 - self.exponent()) as nat;
        let significand = self.significand();
        let rounded = rounded_half_even(significand, shift);
        let pattern = ((binade - 1) * 0x80_0000 + rounded) as nat;
        let weight = pow2((self.exponent() + 1074) as nat);
        let step = pow2(shift);
        let unit = pow2(924 + binade);
        lemma2_to64();
        lemma2_to64_rest();
        // The rounded significand has at most 24 digits, and a full 24
        // where the value is normal in single precision.
        lemma_pow2_increases(29, shift);
        lemma_div_is_ordered_by_denominator(significand as int, pow2(29) as int, step as int);
        assert(significand / step <= 0xff_ffff);
        assert(rounded <= 0x100_0000);
        if self.exponent_field() > 896 {
            assert(shift == 29);
            assert(significand / step >= 0x80_0000);
        }
        // The pattern stands for that many units of its binade.
        let field = (pattern / 0x80_0000) % 0x100;
        let fraction = pattern % 0x80_0000;
        assert(Number::scaled_magnitude_32(pattern as u32) == rounded * unit) by {
            if rounded < 0x80_0000 {
                assert(binade == 1 && field == 0 && fraction == rounded);
            } else if rounded < 0x100_0000 {
                assert(field == binade && fraction == rounded - 0x80_0000);
            } else {
                assert(field == binade + 1 && fraction == 0);
                lemma_pow2_unfold(925 + binade);
                assert(0x80_0000 * (2 * unit) == 0x100_0000 * unit) by (nonlinear_arith);
            }
        }
        // So does the value, in units that are `step` times finer.
        lemma_pow2_adds(shift, (self.exponent() + 1074) as nat);
        lemma_pow2_pos((self.exponent() + 1074) as nat);
        lemma_rounded_is_nearest(significand, shift);
        assert(unit == step * weight);
        assert(2 * (rounded * unit - significand * weight) <= unit && 2 * (significand * weight
            - rounded * unit) <= unit) by (nonlinear_arith)
            requires
                unit == step * weight,
                weight >= 1,
                2 * (rounded * step - significand) <= step,
                2 * (significand - rounded * step) <= step,
        ;
    }

    /// Whether a single-precision pattern is a NaN.
    pub open spec fn is_nan_32(bits: u32) -> bool {
        (bits as nat / 0x80_0000) % 0x100 == 0xff && bits as nat % 0x80_0000 != 0
    }

    /// Rounding the Number of a single-precision pattern to single
    /// precision gives the pattern back: every single-precision value is a
    /// Number, and is its own nearest single-precision value.
    pub proof fn lemma_narrowing_inverts_widening(bits: u32)
        requires
            !Number::is_nan_32(bits),
        ensures
            Number::of_binary32(bits).binary32_bits() == bits,
    {
        let negative = bits >= SIGN_BIT_32;
        let field = (bits as nat / 0x80_0000) % 0x100;
        let fraction = bits as nat % 0x80_0000;
        let sign: nat = if negative {
            0x8000_0000
        } else {
            0
        };
        assert(bits == sign + field * 0x80_0000 + fraction);
        let n = Number::of_binary32(bits);
        lemma2_to64();
        lemma2_to64_rest();
        if field == 0xff {
            Number::lemma_from_parts(negative, 0x7ff, 0);
        } else if field != 0 {
            Number::lemma_from_parts(negative, field + 896, fraction * 0x2000_0000);
            lemma_rounded_exact(0x80_0000 + fraction, 29);
            assert(n.significand() == (0x80_0000 + fraction) * pow2(29));
        } else if fraction == 0 {
            Number::lemma_from_parts(negative, 0, 0);
            lemma_rounded_exact(0, 925);
            assert(n.significand() == 0 * pow2(925)) by (nonlinear_arith)
                requires
                    n.significand() == 0,
            ;
        } else {
            let length = bit_length(fraction);
            lemma_bit_length_bounds(fraction);
            if length > 23 {
                lemma_pow2_increases(23, (length - 1) as nat);
            }
            let up = (53 - length) as nat;
            let significand = fraction * pow2(up);
            lemma_pow2_adds((length - 1) as nat, up);
            lemma_pow2_adds(length, up);
            lemma_pow2_pos(up);
            assert(pow2(52) <= significand < pow2(53)) by (nonlinear_arith)
                requires
                    pow2((length - 1) as nat) <= fraction < pow2(length),
                    pow2(52) == pow2((length - 1) as nat) * pow2(up),
                    pow2(53) == pow2(length) * pow2(up),
                    significand == fraction * pow2(up),
                    pow2(up) > 0,
            ;
            Number::lemma_from_parts(
                negative,
                873 + length,
                (significand - 0x10_0000_0000_0000) as nat,
            );
            lemma_rounded_exact(fraction, up);
            assert(n.significand() == significand);
            assert(n.binary32_binade() == 1);
            assert(n.exponent() == length - 202);
        }
    }

    /// Rounds the value to single precision.
    pub fn to_binary32(self) -> (bits: u32)
        ensures
            bits == self.binary32_bits(),
    {
        if self.is_not_a_number() {
            return NAN_BITS_32;
        }
        let sign: u32 = if self.is_sign_negative() {
            SIGN_BIT_32
        } else {
            0
        };
        let field = self.biased_exponent();
        if field == 0x7ff {
            return sign + INFINITY_BITS_32;
        }
        let significand = self.significand_bits();
        let binade: u64 = if field > 896 {
            field - 896
        } else {
            1
        };
        let shift: u64 = if field > 896 {
            29
        } else if field == 0 {
            925
        } else {
            926 - field
        };
        let rounded: u64 = if shift >= 54 {
            proof {
                lemma2_to64_rest();
                lemma_pow2_adds(1, 53);
                lemma2_to64();
                lemma_pow2_increases(54, shift as nat);
                lemma_small_mod(significand as nat, pow2(shift as nat));
                lemma_basic_div(significand as int, pow2(shift as nat) as int);
            }
            0
        } else {
            round_half_even(significand, shift)
        };
        let pattern: u64 = (binade - 1) * 0x80_0000 + rounded;
        if pattern >= 0x7f80_0000 {
            sign + INFINITY_BITS_32
        } else {
            sign + pattern as u32
        }
    }

    /// The Number with the value of a single-precision pattern.
    pub fn from_binary32(bits: u32) -> (number: Number)
        ensures
            number == Number::of_binary32(bits),
    {
        let sign: u64 = if bits >= SIGN_BIT_32 {
            SIGN_BIT
        } else {
            0
        };
        assert((bits >> 23) & 0xff == (bits / 0x80_0000) % 0x100) by (bit_vector);
        assert(bits & 0x7f_ffff == bits % 0x80_0000) by (bit_vector);
        let field: u64 = ((bits >> 23) & 0xff) as u64;
        let fraction: u64 = (bits & 0x7f_ffff) as u64;
        if field == 0xff {
            if fraction != 0 {
                Number { bits: NAN_BITS }
            } else {
                Number { bits: sign + INFINITY_BITS }
            }
        } else if field != 0 {
            Number { bits: sign + (field + 896) * HIDDEN_BIT + fraction * 0x2000_0000 }
        } else if fraction == 0 {
            Number { bits: sign }
        } else {
            let (significand, up) = normalize(fraction);
            Number { bits: sign + (926 - up) * HIDDEN_BIT + (significand - HIDDEN_BIT) }
        }
    }
}

} // verus!
