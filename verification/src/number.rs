//! The Number type: an IEEE-754 double-precision value held as its 64-bit
//! pattern, with the integer conversions that element stores go through.
//!
//! A finite pattern stands for `significand * 2^exponent`, negated when the
//! sign bit is set.  Every conversion below is stated over that reading.

use crate::bytes::{lemma_byte_weights, twos_complement};
use crate::scaling::{
    bit_length, lemma_bit_length_bounds, lemma_mod_of_negation, lemma_pow2_increases, normalize,
    round_half_even, rounded_half_even,
};
use vstd::arithmetic::div_mod::{
    lemma_basic_div, lemma_div_by_multiple, lemma_div_is_ordered_by_denominator,
    lemma_div_nonincreasing, lemma_mod_multiples_basic, lemma_mul_mod_noop_left, lemma_small_mod,
};
use vstd::arithmetic::mul::lemma_mul_is_associative;
use vstd::arithmetic::power2::{
    lemma2_to64, lemma2_to64_rest, lemma_pow2_adds, lemma_pow2_pos, pow2,
};
use vstd::bits::{lemma_u64_shl_is_mul, lemma_u64_shr_is_div};
use vstd::prelude::*;

verus! {

/// The pattern of positive infinity.
pub const INFINITY_BITS: u64 = 0x7ff0_0000_0000_0000;

/// The pattern every NaN this library produces has.
pub const NAN_BITS: u64 = 0x7ff8_0000_0000_0000;

/// The sign bit.
pub const SIGN_BIT: u64 = 0x8000_0000_0000_0000;

/// The implicit leading bit of a normal significand: `2^52`.
pub const HIDDEN_BIT: u64 = 0x10_0000_0000_0000;

/// A double-precision value, as its bit pattern.
#[derive(Clone, Copy, Debug, PartialEq, Eq, Structural)]
pub struct Number {
    pub bits: u64,
}

/// An integer, or one of the two infinities.
#[derive(Clone, Copy, Debug, PartialEq, Eq, Structural)]
pub enum IntegerOrInfinity {
    NegativeInfinity,
    Integer(i64),
    PositiveInfinity,
}

/// The integer of the 64-bit signed range nearest to `value`.
pub open spec fn saturated_i64(value: int) -> i64 {
    if value < i64::MIN {
        i64::MIN
    } else if value > i64::MAX {
        i64::MAX
    } else {
        value as i64
    }
}

impl Number {
    /// Whether the sign bit is set.
    pub open spec fn is_negative(self) -> bool {
        self.bits >= SIGN_BIT
    }

    /// The eleven exponent bits, as a number.
    pub open spec fn exponent_field(self) -> nat {
        (self.bits as nat / 0x10_0000_0000_0000) % 0x800
    }

    /// The fifty-two fraction bits, as a number.
    pub open spec fn fraction_field(self) -> nat {
        self.bits as nat % 0x10_0000_0000_0000
    }

    /// Whether the value is not a number.
    pub open spec fn is_nan(self) -> bool {
        self.exponent_field() == 0x7ff && self.fraction_field() != 0
    }

    /// Whether the value is one of the two infinities.
    pub open spec fn is_infinite(self) -> bool {
        self.exponent_field() == 0x7ff && self.fraction_field() == 0
    }

    /// Whether the value is a number and not an infinity.
    pub open spec fn is_finite(self) -> bool {
        self.exponent_field() < 0x7ff
    }

    /// Whether the value is one of the two zeros.
    pub open spec fn is_zero(self) -> bool {
        self.exponent_field() == 0 && self.fraction_field() == 0
    }

    /// The value with the given sign, exponent field and fraction field.
    pub open spec fn from_parts(negative: bool, field: nat, fraction: nat) -> Number {
        let sign: nat = if negative {
            0x8000_0000_0000_0000
        } else {
            0
        };
        Number { bits: (sign + field * 0x10_0000_0000_0000 + fraction) as u64 }
    }

    /// A value put together from its parts has those parts.
    pub proof fn lemma_from_parts(negative: bool, field: nat, fraction: nat)
        requires
            field <= 0x7ff,
            fraction < 0x10_0000_0000_0000,
        ensures
            Number::from_parts(negative, field, fraction).is_negative() == negative,
            Number::from_parts(negative, field, fraction).exponent_field() == field,
            Number::from_parts(negative, field, fraction).fraction_field() == fraction,
    {
    }

    /// The significand of a finite value: the fraction bits, below the
    /// hidden bit unless the value is subnormal.
    pub open spec fn significand(self) -> nat {
        if self.exponent_field() == 0 {
            self.fraction_field()
        } else {
            0x10_0000_0000_0000 + self.fraction_field()
        }
    }

    /// The power of two that scales the significand of a finite value.
    pub open spec fn exponent(self) -> int {
        if self.exponent_field() == 0 {
            -1074
        } else {
            self.exponent_field() - 1075
        }
    }

    /// The largest integer not above the magnitude of a finite value.
    pub open spec fn floor_magnitude(self) -> nat {
        if self.exponent() >= 0 {
            self.significand() * pow2(self.exponent() as nat)
        } else {
            self.significand() / pow2((-self.exponent()) as nat)
        }
    }

    /// A finite value with its fractional part dropped.
    pub open spec fn truncated(self) -> int {
        if self.is_negative() {
            -(self.floor_magnitude() as int)
        } else {
            self.floor_magnitude() as int
        }
    }

    /// Whether a finite value has no fractional part.
    pub open spec fn is_integral(self) -> bool {
        self.exponent() >= 0 || self.significand() % pow2((-self.exponent()) as nat) == 0
    }

    /// The value as an integer or an infinity: NaN counts as zero, a finite
    /// value loses its fractional part and is held to the 64-bit range.
    pub open spec fn integer_or_infinity(self) -> IntegerOrInfinity {
        if self.is_nan() {
            IntegerOrInfinity::Integer(0)
        } else if self.is_infinite() {
            if self.is_negative() {
                IntegerOrInfinity::NegativeInfinity
            } else {
                IntegerOrInfinity::PositiveInfinity
            }
        } else {
            IntegerOrInfinity::Integer(saturated_i64(self.truncated()))
        }
    }

    /// The truncated value reduced modulo `2^bits`; zero for NaN and the
    /// infinities.
    pub open spec fn modulo_pow2(self, bits: nat) -> nat {
        if self.is_finite() {
            (self.truncated() % (pow2(bits) as int)) as nat
        } else {
            0
        }
    }

    /// The value with the given pattern.
    pub fn from_bits(bits: u64) -> (number: Number)
        ensures
            number.bits == bits,
    {
        Number { bits }
    }

    /// The pattern of the value.
    pub fn to_bits(self) -> (bits: u64)
        ensures
            bits == self.bits,
    {
        self.bits
    }

    /// The NaN this library produces.
    pub fn nan() -> (number: Number)
        ensures
            number.bits == NAN_BITS,
            number.is_nan(),
    {
        Number { bits: NAN_BITS }
    }

    /// Whether the sign bit is set.
    pub fn is_sign_negative(self) -> (negative: bool)
        ensures
            negative == self.is_negative(),
    {
        self.bits >= SIGN_BIT
    }

    /// The eleven exponent bits.
    pub fn biased_exponent(self) -> (field: u64)
        ensures
            field == self.exponent_field(),
            field <= 0x7ff,
    {
        let bits = self.bits;
        assert((bits >> 52) & 0x7ff == (bits / 0x10_0000_0000_0000) % 0x800) by (bit_vector);
        (bits >> 52) & 0x7ff
    }

    /// The fifty-two fraction bits.
    pub fn fraction(self) -> (field: u64)
        ensures
            field == self.fraction_field(),
            field < HIDDEN_BIT,
    {
        let bits = self.bits;
        assert(bits & 0xf_ffff_ffff_ffff == bits % 0x10_0000_0000_0000) by (bit_vector);
        bits & 0xf_ffff_ffff_ffff
    }

    /// The significand, with the hidden bit where the value is normal.
    pub fn significand_bits(self) -> (significand: u64)
        ensures
            significand == self.significand(),
            significand < 2 * HIDDEN_BIT,
            self.exponent_field() != 0 ==> significand >= HIDDEN_BIT,
    {
        if self.biased_exponent() == 0 {
            self.fraction()
        } else {
            HIDDEN_BIT + self.fraction()
        }
    }

    /// Whether the value is not a number.
    pub fn is_not_a_number(self) -> (nan: bool)
        ensures
            nan == self.is_nan(),
    {
        self.biased_exponent() == 0x7ff && self.fraction() != 0
    }

    /// A value below one in magnitude truncates to zero.
    pub proof fn lemma_floor_below_one(self)
        requires
            self.exponent_field() < 1023,
        ensures
            self.floor_magnitude() == 0,
    {
        let shift = (-self.exponent()) as nat;
        lemma2_to64_rest();
        lemma_pow2_increases(53, shift);
        lemma_basic_div(self.significand() as int, pow2(shift) as int);
    }

    /// The value as an integer or an infinity.
    pub fn to_integer_or_infinity(self) -> (result: IntegerOrInfinity)
        ensures
            result == self.integer_or_infinity(),
    {
        let field = self.biased_exponent();
        let significand = self.significand_bits();
        let negative = self.is_sign_negative();
        if field == 0x7ff {
            if self.fraction() != 0 {
                IntegerOrInfinity::Integer(0)
            } else if negative {
                IntegerOrInfinity::NegativeInfinity
            } else {
                IntegerOrInfinity::PositiveInfinity
            }
        } else if field < 1023 {
            proof {
                self.lemma_floor_below_one();
            }
            IntegerOrInfinity::Integer(0)
        } else if field < 1075 {
            let shift = 1075 - field;
            proof {
                lemma_u64_shr_is_div(significand, shift);
                lemma_pow2_pos(shift as nat);
                lemma_div_nonincreasing(significand as int, pow2(shift as nat) as int);
            }
            let magnitude = (significand >> shift) as i64;
            IntegerOrInfinity::Integer(
                if negative {
                    -magnitude
                } else {
                    magnitude
                },
            )
        } else if field < 1086 {
            let shift = field - 1075;
            proof {
                lemma2_to64();
                lemma_pow2_increases(shift as nat, 10);
                assert(significand * pow2(shift as nat) <= 0x1f_ffff_ffff_ffff * 0x400)
                    by (nonlinear_arith)
                    requires
                        significand <= 0x1f_ffff_ffff_ffff,
                        0 < pow2(shift as nat) <= 0x400,
                ;
                lemma_u64_shl_is_mul(significand, shift);
            }
            let magnitude = (significand << shift) as i64;
            IntegerOrInfinity::Integer(
                if negative {
                    -magnitude
                } else {
                    magnitude
                },
            )
        } else {
            proof {
                let shift = (field - 1075) as nat;
                lemma2_to64();
                lemma_pow2_increases(11, shift);
                assert(significand * pow2(shift) >= 0x10_0000_0000_0000 * 0x800)
                    by (nonlinear_arith)
                    requires
                        significand >= 0x10_0000_0000_0000,
                        pow2(shift) >= 0x800,
                ;
            }
            IntegerOrInfinity::Integer(
                if negative {
                    i64::MIN
                } else {
                    i64::MAX
                },
            )
        }
    }

    /// The value an unsigned `bits`-wide integer element stores: the
    /// truncated value reduced modulo `2^bits`.
    pub fn to_uint_modulo(self, bits: u64) -> (residue: u64)
        requires
            1 <= bits <= 32,
        ensures
            residue == self.modulo_pow2(bits as nat),
            residue < pow2(bits as nat),
    {
        let field = self.biased_exponent();
        let significand = self.significand_bits();
        proof {
            lemma2_to64();
            lemma_pow2_increases(bits as nat, 32);
            lemma_u64_shl_is_mul(1, bits);
        }
        let modulus: u64 = 1u64 << bits;
        let ghost floor = self.floor_magnitude();
        if field == 0x7ff {
            return 0;
        }
        let mut magnitude: u64 = 0;
        if field < 1023 {
            proof {
                self.lemma_floor_below_one();
                lemma_small_mod(0, modulus as nat);
            }
        } else if field < 1075 {
            let shift = 1075 - field;
            proof {
                lemma_u64_shr_is_div(significand, shift);
            }
            magnitude = (significand >> shift) % modulus;
        } else if field - 1075 < bits {
            let shift = field - 1075;
            let low = significand % modulus;
            proof {
                lemma_pow2_increases(shift as nat, 31);
                assert(low * pow2(shift as nat) <= 0xffff_ffff * 0x8000_0000) by (nonlinear_arith)
                    requires
                        low <= 0xffff_ffff,
                        0 < pow2(shift as nat) <= 0x8000_0000,
                ;
                lemma_u64_shl_is_mul(low, shift);
                lemma_mul_mod_noop_left(
                    significand as int,
                    pow2(shift as nat) as int,
                    modulus as int,
                );
            }
            magnitude = (low << shift) % modulus;
        } else {
            proof {
                let shift = (field - 1075) as nat;
                let over = (shift - bits) as nat;
                lemma_pow2_adds(over, bits as nat);
                lemma_mul_is_associative(
                    significand as int,
                    pow2(over) as int,
                    pow2(bits as nat) as int,
                );
                lemma_mod_multiples_basic(significand * pow2(over), modulus as int);
                assert(floor == (significand * pow2(over)) * modulus);
            }
        }
        proof {
            assert(magnitude == floor % (modulus as nat));
            lemma_mod_of_negation(floor, modulus as nat);
        }
        if self.is_sign_negative() && magnitude != 0 {
            modulus - magnitude
        } else {
            magnitude
        }
    }

    /// The value an `Int8` element stores.
    pub fn to_int8(self) -> (value: i8)
        ensures
            value == twos_complement(self.modulo_pow2(8), 1),
    {
        proof {
            lemma2_to64();
            lemma_byte_weights();
        }
        let residue = self.to_uint_modulo(8);
        if residue >= 0x80 {
            (residue as i16 - 0x100) as i8
        } else {
            residue as i8
        }
    }

    /// The value a `Uint8` element stores.
    pub fn to_uint8(self) -> (value: u8)
        ensures
            value == self.modulo_pow2(8),
    {
        proof {
            lemma2_to64();
        }
        self.to_uint_modulo(8) as u8
    }

    /// The value an `Int16` element stores.
    pub fn to_int16(self) -> (value: i16)
        ensures
            value == twos_complement(self.modulo_pow2(16), 2),
    {
        proof {
            lemma2_to64();
            lemma_byte_weights();
        }
        let residue = self.to_uint_modulo(16);
        if residue >= 0x8000 {
            (residue as i32 - 0x1_0000) as i16
        } else {
            residue as i16
        }
    }

    /// The value a `Uint16` element stores.
    pub fn to_uint16(self) -> (value: u16)
        ensures
            value == self.modulo_pow2(16),
    {
        proof {
            lemma2_to64();
        }
        self.to_uint_modulo(16) as u16
    }

    /// The value an `Int32` element stores.
    pub fn to_int32(self) -> (value: i32)
        ensures
            value == twos_complement(self.modulo_pow2(32), 4),
    {
        proof {
            lemma2_to64();
            lemma_byte_weights();
        }
        let residue = self.to_uint_modulo(32);
        if residue >= 0x8000_0000 {
            (residue as i64 - 0x1_0000_0000) as i32
        } else {
            residue as i32
        }
    }

    /// The value a `Uint32` element stores.
    pub fn to_uint32(self) -> (value: u32)
        ensures
            value == self.modulo_pow2(32),
    {
        proof {
            lemma2_to64();
        }
        self.to_uint_modulo(32) as u32
    }

    /// The value a `Uint8Clamped` element stores: NaN and everything below
    /// zero give 0, everything above 255 gives 255, and what lies between
    /// goes to the nearest integer, to the even one of two equally near.
    pub open spec fn uint8_clamped(self) -> u8 {
        if self.is_nan() || self.is_negative() {
            0
        } else if self.is_infinite() || self.exponent() >= 0 {
            255
        } else {
            let rounded = rounded_half_even(self.significand(), (-self.exponent()) as nat);
            if rounded > 255 {
                255
            } else {
                rounded as u8
            }
        }
    }

    /// The value a `Uint8Clamped` element stores.
    pub fn to_uint8_clamp(self) -> (value: u8)
        ensures
            value == self.uint8_clamped(),
    {
        let field = self.biased_exponent();
        let significand = self.significand_bits();
        if self.is_not_a_number() || self.is_sign_negative() {
            0
        } else if field >= 1031 {
            proof {
                if field < 1075 {
                    // At least 2^8: the quotient alone reaches 256.
                    let shift = (1075 - field) as nat;
                    lemma2_to64();
                    lemma2_to64_rest();
                    lemma_pow2_increases(shift, 44);
                    lemma_pow2_adds(8, 44);
                    lemma_div_is_ordered_by_denominator(
                        significand as int,
                        pow2(shift) as int,
                        pow2(44) as int,
                    );
                    assert(significand as int / (pow2(44) as int) >= 256);
                }
            }
            255
        } else if field < 1022 {
            proof {
                // Below one half: quotient zero, remainder under half a unit.
                let shift = (-self.exponent()) as nat;
                lemma2_to64_rest();
                lemma_pow2_increases(54, shift);
                lemma_pow2_adds(1, 53);
                lemma2_to64();
                lemma_small_mod(significand as nat, pow2(shift));
                lemma_basic_div(significand as int, pow2(shift) as int);
            }
            0
        } else {
            let rounded = round_half_even(significand, 1075 - field);
            if rounded > 255 {
                255
            } else {
                rounded as u8
            }
        }
    }

    /// The Number whose value is the integer `value`, for a value below
    /// `2^53` in magnitude: zero is positive zero, and any other value has
    /// its digits scaled up to the 53 of a normal significand.
    pub open spec fn of_integer(value: int) -> Number {
        let magnitude = (if value < 0 {
            -value
        } else {
            value
        }) as nat;
        if magnitude == 0 {
            Number { bits: 0 }
        } else {
            let length = bit_length(magnitude);
            let significand = magnitude * pow2((53 - length) as nat);
            Number::from_parts(
                value < 0,
                1022 + length,
                (significand - 0x10_0000_0000_0000) as nat,
            )
        }
    }

    /// The Number of an integer is finite, has no fractional part, and has
    /// that integer as its value.
    pub proof fn lemma_of_integer(value: int)
        requires
            -0x20_0000_0000_0000 < value < 0x20_0000_0000_0000,
        ensures
            Number::of_integer(value).is_finite(),
            Number::of_integer(value).is_integral(),
            Number::of_integer(value).truncated() == value,
            Number::of_integer(value).is_negative() <==> value < 0,
    {
        let number = Number::of_integer(value);
        let magnitude = (if value < 0 {
            -value
        } else {
            value
        }) as nat;
        lemma2_to64();
        lemma2_to64_rest();
        if magnitude != 0 {
            let length = bit_length(magnitude);
            lemma_bit_length_bounds(magnitude);
            if length > 53 {
                lemma_pow2_increases(53, (length - 1) as nat);
            }
            let up = (53 - length) as nat;
            let significand = magnitude * pow2(up);
            lemma_pow2_adds((length - 1) as nat, up);
            lemma_pow2_adds(length, up);
            lemma_pow2_pos(up);
            assert(pow2(52) <= significand < pow2(53)) by (nonlinear_arith)
                requires
                    pow2((length - 1) as nat) <= magnitude < pow2(length),
                    pow2(52) == pow2((length - 1) as nat) * pow2(up),
                    pow2(53) == pow2(length) * pow2(up),
                    significand == magnitude * pow2(up),
                    pow2(up) > 0,
            ;
            let fraction = (significand - 0x10_0000_0000_0000) as nat;
            let field = 1022 + length;
            let sign: nat = if value < 0 {
                1
            } else {
                0
            };
            Number::lemma_from_parts(value < 0, field, fraction);
            assert(number.fraction_field() == fraction);
            assert(number.exponent_field() == field);
            assert(number.significand() == significand);
            assert(number.exponent() == -(up as int));
            if up == 0 {
                assert(significand == magnitude) by (nonlinear_arith)
                    requires
                        significand == magnitude * pow2(up),
                        pow2(up) == 1,
                ;
            } else {
                lemma_div_by_multiple(magnitude as int, pow2(up) as int);
                lemma_mod_multiples_basic(magnitude as int, pow2(up) as int);
            }
        } else {
            lemma_pow2_pos(1074);
            lemma_basic_div(0, pow2(1074) as int);
            lemma_small_mod(0, pow2(1074));
        }
    }

    /// The Number whose value is the integer `value`.
    pub fn from_integer(value: i64) -> (number: Number)
        requires
            -0x20_0000_0000_0000 < value < 0x20_0000_0000_0000,
        ensures
            number == Number::of_integer(value as int),
    {
        if value == 0 {
            return Number { bits: 0 };
        }
        let negative = value < 0;
        let magnitude: u64 = if negative {
            (-value) as u64
        } else {
            value as u64
        };
        let (significand, up) = normalize(magnitude);
        let sign: u64 = if negative {
            SIGN_BIT
        } else {
            0
        };
        Number { bits: sign + (1075 - up) * HIDDEN_BIT + (significand - HIDDEN_BIT) }
    }
}

} // verus!
