//! Arithmetic with powers of two: the nearest integer to a quotient by
//! one, and the scaling of a number to a fixed count of binary digits.

use vstd::arithmetic::div_mod::{
    lemma_div_by_multiple, lemma_div_is_ordered_by_denominator, lemma_fundamental_div_mod,
    lemma_fundamental_div_mod_converse, lemma_mod_multiples_basic,
};
use vstd::arithmetic::power2::{
    lemma2_to64, lemma2_to64_rest, lemma_pow2_pos, lemma_pow2_strictly_increases, lemma_pow2_unfold,
    pow2,
};
use vstd::bits::{lemma_u64_shl_is_mul, lemma_u64_shr_is_div};
use vstd::prelude::*;

verus! {

/// `2^larger` is at least `2^smaller`.
pub proof fn lemma_pow2_increases(smaller: nat, larger: nat)
    requires
        smaller <= larger,
    ensures
        0 < pow2(smaller) <= pow2(larger),
{
    lemma_pow2_pos(smaller);
    if smaller < larger {
        lemma_pow2_strictly_increases(smaller, larger);
    }
}

/// The remainder of a negated number, from the remainder of the number.
pub proof fn lemma_mod_of_negation(value: nat, modulus: nat)
    requires
        modulus > 0,
    ensures
        (-(value as int)) % (modulus as int) == if value % modulus == 0 {
            0
        } else {
            modulus - value % modulus
        },
{
    let m = modulus as int;
    let q = value as int / m;
    let r = value as int % m;
    lemma_fundamental_div_mod(value as int, m);
    if r == 0 {
        assert(-(value as int) == m * (-q) + 0) by (nonlinear_arith)
            requires
                value as int == m * q + r,
                r == 0,
        ;
        lemma_fundamental_div_mod_converse(-(value as int), m, -q, 0);
    } else {
        assert(-(value as int) == m * (-q - 1) + (m - r)) by (nonlinear_arith)
            requires
                value as int == m * q + r,
        ;
        lemma_fundamental_div_mod_converse(-(value as int), m, -q - 1, m - r);
    }
}

/// The integer nearest to `value / 2^shift`; of two equally near, the even
/// one.
pub open spec fn rounded_half_even(value: nat, shift: nat) -> nat {
    let unit = pow2(shift);
    let quotient = value / unit;
    let remainder = value % unit;
    if 2 * remainder > unit || (2 * remainder == unit && quotient % 2 == 1) {
        quotient + 1
    } else {
        quotient
    }
}

/// The integer nearest to `value / 2^shift`; of two equally near, the even
/// one.
pub fn round_half_even(value: u64, shift: u64) -> (rounded: u64)
    requires
        1 <= shift <= 63,
    ensures
        rounded == rounded_half_even(value as nat, shift as nat),
        rounded <= value / 2 + 1,
{
    proof {
        lemma2_to64();
        lemma_pow2_increases(1, shift as nat);
        lemma_pow2_increases(shift as nat, 63);
        lemma_pow2_increases((shift - 1) as nat, 62);
        lemma2_to64_rest();
        lemma_pow2_unfold(shift as nat);
        lemma_u64_shr_is_div(value, shift);
        lemma_u64_shl_is_mul(1, shift);
        lemma_u64_shl_is_mul(1, (shift - 1) as u64);
        lemma_div_is_ordered_by_denominator(value as int, 2, pow2(shift as nat) as int);
    }
    let quotient = value >> shift;
    let unit = 1u64 << shift;
    let half = 1u64 << (shift - 1);
    let remainder = value % unit;
    if remainder > half || (remainder == half && quotient % 2 == 1) {
        quotient + 1
    } else {
        quotient
    }
}

/// What rounding gives is nearest: it lies no more than half a unit from
/// the value, and is even where it lies exactly half a unit from it.
pub proof fn lemma_rounded_is_nearest(value: nat, shift: nat)
    ensures
        ({
            let rounded = rounded_half_even(value, shift) as int;
            let unit = pow2(shift) as int;
            &&& 2 * (rounded * unit - value) <= unit
            &&& 2 * (value - rounded * unit) <= unit
            &&& (2 * (rounded * unit - value) == unit || 2 * (value - rounded * unit) == unit)
                ==> rounded % 2 == 0
        }),
{
    let unit = pow2(shift) as int;
    let quotient = value as int / unit;
    let remainder = value as int % unit;
    lemma_pow2_pos(shift);
    lemma_fundamental_div_mod(value as int, unit);
    assert((quotient + 1) * unit == unit * quotient + unit) by (nonlinear_arith);
    assert(quotient * unit == unit * quotient) by (nonlinear_arith);
}

/// A whole number of units rounds to that number.
pub proof fn lemma_rounded_exact(quotient: nat, shift: nat)
    ensures
        rounded_half_even(quotient * pow2(shift), shift) == quotient,
{
    lemma_pow2_pos(shift);
    lemma_div_by_multiple(quotient as int, pow2(shift) as int);
    lemma_mod_multiples_basic(quotient as int, pow2(shift) as int);
}

/// The number of binary digits of `n`, without leading zeros.
pub open spec fn bit_length(n: nat) -> nat
    decreases n,
{
    if n == 0 {
        0
    } else {
        1 + bit_length(n / 2)
    }
}

/// A positive number lies between the two powers of two that its length
/// names.
pub proof fn lemma_bit_length_bounds(n: nat)
    requires
        n > 0,
    ensures
        bit_length(n) >= 1,
        pow2((bit_length(n) - 1) as nat) <= n < pow2(bit_length(n)),
    decreases n,
{
    lemma2_to64();
    if n / 2 > 0 {
        lemma_bit_length_bounds(n / 2);
        lemma_pow2_unfold(bit_length(n / 2));
        lemma_pow2_unfold(bit_length(n));
    } else {
        assert(n == 1);
        assert(bit_length(1) == 1) by {
            reveal_with_fuel(bit_length, 3);
        }
    }
}

/// A number between `2^(length - 1)` and `2^length` has `length` digits.
pub proof fn lemma_bit_length_unique(n: nat, length: nat)
    requires
        length >= 1,
        pow2((length - 1) as nat) <= n < pow2(length),
    ensures
        bit_length(n) == length,
{
    lemma_pow2_pos((length - 1) as nat);
    lemma_bit_length_bounds(n);
    let actual = bit_length(n);
    if actual < length {
        lemma_pow2_increases(actual, (length - 1) as nat);
    } else if actual > length {
        lemma_pow2_increases(length, (actual - 1) as nat);
    }
}

/// A number below `2^53` has at most 53 digits.
pub proof fn lemma_bit_length_unique_upper(n: nat)
    requires
        n < 0x20_0000_0000_0000,
    ensures
        bit_length(n) <= 53,
{
    lemma2_to64_rest();
    if n > 0 {
        lemma_bit_length_bounds(n);
        if bit_length(n) > 53 {
            lemma_pow2_increases(53, (bit_length(n) - 1) as nat);
        }
    }
}

/// Scales a positive number below `2^53` up by the power of two that brings
/// it to 53 digits, and returns the scaled number with the power's exponent.
pub fn normalize(magnitude: u64) -> (scaled: (u64, u64))
    requires
        0 < magnitude < 0x20_0000_0000_0000,
    ensures
        scaled.1 == 53 - bit_length(magnitude as nat),
        scaled.0 == magnitude * pow2(scaled.1 as nat),
        0x10_0000_0000_0000 <= scaled.0 < 0x20_0000_0000_0000,
{
    let mut significand: u64 = magnitude;
    let mut up: u64 = 0;
    proof {
        lemma2_to64();
        lemma_bit_length_unique_upper(magnitude as nat);
        assert(magnitude == magnitude * pow2(0)) by (nonlinear_arith)
            requires
                pow2(0) == 1,
        ;
    }
    while significand < 0x10_0000_0000_0000
        invariant
            0 < magnitude < 0x20_0000_0000_0000,
            0 < significand < 0x20_0000_0000_0000,
            significand == magnitude * pow2(up as nat),
            bit_length(significand as nat) == bit_length(magnitude as nat) + up,
            bit_length(significand as nat) <= 53,
        decreases 53 - up,
    {
        proof {
            let doubled = (2 * significand) as nat;
            assert(doubled / 2 == significand);
            lemma_pow2_unfold((up + 1) as nat);
            assert(2 * (magnitude * pow2(up as nat)) == magnitude * (2 * pow2(up as nat)))
                by (nonlinear_arith);
            lemma_bit_length_unique_upper(doubled);
        }
        significand = significand * 2;
        up = up + 1;
    }
    proof {
        lemma2_to64_rest();
        lemma_bit_length_unique(significand as nat, 53);
    }
    (significand, up)
}

} // verus!
