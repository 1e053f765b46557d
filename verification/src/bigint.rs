//! Big integers: arbitrary-precision values in sign-and-magnitude form, and
//! their reduction to the 64-bit range that big-integer elements store.

use crate::bytes::{lemma_byte_weights, twos_complement};
use crate::scaling::lemma_mod_of_negation;
use vstd::arithmetic::div_mod::lemma_fundamental_div_mod_converse;
use vstd::prelude::*;

verus! {

/// The number that base-`2^32` digits spell, least significant first.
pub open spec fn digits_value(digits: Seq<u32>) -> nat
    decreases digits.len(),
{
    if digits.len() == 0 {
        0
    } else {
        digits[0] as nat + 0x1_0000_0000 * digits_value(digits.drop_first())
    }
}

/// The two lowest digits as one number: the magnitude modulo `2^64`.
pub open spec fn low_digits(digits: Seq<u32>) -> nat {
    if digits.len() == 0 {
        0
    } else if digits.len() == 1 {
        digits[0] as nat
    } else {
        digits[0] as nat + 0x1_0000_0000 * (digits[1] as nat)
    }
}

/// The two lowest digits of a number are the number modulo `2^64`.
pub proof fn lemma_low_digits(digits: Seq<u32>)
    ensures
        digits_value(digits) % 0x1_0000_0000_0000_0000 == low_digits(digits),
{
    reveal_with_fuel(digits_value, 3);
    if digits.len() >= 2 {
        let rest = digits_value(digits.drop_first().drop_first());
        lemma_fundamental_div_mod_converse(
            digits_value(digits) as int,
            0x1_0000_0000_0000_0000,
            rest as int,
            low_digits(digits) as int,
        );
    } else if digits.len() == 1 {
        assert(digits_value(digits.drop_first()) == 0);
    }
}

/// An integer of any size: a sign, and the magnitude in base-`2^32` digits,
/// least significant first.
#[derive(Clone, Debug)]
pub struct JsBigInt {
    pub negative: bool,
    pub magnitude: Vec<u32>,
}

impl View for JsBigInt {
    type V = int;

    open spec fn view(&self) -> int {
        if self.negative {
            -(digits_value(self.magnitude@) as int)
        } else {
            digits_value(self.magnitude@) as int
        }
    }
}

/// The value that a signed 64-bit element stores for `value`: `value`
/// reduced modulo `2^64` into the signed range.
pub open spec fn wrapped_i64(value: int) -> int {
    twos_complement((value % 0x1_0000_0000_0000_0000) as nat, 8)
}

/// The value that an unsigned 64-bit element stores for `value`: `value`
/// reduced modulo `2^64`.
pub open spec fn wrapped_u64(value: int) -> int {
    value % 0x1_0000_0000_0000_0000
}

/// What the conversion of a big integer to `i64` gives: the value where it
/// lies in the range, nothing where it does not.
pub open spec fn checked_i64(value: int) -> Option<i64> {
    if i64::MIN <= value <= i64::MAX {
        Some(value as i64)
    } else {
        None
    }
}

/// What the conversion of a big integer to `u64` gives: the value where it
/// lies in the range, nothing where it does not.
pub open spec fn checked_u64(value: int) -> Option<u64> {
    if 0 <= value <= u64::MAX {
        Some(value as u64)
    } else {
        None
    }
}

/// `num_traits::ToPrimitive::to_i64` on the `num_bigint::BigInt` that
/// `value` converts to.  The conversion from `i128` is exact; `to_i64`
/// returns the value where it lies between `i64::MIN` and `i64::MAX`, and
/// `None` otherwise.
#[verifier::external_body]
fn big_to_i64(value: i128) -> (converted: Option<i64>)
    ensures
        converted == checked_i64(value as int),
{
    num_traits::ToPrimitive::to_i64(&num_bigint::BigInt::from(value))
}

/// `num_traits::ToPrimitive::to_u64` on the `num_bigint::BigInt` that
/// `value` converts to.  The conversion from `i128` is exact; `to_u64`
/// returns the value where it lies between zero and `u64::MAX`, and `None`
/// otherwise.
#[verifier::external_body]
fn big_to_u64(value: i128) -> (converted: Option<u64>)
    ensures
        converted == checked_u64(value as int),
{
    num_traits::ToPrimitive::to_u64(&num_bigint::BigInt::from(value))
}

/// `num_traits::Signed::is_positive` on the `num_bigint::BigInt` that `value`
/// converts to: whether the value is above zero.
#[verifier::external_body]
fn big_is_positive(value: i128) -> (positive: bool)
    ensures
        positive == (value > 0),
{
    num_traits::Signed::is_positive(&num_bigint::BigInt::from(value))
}

/// The 64-bit signed value to store for a conversion result: the converted
/// value, or the end of the range on the side of the sign where the
/// conversion gave none.
pub fn clamp_i64(converted: Option<i64>, positive: bool) -> (stored: i64)
    ensures
        stored == match converted {
            Some(value) => value,
            None => if positive {
                i64::MAX
            } else {
                i64::MIN
            },
        },
{
    match converted {
        Some(value) => value,
        None => if positive {
            i64::MAX
        } else {
            i64::MIN
        },
    }
}

/// The 64-bit unsigned value to store for a conversion result: the
/// converted value, or the top of the range where the conversion gave none.
pub fn clamp_u64(converted: Option<u64>) -> (stored: u64)
    ensures
        stored == match converted {
            Some(value) => value,
            None => u64::MAX,
        },
{
    match converted {
        Some(value) => value,
        None => u64::MAX,
    }
}

impl JsBigInt {
    /// Whether the digits are the shortest for the value, and zero carries
    /// no sign.
    pub open spec fn wf(&self) -> bool {
        &&& self.magnitude@.len() > 0 ==> self.magnitude@.last() != 0
        &&& self.negative ==> self.magnitude@.len() > 0
    }

    /// The big integer with the given sign and digits; leading zeros are
    /// dropped.
    pub fn new(negative: bool, digits: Vec<u32>) -> (big: JsBigInt)
        ensures
            big.wf(),
            big@ == (JsBigInt { negative, magnitude: digits })@,
    {
        let mut magnitude = digits;
        while magnitude.len() > 0 && magnitude[magnitude.len() - 1] == 0
            invariant
                digits_value(magnitude@) == digits_value(digits@),
            decreases magnitude.len(),
        {
            proof {
                lemma_drop_zero(magnitude@);
            }
            magnitude.pop();
        }
        if magnitude.len() == 0 {
            JsBigInt { negative: false, magnitude }
        } else {
            JsBigInt { negative, magnitude }
        }
    }

    /// The big integer with the value of `value`.
    pub fn from_u64(value: u64) -> (big: JsBigInt)
        ensures
            big.wf(),
            big@ == value,
    {
        let low = (value % 0x1_0000_0000) as u32;
        let high = (value / 0x1_0000_0000) as u32;
        let mut magnitude: Vec<u32> = Vec::new();
        if value != 0 {
            magnitude.push(low);
            if high != 0 {
                magnitude.push(high);
            }
        }
        proof {
            reveal_with_fuel(digits_value, 3);
            if value != 0 {
                if high != 0 {
                    assert(magnitude@ =~= seq![low, high]);
                    assert(magnitude@.drop_first() =~= seq![high]);
                    assert(magnitude@.drop_first().drop_first() =~= Seq::<u32>::empty());
                } else {
                    assert(magnitude@ =~= seq![low]);
                    assert(magnitude@.drop_first() =~= Seq::<u32>::empty());
                }
            }
        }
        JsBigInt { negative: false, magnitude }
    }

    /// The big integer with the value of `value`.
    pub fn from_i64(value: i64) -> (big: JsBigInt)
        ensures
            big.wf(),
            big@ == value,
    {
        if value >= 0 {
            JsBigInt::from_u64(value as u64)
        } else {
            let magnitude: u64 = if value == i64::MIN {
                0x8000_0000_0000_0000
            } else {
                (-value) as u64
            };
            let positive = JsBigInt::from_u64(magnitude);
            JsBigInt { negative: true, magnitude: positive.magnitude }
        }
    }

    /// Whether the value is zero.
    pub open spec fn is_zero(&self) -> bool {
        self@ == 0
    }

    /// The magnitude modulo `2^64`.
    fn low_magnitude(&self) -> (low: u64)
        ensures
            low == digits_value(self.magnitude@) % 0x1_0000_0000_0000_0000,
    {
        proof {
            lemma_low_digits(self.magnitude@);
        }
        if self.magnitude.len() == 0 {
            0
        } else if self.magnitude.len() == 1 {
            self.magnitude[0] as u64
        } else {
            self.magnitude[0] as u64 + 0x1_0000_0000 * (self.magnitude[1] as u64)
        }
    }

    /// The value reduced modulo `2^64`.
    pub fn to_big_uint64(&self) -> (reduced: i128)
        ensures
            reduced == wrapped_u64(self@),
    {
        let low = self.low_magnitude();
        proof {
            lemma_mod_of_negation(digits_value(self.magnitude@), 0x1_0000_0000_0000_0000);
        }
        if self.negative && low != 0 {
            0x1_0000_0000_0000_0000i128 - low as i128
        } else {
            low as i128
        }
    }

    /// The value reduced modulo `2^64` into the signed range.
    pub fn to_big_int64(&self) -> (reduced: i128)
        ensures
            reduced == wrapped_i64(self@),
            i64::MIN <= reduced <= i64::MAX,
    {
        let residue = self.to_big_uint64();
        proof {
            lemma_byte_weights();
        }
        if residue >= 0x8000_0000_0000_0000i128 {
            residue - 0x1_0000_0000_0000_0000i128
        } else {
            residue
        }
    }

    /// The value a `BigInt64` element stores.
    pub fn to_i64_wrapping(&self) -> (stored: i64)
        ensures
            stored == wrapped_i64(self@),
    {
        let reduced = self.to_big_int64();
        let converted = big_to_i64(reduced);
        let positive = converted.is_none() && big_is_positive(reduced);
        clamp_i64(converted, positive)
    }

    /// The value a `BigUint64` element stores.
    pub fn to_u64_wrapping(&self) -> (stored: u64)
        ensures
            stored == wrapped_u64(self@),
    {
        let reduced = self.to_big_uint64();
        clamp_u64(big_to_u64(reduced))
    }
}

/// Digits whose most significant one is not zero spell a positive number.
pub proof fn lemma_digits_positive(digits: Seq<u32>)
    requires
        digits.len() > 0,
        digits.last() != 0,
    ensures
        digits_value(digits) > 0,
    decreases digits.len(),
{
    if digits.len() > 1 {
        lemma_digits_positive(digits.drop_first());
    }
}

/// Two digit sequences without leading zeros that spell the same number are
/// the same sequence.
pub proof fn lemma_digits_injective(a: Seq<u32>, b: Seq<u32>)
    requires
        a.len() > 0 ==> a.last() != 0,
        b.len() > 0 ==> b.last() != 0,
        digits_value(a) == digits_value(b),
    ensures
        a == b,
    decreases a.len(),
{
    if a.len() == 0 {
        if b.len() > 0 {
            lemma_digits_positive(b);
        }
    } else if b.len() == 0 {
        lemma_digits_positive(a);
    } else {
        let rest_a = digits_value(a.drop_first());
        let rest_b = digits_value(b.drop_first());
        lemma_fundamental_div_mod_converse(
            digits_value(a) as int,
            0x1_0000_0000,
            rest_a as int,
            a[0] as int,
        );
        lemma_fundamental_div_mod_converse(
            digits_value(b) as int,
            0x1_0000_0000,
            rest_b as int,
            b[0] as int,
        );
        lemma_digits_injective(a.drop_first(), b.drop_first());
        assert(a =~= seq![a[0]] + a.drop_first());
        assert(b =~= seq![b[0]] + b.drop_first());
    }
    assert(a =~= b);
}

/// The number of digits up to the most significant one that is not zero.
fn significant_len(digits: &Vec<u32>) -> (len: usize)
    ensures
        len <= digits@.len(),
        len > 0 ==> digits@[len - 1] != 0,
        digits_value(digits@.take(len as int)) == digits_value(digits@),
{
    let mut len = digits.len();
    proof {
        assert(digits@.take(len as int) =~= digits@);
    }
    while len > 0 && digits[len - 1] == 0
        invariant
            len <= digits@.len(),
            digits_value(digits@.take(len as int)) == digits_value(digits@),
        decreases len,
    {
        proof {
            lemma_drop_zero(digits@.take(len as int));
            assert(digits@.take(len as int).drop_last() =~= digits@.take(len - 1));
        }
        len -= 1;
    }
    len
}

impl JsBigInt {
    /// Whether two big integers have the same value.
    pub fn equals(&self, other: &JsBigInt) -> (equal: bool)
        ensures
            equal == (self@ == other@),
    {
        let n = significant_len(&self.magnitude);
        let m = significant_len(&other.magnitude);
        let ghost a = self.magnitude@.take(n as int);
        let ghost b = other.magnitude@.take(m as int);
        if n != m {
            proof {
                if digits_value(a) == digits_value(b) {
                    lemma_digits_injective(a, b);
                }
            }
            return false;
        }
        if n == 0 {
            proof {
                assert(a =~= Seq::<u32>::empty());
                assert(b =~= Seq::<u32>::empty());
            }
            return true;
        }
        let mut i: usize = 0;
        while i < n
            invariant
                i <= n,
                n == m,
                n <= self.magnitude@.len(),
                m <= other.magnitude@.len(),
                a == self.magnitude@.take(n as int),
                b == other.magnitude@.take(m as int),
                a.last() != 0,
                b.last() != 0,
                digits_value(a) == digits_value(self.magnitude@),
                digits_value(b) == digits_value(other.magnitude@),
                forall|j: int| 0 <= j < i ==> a[j] == b[j],
            decreases n - i,
        {
            if self.magnitude[i] != other.magnitude[i] {
                proof {
                    if digits_value(a) == digits_value(b) {
                        lemma_digits_injective(a, b);
                        assert(a[i as int] == b[i as int]);
                    }
                }
                return false;
            }
            i += 1;
        }
        proof {
            assert(a =~= b);
            lemma_digits_positive(a);
        }
        self.negative == other.negative
    }

    /// A copy of the big integer.
    pub fn duplicate(&self) -> (copy: JsBigInt)
        ensures
            copy.negative == self.negative,
            copy.magnitude@ == self.magnitude@,
            copy@ == self@,
    {
        JsBigInt { negative: self.negative, magnitude: self.magnitude.clone() }
    }
}

/// A leading zero digit adds nothing to the number.
pub proof fn lemma_drop_zero(digits: Seq<u32>)
    requires
        digits.len() > 0,
        digits.last() == 0,
    ensures
        digits_value(digits.drop_last()) == digits_value(digits),
    decreases digits.len(),
{
    if digits.len() > 1 {
        lemma_drop_zero(digits.drop_first());
        assert(digits.drop_first().drop_last() =~= digits.drop_last().drop_first());
    } else {
        assert(digits.drop_last() =~= Seq::<u32>::empty());
        assert(digits.drop_first() =~= Seq::<u32>::empty());
    }
}

} // verus!
