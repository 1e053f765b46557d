//! Fixed-width integers as byte sequences in either byte order.

use vstd::arithmetic::div_mod::{
    lemma_div_denominator, lemma_fundamental_div_mod_converse, lemma_mod_add_multiples_vanish,
    lemma_mod_breakdown, lemma_small_mod,
};
use vstd::prelude::*;

verus! {

/// The weight of the byte at position `i` of a little-endian number: `256^i`.
pub open spec fn byte_weight(i: nat) -> nat
    decreases i,
{
    if i == 0 {
        1
    } else {
        256 * byte_weight((i - 1) as nat)
    }
}

/// The number that `bytes` spell with the least significant byte first.
pub open spec fn le_value(bytes: Seq<u8>) -> nat
    decreases bytes.len(),
{
    if bytes.len() == 0 {
        0
    } else {
        bytes[0] as nat + 256 * le_value(bytes.drop_first())
    }
}

/// The number that `bytes` spell with the most significant byte first.
pub open spec fn be_value(bytes: Seq<u8>) -> nat
    decreases bytes.len(),
{
    if bytes.len() == 0 {
        0
    } else {
        256 * be_value(bytes.drop_last()) + bytes.last() as nat
    }
}

/// The number that `bytes` spell in the given byte order.
pub open spec fn unsigned_value(bytes: Seq<u8>, little_endian: bool) -> nat {
    if little_endian {
        le_value(bytes)
    } else {
        be_value(bytes)
    }
}

/// The two's-complement reading of the `width`-byte number `value`.
pub open spec fn twos_complement(value: nat, width: nat) -> int {
    if 2 * value >= byte_weight(width) {
        value - byte_weight(width)
    } else {
        value as int
    }
}

/// The `width`-byte number that two's complement reads as `value`.
pub open spec fn twos_complement_bits(value: int, width: nat) -> nat {
    (value % (byte_weight(width) as int)) as nat
}

/// The base-256 digit of `value` at position `i`, counted from the least
/// significant.
pub open spec fn byte_at(value: nat, i: nat) -> u8 {
    ((value / byte_weight(i)) % 256) as u8
}

/// The `width` low base-256 digits of `value`, least significant first.
pub open spec fn le_bytes(value: nat, width: nat) -> Seq<u8> {
    Seq::new(width, |i: int| byte_at(value, i as nat))
}

/// The `width` low base-256 digits of `value`, most significant first.
pub open spec fn be_bytes(value: nat, width: nat) -> Seq<u8> {
    Seq::new(width, |i: int| byte_at(value, (width - 1 - i) as nat))
}

/// The `width` low base-256 digits of `value` in the given byte order.
pub open spec fn encoded_bytes(value: nat, width: nat, little_endian: bool) -> Seq<u8> {
    if little_endian {
        le_bytes(value, width)
    } else {
        be_bytes(value, width)
    }
}

/// The first weights, written out.
pub proof fn lemma_byte_weights()
    ensures
        byte_weight(0) == 1,
        byte_weight(1) == 0x100,
        byte_weight(2) == 0x1_0000,
        byte_weight(3) == 0x100_0000,
        byte_weight(4) == 0x1_0000_0000,
        byte_weight(5) == 0x100_0000_0000,
        byte_weight(6) == 0x1_0000_0000_0000,
        byte_weight(7) == 0x100_0000_0000_0000,
        byte_weight(8) == 0x1_0000_0000_0000_0000,
{
    reveal_with_fuel(byte_weight, 10);
}

/// Weights are positive and grow with the position.
pub proof fn lemma_byte_weight_monotonic(i: nat, j: nat)
    requires
        i <= j,
    ensures
        0 < byte_weight(i) <= byte_weight(j),
    decreases j,
{
    if i < j {
        lemma_byte_weight_monotonic(i, (j - 1) as nat);
    } else if i > 0 {
        lemma_byte_weight_monotonic((i - 1) as nat, (i - 1) as nat);
    }
}

/// A number spelt by `n` bytes is below `256^n`.
pub proof fn lemma_le_value_bound(bytes: Seq<u8>)
    ensures
        le_value(bytes) < byte_weight(bytes.len()),
    decreases bytes.len(),
{
    if bytes.len() > 0 {
        lemma_le_value_bound(bytes.drop_first());
    }
}

/// A number spelt by `n` bytes is below `256^n`.
pub proof fn lemma_be_value_bound(bytes: Seq<u8>)
    ensures
        be_value(bytes) < byte_weight(bytes.len()),
    decreases bytes.len(),
{
    if bytes.len() > 0 {
        lemma_be_value_bound(bytes.drop_last());
    }
}

/// Reads up to eight bytes as an unsigned number in the given byte order.
pub fn decode_unsigned(bytes: &[u8], little_endian: bool) -> (value: u64)
    requires
        bytes@.len() <= 8,
    ensures
        value == unsigned_value(bytes@, little_endian),
{
    let n = bytes.len();
    let mut value: u64 = 0;
    let mut i: usize = 0;
    while i < n
        invariant
            n == bytes@.len(),
            i <= n <= 8,
            value < byte_weight(i as nat),
            little_endian ==> value == le_value(bytes@.subrange(n - i, n as int)),
            !little_endian ==> value == be_value(bytes@.subrange(0, i as int)),
        decreases n - i,
    {
        let byte = if little_endian {
            bytes[n - 1 - i]
        } else {
            bytes[i]
        };
        proof {
            lemma_byte_weights();
            lemma_byte_weight_monotonic(i as nat, 7);
            assert(byte_weight((i + 1) as nat) == 256 * byte_weight(i as nat));
            if little_endian {
                let wider = bytes@.subrange(n - i - 1, n as int);
                assert(wider.drop_first() =~= bytes@.subrange(n - i, n as int));
            } else {
                let wider = bytes@.subrange(0, i + 1);
                assert(wider.drop_last() =~= bytes@.subrange(0, i as int));
            }
        }
        value = value * 256 + byte as u64;
        i += 1;
    }
    proof {
        assert(bytes@.subrange(0, n as int) =~= bytes@);
    }
    value
}

/// Writes the `width` low bytes of `value` in the given byte order.
pub fn encode_unsigned(value: u64, width: usize, little_endian: bool) -> (bytes: Vec<u8>)
    requires
        width <= 8,
    ensures
        bytes@ == encoded_bytes(value as nat, width as nat, little_endian),
{
    let mut bytes: Vec<u8> = vec![0u8; width];
    let mut rest: u64 = value;
    let mut i: usize = 0;
    assert(byte_weight(0) == 1);
    while i < width
        invariant
            bytes@.len() == width,
            i <= width <= 8,
            rest == value as nat / byte_weight(i as nat),
            little_endian ==> forall|j: int|
                0 <= j < i ==> bytes@[j] == byte_at(value as nat, j as nat),
            !little_endian ==> forall|j: int|
                width - i <= j < width ==> bytes@[j] == byte_at(
                    value as nat,
                    (width - 1 - j) as nat,
                ),
        decreases width - i,
    {
        let digit: u8 = (rest % 256) as u8;
        let at: usize = if little_endian {
            i
        } else {
            width - 1 - i
        };
        proof {
            lemma_byte_weight_monotonic(i as nat, i as nat);
            lemma_div_denominator(value as int, byte_weight(i as nat) as int, 256);
            assert(byte_weight((i + 1) as nat) == byte_weight(i as nat) * 256);
        }
        bytes.set(at, digit);
        rest = rest / 256;
        i += 1;
    }
    proof {
        assert(bytes@ =~= encoded_bytes(value as nat, width as nat, little_endian));
    }
    bytes
}

/// Dropping the lowest digit of a number shifts its digits down by one.
pub proof fn lemma_byte_at_shift(value: nat, i: nat)
    ensures
        byte_at(value, i + 1) == byte_at(value / 256, i),
{
    lemma_byte_weight_monotonic(i, i);
    lemma_div_denominator(value as int, 256, byte_weight(i) as int);
    assert(byte_weight(i + 1) == 256 * byte_weight(i));
}

/// Reading back the little-endian bytes of a number gives the number reduced
/// modulo `256^width`.
pub proof fn lemma_le_value_of_le_bytes(value: nat, width: nat)
    ensures
        le_value(le_bytes(value, width)) == value % byte_weight(width),
    decreases width,
{
    if width > 0 {
        let rest = (width - 1) as nat;
        lemma_le_value_of_le_bytes(value / 256, rest);
        assert(le_bytes(value, width).drop_first() =~= le_bytes(value / 256, rest)) by {
            assert forall|i: int| 0 <= i < rest implies byte_at(value, (i + 1) as nat)
                == #[trigger] byte_at(value / 256, i as nat) by {
                lemma_byte_at_shift(value, i as nat);
            }
        }
        lemma_byte_weight_monotonic(rest, rest);
        lemma_mod_breakdown(value as int, 256, byte_weight(rest) as int);
        assert(byte_weight(width) == 256 * byte_weight(rest));
    }
}

/// Writing the number that bytes spell gives those bytes back.
pub proof fn lemma_le_bytes_of_le_value(bytes: Seq<u8>)
    ensures
        le_bytes(le_value(bytes), bytes.len()) == bytes,
    decreases bytes.len(),
{
    if bytes.len() > 0 {
        let rest = bytes.drop_first();
        let value = le_value(bytes);
        lemma_le_bytes_of_le_value(rest);
        assert(value / 256 == le_value(rest) && value % 256 == bytes[0] as nat) by {
            lemma_fundamental_div_mod_converse(
                value as int,
                256,
                le_value(rest) as int,
                bytes[0] as int,
            );
        }
        assert forall|i: int| 0 <= i < bytes.len() implies byte_at(value, i as nat)
            == bytes[i] by {
            if i > 0 {
                lemma_byte_at_shift(value, (i - 1) as nat);
                assert(byte_at(value, i as nat) == byte_at(le_value(rest), (i - 1) as nat));
                assert(le_bytes(le_value(rest), rest.len())[i - 1] == byte_at(
                    le_value(rest),
                    (i - 1) as nat,
                ));
                assert(rest[i - 1] == bytes[i]);
            } else {
                assert(byte_weight(0) == 1);
                assert(value / 1 == value);
            }
        }
    }
    assert(le_bytes(le_value(bytes), bytes.len()) =~= bytes);
}

/// The big-endian bytes of a number are its little-endian bytes reversed.
pub proof fn lemma_be_bytes_reversed(value: nat, width: nat)
    ensures
        be_bytes(value, width).reverse() == le_bytes(value, width),
        le_bytes(value, width).reverse() == be_bytes(value, width),
{
    assert(be_bytes(value, width).reverse() =~= le_bytes(value, width));
    assert(le_bytes(value, width).reverse() =~= be_bytes(value, width));
}

/// Bytes spell the same number most significant first as their reversal
/// does least significant first.
pub proof fn lemma_be_value_reversed(bytes: Seq<u8>)
    ensures
        be_value(bytes) == le_value(bytes.reverse()),
    decreases bytes.len(),
{
    if bytes.len() > 0 {
        lemma_be_value_reversed(bytes.drop_last());
        assert(bytes.reverse().drop_first() =~= bytes.drop_last().reverse());
    }
}

/// Reading back the bytes of a number, in the order they were written in,
/// gives the number reduced modulo `256^width`.
pub proof fn lemma_value_of_encoded_bytes(value: nat, width: nat, little_endian: bool)
    ensures
        encoded_bytes(value, width, little_endian).len() == width,
        unsigned_value(encoded_bytes(value, width, little_endian), little_endian) == value
            % byte_weight(width),
{
    lemma_le_value_of_le_bytes(value, width);
    lemma_be_bytes_reversed(value, width);
    lemma_be_value_reversed(be_bytes(value, width));
}

/// Writing the number that bytes spell, in the order they were read in,
/// gives those bytes back.
pub proof fn lemma_encoded_bytes_of_value(bytes: Seq<u8>, little_endian: bool)
    ensures
        encoded_bytes(unsigned_value(bytes, little_endian), bytes.len(), little_endian)
            == bytes,
{
    if little_endian {
        lemma_le_bytes_of_le_value(bytes);
    } else {
        lemma_be_value_reversed(bytes);
        lemma_le_bytes_of_le_value(bytes.reverse());
        lemma_be_bytes_reversed(be_value(bytes), bytes.len());
        assert(bytes.reverse().reverse() =~= bytes);
    }
}

/// Two's complement is a bijection between the `width`-byte numbers and the
/// signed range of that width.
pub proof fn lemma_twos_complement_round_trip(value: nat, width: nat)
    requires
        value < byte_weight(width),
    ensures
        twos_complement_bits(twos_complement(value, width), width) == value,
        -(byte_weight(width) as int) <= 2 * twos_complement(value, width) < byte_weight(width),
{
    let m = byte_weight(width) as int;
    if 2 * value >= m {
        lemma_mod_add_multiples_vanish(value - m, m);
    }
    lemma_small_mod(value, byte_weight(width));
}

} // verus!
