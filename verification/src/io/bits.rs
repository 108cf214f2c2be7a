//! Bits within a byte, most significant first.

use vstd::prelude::*;

verus! {

/// Whether bit `index` of `byte` is set, where bit 0 is the most significant.
pub open spec fn bit_at(byte: u8, index: int) -> bool {
    0 <= index < 8 && (byte & (0x80u8 >> (index as u8))) != 0
}

/// What bit `index` adds to a byte's value when it is set.
pub open spec fn bit_weight(index: int) -> int {
    if index == 0 {
        128
    } else if index == 1 {
        64
    } else if index == 2 {
        32
    } else if index == 3 {
        16
    } else if index == 4 {
        8
    } else if index == 5 {
        4
    } else if index == 6 {
        2
    } else if index == 7 {
        1
    } else {
        0
    }
}

/// What position `index` of `bits` adds to the byte that the bits make.
pub open spec fn bit_term(bits: Seq<bool>, index: int) -> int {
    if index < bits.len() && bits[index] {
        bit_weight(index)
    } else {
        0
    }
}

/// The byte whose bits, most significant first, are `bits`; positions that
/// `bits` does not reach are zero.
pub open spec fn byte_of_bits(bits: Seq<bool>) -> u8 {
    (bit_term(bits, 0) + bit_term(bits, 1) + bit_term(bits, 2) + bit_term(bits, 3) + bit_term(
        bits,
        4,
    ) + bit_term(bits, 5) + bit_term(bits, 6) + bit_term(bits, 7)) as u8
}

/// The first `count` bits of `byte`, most significant first.
pub open spec fn bits_of_byte(byte: u8, count: int) -> Seq<bool> {
    Seq::new(count as nat, |i: int| bit_at(byte, i))
}

/// The four bits of the low half of `value`, most significant first.
pub open spec fn nibble_bits(value: u8) -> Seq<bool> {
    Seq::new(4, |i: int| bit_at(value, i + 4))
}

/// Whether every bit of `byte` from position `from` on is zero.
pub open spec fn clear_from(byte: u8, from: int) -> bool {
    forall|i: int| from <= i < 8 ==> !bit_at(byte, i)
}

proof fn lemma_weights(byte: u8)
    by (bit_vector)
    ensures
        byte == (if byte & 0x80u8 != 0 { 128u8 } else { 0 }) + (if byte & 0x40u8 != 0 { 64u8 } else { 0 })
            + (if byte & 0x20u8 != 0 { 32u8 } else { 0 }) + (if byte & 0x10u8 != 0 { 16u8 } else { 0 }) + (if byte & 0x08u8 != 0 { 8u8 } else { 0 })
            + (if byte & 0x04u8 != 0 { 4u8 } else { 0 }) + (if byte & 0x02u8 != 0 { 2u8 } else { 0 }) + (if byte & 0x01u8 != 0 { 1u8 } else { 0 }),
{
}

proof fn lemma_masks()
    by (bit_vector)
    ensures
        0x80u8 >> 0u8 == 0x80u8,
        0x80u8 >> 1u8 == 0x40u8,
        0x80u8 >> 2u8 == 0x20u8,
        0x80u8 >> 3u8 == 0x10u8,
        0x80u8 >> 4u8 == 0x08u8,
        0x80u8 >> 5u8 == 0x04u8,
        0x80u8 >> 6u8 == 0x02u8,
        0x80u8 >> 7u8 == 0x01u8,
{
}

/// A byte is made of its own bits: positions from `count` on being zero, the
/// first `count` bits give the byte back.
pub proof fn lemma_byte_of_its_bits(byte: u8, count: int)
    requires
        0 <= count <= 8,
        clear_from(byte, count),
    ensures
        byte_of_bits(bits_of_byte(byte, count)) == byte,
{
    lemma_weights(byte);
    lemma_masks();
    let bits = bits_of_byte(byte, count);
    assert forall|i: int| 0 <= i < 8 implies bit_term(bits, i) == (if bit_at(byte, i) {
        bit_weight(i)
    } else {
        0
    }) by {
        if i >= count {
            assert(!bit_at(byte, i));
        }
    }
    assert(bit_term(bits, 0) == if byte & 0x80u8 != 0 { 128int } else { 0 });
    assert(bit_term(bits, 1) == if byte & 0x40u8 != 0 { 64int } else { 0 });
    assert(bit_term(bits, 2) == if byte & 0x20u8 != 0 { 32int } else { 0 });
    assert(bit_term(bits, 3) == if byte & 0x10u8 != 0 { 16int } else { 0 });
    assert(bit_term(bits, 4) == if byte & 0x08u8 != 0 { 8int } else { 0 });
    assert(bit_term(bits, 5) == if byte & 0x04u8 != 0 { 4int } else { 0 });
    assert(bit_term(bits, 6) == if byte & 0x02u8 != 0 { 2int } else { 0 });
    assert(bit_term(bits, 7) == if byte & 0x01u8 != 0 { 1int } else { 0 });
}

proof fn lemma_or_bit(byte: u8, k: u8, i: u8)
    by (bit_vector)
    requires
        k < 8,
        i < 8,
    ensures
        i != k ==> (((byte | (0x80u8 >> k)) & (0x80u8 >> i)) != 0) == ((byte & (0x80u8 >> i)) != 0),
        ((byte | (0x80u8 >> k)) & (0x80u8 >> k)) != 0,
{
}

/// Setting bit `index` of a byte changes that bit and no other.
pub proof fn lemma_set_bit(byte: u8, index: int)
    requires
        0 <= index < 8,
    ensures
        bit_at(byte | (0x80u8 >> (index as u8)), index),
        forall|i: int| i != index ==> bit_at(byte | (0x80u8 >> (index as u8)), i) == bit_at(byte, i),
{
    let set = byte | (0x80u8 >> (index as u8));
    lemma_or_bit(byte, index as u8, index as u8);
    assert forall|i: int| i != index implies bit_at(set, i) == bit_at(byte, i) by {
        if 0 <= i < 8 {
            lemma_or_bit(byte, index as u8, i as u8);
        }
    }
}

proof fn lemma_zero_and(mask: u8)
    by (bit_vector)
    ensures
        0u8 & mask == 0,
{
}

/// The zero byte has no bit set.
pub proof fn lemma_zero_byte()
    ensures
        clear_from(0, 0),
{
    assert forall|i: int| 0 <= i < 8 implies !bit_at(0u8, i) by {
        lemma_zero_and(0x80u8 >> (i as u8));
    }
}

proof fn lemma_shift_bit(value: u8, i: u8)
    by (bit_vector)
    requires
        i < 4,
    ensures
        (((value >> ((3 - i) as u8)) & 1) != 0) == ((value & (0x80u8 >> ((i + 4) as u8))) != 0),
{
}

/// Bit `index` of a nibble, counted from its most significant bit, is the
/// lowest bit of the value shifted right by `3 - index`.
pub proof fn lemma_nibble_bit(value: u8, index: u8)
    requires
        index < 4,
    ensures
        nibble_bits(value)[index as int] == (((value >> ((3 - index) as u8)) & 1) != 0),
{
    lemma_shift_bit(value, index);
}

proof fn lemma_half_bit(byte: u8, k: u8, i: u8)
    by (bit_vector)
    requires
        k == 0 || k == 4,
        i < 4,
    ensures
        ((((byte >> ((4 - k) as u8)) & 0x0F) & (0x80u8 >> ((i + 4) as u8))) != 0) == ((byte & (0x80u8
            >> ((k + i) as u8))) != 0),
        ((byte >> ((4 - k) as u8)) & 0x0F) < 16,
{
}

/// The half of `byte` that starts at bit `from` (0 or 4), as a nibble,
/// has the four bits of that half.
pub proof fn lemma_half_of_byte(byte: u8, from: u8)
    requires
        from == 0 || from == 4,
    ensures
        ((byte >> ((4 - from) as u8)) & 0x0F) < 16,
        nibble_bits((byte >> ((4 - from) as u8)) & 0x0F) == bits_of_byte(byte, 8).subrange(
            from as int,
            from + 4,
        ),
{
    let half = (byte >> ((4 - from) as u8)) & 0x0F;
    lemma_half_bit(byte, from, 0);
    assert forall|i: int| 0 <= i < 4 implies nibble_bits(half)[i] == bits_of_byte(byte, 8)[from
        + i] by {
        lemma_half_bit(byte, from, i as u8);
    }
    assert(nibble_bits(half) =~= bits_of_byte(byte, 8).subrange(from as int, from + 4));
}

proof fn lemma_nibble_sum(value: u8)
    by (bit_vector)
    requires
        value < 16,
    ensures
        (if value & 0x08u8 != 0 { 128u8 } else { 0 }) + (if value & 0x04u8 != 0 { 64u8 } else { 0 }) + (
        if value & 0x02u8 != 0 { 32u8 } else { 0 }) + (if value & 0x01u8 != 0 { 16u8 } else { 0 }) == 16 * value,
{
}

/// Four bits alone make the byte that holds their nibble in its upper half.
pub proof fn lemma_nibble_value(value: u8)
    requires
        value < 16,
    ensures
        byte_of_bits(nibble_bits(value)) == 16 * value,
        byte_of_bits(nibble_bits(value)) / 16 == value,
{
    lemma_nibble_sum(value);
    lemma_masks();
    let bits = nibble_bits(value);
    assert(bit_term(bits, 0) == if value & 0x08u8 != 0 { 128int } else { 0 });
    assert(bit_term(bits, 1) == if value & 0x04u8 != 0 { 64int } else { 0 });
    assert(bit_term(bits, 2) == if value & 0x02u8 != 0 { 32int } else { 0 });
    assert(bit_term(bits, 3) == if value & 0x01u8 != 0 { 16int } else { 0 });
}

/// Two nibbles side by side in one byte: `high` in the upper half.
pub open spec fn nibble_pair(high: u8, low: u8) -> u8 {
    byte_of_bits(nibble_bits(high) + nibble_bits(low))
}

/// A lone nibble followed by padding makes the byte that it makes beside a
/// nibble of zeros.
pub proof fn lemma_nibble_padding(high: u8)
    ensures
        byte_of_bits(nibble_bits(high)) == nibble_pair(high, 0),
{
    lemma_zero_byte();
    let wide = nibble_bits(high) + nibble_bits(0);
    assert forall|i: int| 0 <= i < 8 implies bit_term(wide, i) == bit_term(nibble_bits(high), i) by {
        if i >= 4 {
            assert(wide[i] == nibble_bits(0)[i - 4]);
        } else {
            assert(wide[i] == nibble_bits(high)[i]);
        }
    }
}

proof fn lemma_low_nibble_sum(value: u8)
    by (bit_vector)
    requires
        value < 16,
    ensures
        (if value & 0x08u8 != 0 { 8u8 } else { 0 }) + (if value & 0x04u8 != 0 { 4u8 } else { 0 }) + (
        if value & 0x02u8 != 0 { 2u8 } else { 0 }) + (if value & 0x01u8 != 0 { 1u8 } else { 0 }) == value,
{
}

/// Two nibbles in one byte: sixteen times the upper one, plus the lower.
#[verifier::rlimit(30)]
pub proof fn lemma_nibble_pair_value(high: u8, low: u8)
    requires
        high < 16,
        low < 16,
    ensures
        nibble_pair(high, low) == 16 * high + low,
        nibble_pair(high, low) / 16 == high,
        nibble_pair(high, low) % 16 == low,
{
    lemma_nibble_sum(high);
    lemma_low_nibble_sum(low);
    lemma_masks();
    let bits = nibble_bits(high) + nibble_bits(low);
    assert(bit_term(bits, 0) == if high & 0x08u8 != 0 { 128int } else { 0 });
    assert(bit_term(bits, 1) == if high & 0x04u8 != 0 { 64int } else { 0 });
    assert(bit_term(bits, 2) == if high & 0x02u8 != 0 { 32int } else { 0 });
    assert(bit_term(bits, 3) == if high & 0x01u8 != 0 { 16int } else { 0 });
    assert(bit_term(bits, 4) == if low & 0x08u8 != 0 { 8int } else { 0 }) by {
        assert(bits[4] == nibble_bits(low)[0]);
    }
    assert(bit_term(bits, 5) == if low & 0x04u8 != 0 { 4int } else { 0 }) by {
        assert(bits[5] == nibble_bits(low)[1]);
    }
    assert(bit_term(bits, 6) == if low & 0x02u8 != 0 { 2int } else { 0 }) by {
        assert(bits[6] == nibble_bits(low)[2]);
    }
    assert(bit_term(bits, 7) == if low & 0x01u8 != 0 { 1int } else { 0 }) by {
        assert(bits[7] == nibble_bits(low)[3]);
    }
}

proof fn lemma_made_of(b0: bool, b1: bool, b2: bool, b3: bool, b4: bool, b5: bool, b6: bool, b7: bool)
    by (bit_vector)
    ensures
        ({
            let sum = (if b0 { 128u8 } else { 0 }) + (if b1 { 64u8 } else { 0 }) + (if b2 { 32u8 } else { 0 })
                + (if b3 { 16u8 } else { 0 }) + (if b4 { 8u8 } else { 0 }) + (if b5 { 4u8 } else { 0 }) + (
            if b6 { 2u8 } else { 0 }) + (if b7 { 1u8 } else { 0 });
            let byte = (if b0 { 128u8 } else { 0 }) | (if b1 { 64u8 } else { 0 }) | (if b2 { 32u8 } else { 0 })
                | (if b3 { 16u8 } else { 0 }) | (if b4 { 8u8 } else { 0 }) | (if b5 { 4u8 } else { 0 }) | (
            if b6 { 2u8 } else { 0 }) | (if b7 { 1u8 } else { 0 });
            &&& sum == byte
            &&& (byte & 0x80u8 != 0) == b0
            &&& (byte & 0x40u8 != 0) == b1
            &&& (byte & 0x20u8 != 0) == b2
            &&& (byte & 0x10u8 != 0) == b3
            &&& (byte & 0x08u8 != 0) == b4
            &&& (byte & 0x04u8 != 0) == b5
            &&& (byte & 0x02u8 != 0) == b6
            &&& (byte & 0x01u8 != 0) == b7
        }),
{
}

/// The byte that eight bits make has these eight bits.
pub proof fn lemma_bits_of_their_byte(bits: Seq<bool>)
    requires
        bits.len() == 8,
    ensures
        bits_of_byte(byte_of_bits(bits), 8) == bits,
{
    lemma_made_of(bits[0], bits[1], bits[2], bits[3], bits[4], bits[5], bits[6], bits[7]);
    lemma_masks();
    let byte = byte_of_bits(bits);
    assert(bit_at(byte, 0) == bits[0]);
    assert(bit_at(byte, 1) == bits[1]);
    assert(bit_at(byte, 2) == bits[2]);
    assert(bit_at(byte, 3) == bits[3]);
    assert(bit_at(byte, 4) == bits[4]);
    assert(bit_at(byte, 5) == bits[5]);
    assert(bit_at(byte, 6) == bits[6]);
    assert(bit_at(byte, 7) == bits[7]);
    assert(bits_of_byte(byte, 8) =~= bits);
}

proof fn lemma_top_bit()
    by (bit_vector)
    ensures
        0x80u8 & (0x80u8 >> 0u8) != 0,
        0x00u8 & (0x80u8 >> 0u8) == 0,
{
}

/// The byte that a lone bit and padding make: `0x80` for a set bit, zero
/// for a clear one.
pub open spec fn flag_byte(flag: bool) -> u8 {
    if flag {
        0x80
    } else {
        0x00
    }
}

/// A lone bit and padding make the flag's byte, whose first bit is the
/// flag.
pub proof fn lemma_flag_byte(flag: bool)
    ensures
        byte_of_bits(seq![flag]) == flag_byte(flag),
        bit_at(flag_byte(flag), 0) == flag,
{
    lemma_top_bit();
}

proof fn lemma_half_arith(byte: u8)
    by (bit_vector)
    ensures
        (byte >> 4u8) & 0x0F == byte / 16,
        (byte >> 0u8) & 0x0F == byte % 16,
{
}

/// The upper four bits of a byte spell `byte / 16`, the lower four
/// `byte % 16`.
pub proof fn lemma_halves(byte: u8)
    ensures
        byte_of_bits(bits_of_byte(byte, 8).subrange(0, 4)) / 16 == byte / 16,
        byte_of_bits(bits_of_byte(byte, 8).subrange(4, 8)) / 16 == byte % 16,
{
    lemma_half_arith(byte);
    lemma_half_of_byte(byte, 0);
    lemma_half_of_byte(byte, 4);
    lemma_nibble_value((byte >> 4u8) & 0x0F);
    lemma_nibble_value((byte >> 0u8) & 0x0F);
}

} // verus!
