//! Big-endian byte strings and the integers they stand for.

use byteorder::{BigEndian, ByteOrder};
use vstd::prelude::*;

verus! {

/// The big-endian encoding of `value` in `width` bytes: the most significant
/// byte first, the value taken modulo `256^width`.
pub open spec fn be_bytes(value: nat, width: nat) -> Seq<u8>
    decreases width,
{
    if width == 0 {
        Seq::empty()
    } else {
        be_bytes(value / 256, (width - 1) as nat).push((value % 256) as u8)
    }
}

/// The number that `bytes` spells when read most significant byte first.
pub open spec fn be_value(bytes: Seq<u8>) -> nat
    decreases bytes.len(),
{
    if bytes.len() == 0 {
        0
    } else {
        be_value(bytes.drop_last()) * 256 + bytes.last() as nat
    }
}

/// `256^width`: one more than the largest value that fits in `width` bytes.
pub open spec fn be_limit(width: nat) -> nat
    decreases width,
{
    if width == 0 {
        1
    } else {
        256 * be_limit((width - 1) as nat)
    }
}

/// An encoding in `width` bytes has `width` bytes.
pub proof fn lemma_be_bytes_len(value: nat, width: nat)
    ensures
        be_bytes(value, width).len() == width,
    decreases width,
{
    if width > 0 {
        lemma_be_bytes_len(value / 256, (width - 1) as nat);
    }
}

/// Decoding an encoding gives the value back, reduced to the width.
pub proof fn lemma_be_value_of_bytes(value: nat, width: nat)
    ensures
        be_value(be_bytes(value, width)) == value % be_limit(width),
    decreases width,
{
    if width == 0 {
    } else {
        let rest = be_bytes(value / 256, (width - 1) as nat);
        let all = be_bytes(value, width);
        lemma_be_value_of_bytes(value / 256, (width - 1) as nat);
        assert(all.drop_last() =~= rest);
        let m = be_limit((width - 1) as nat);
        assert(m > 0) by {
            lemma_be_limit_positive((width - 1) as nat);
        }
        vstd::arithmetic::div_mod::lemma_breakdown(value as int, 256, m as int);
    }
}

/// The limit of every width is positive.
pub proof fn lemma_be_limit_positive(width: nat)
    ensures
        be_limit(width) > 0,
    decreases width,
{
    if width > 0 {
        lemma_be_limit_positive((width - 1) as nat);
    }
}

/// The limits of the widths in use.
pub proof fn lemma_be_limits()
    ensures
        be_limit(1) == 0x100,
        be_limit(2) == 0x1_0000,
        be_limit(4) == 0x1_0000_0000,
        be_limit(8) == 0x1_0000_0000_0000_0000,
        be_limit(16) == 0x1_0000_0000_0000_0000_0000_0000_0000_0000,
{
    reveal_with_fuel(be_limit, 17);
}

/// A value that fits the width survives encoding and decoding.
pub proof fn lemma_be_round_trip(value: nat, width: nat)
    requires
        value < be_limit(width),
    ensures
        be_value(be_bytes(value, width)) == value,
        be_bytes(value, width).len() == width,
{
    lemma_be_value_of_bytes(value, width);
    lemma_be_bytes_len(value, width);
    vstd::arithmetic::div_mod::lemma_small_mod(value, be_limit(width));
}

/// Encoding what a byte string spells gives the byte string back.
pub proof fn lemma_be_bytes_of_value(bytes: Seq<u8>)
    ensures
        be_bytes(be_value(bytes), bytes.len()) == bytes,
        be_value(bytes) < be_limit(bytes.len()),
    decreases bytes.len(),
{
    if bytes.len() == 0 {
        assert(be_bytes(0, 0) =~= bytes);
    } else {
        let front = bytes.drop_last();
        lemma_be_bytes_of_value(front);
        let v = be_value(bytes);
        assert(v / 256 == be_value(front));
        assert(v % 256 == bytes.last() as nat);
        assert(be_bytes(v, bytes.len()) =~= bytes);
    }
}

/// The two bytes of `value`, most significant first, as
/// `byteorder::BigEndian::write_u16` lays them out.
#[verifier::external_body]
pub(crate) fn u16_to_be(value: u16) -> (out: [u8; 2])
    ensures
        out@ == be_bytes(value as nat, 2),
{
    let mut out = [0u8; 2];
    BigEndian::write_u16(&mut out, value);
    out
}

/// The number that the first two bytes of `bytes` spell, as
/// `byteorder::BigEndian::read_u16` reads them.
#[verifier::external_body]
pub(crate) fn u16_from_be(bytes: &[u8]) -> (value: u16)
    requires
        bytes@.len() >= 2,
    ensures
        value as nat == be_value(bytes@.subrange(0, 2)),
{
    BigEndian::read_u16(bytes)
}

/// The four bytes of `value`, most significant first, as
/// `byteorder::BigEndian::write_u32` lays them out.
#[verifier::external_body]
pub(crate) fn u32_to_be(value: u32) -> (out: [u8; 4])
    ensures
        out@ == be_bytes(value as nat, 4),
{
    let mut out = [0u8; 4];
    BigEndian::write_u32(&mut out, value);
    out
}

/// The number that the first four bytes of `bytes` spell, as
/// `byteorder::BigEndian::read_u32` reads them.
#[verifier::external_body]
pub(crate) fn u32_from_be(bytes: &[u8]) -> (value: u32)
    requires
        bytes@.len() >= 4,
    ensures
        value as nat == be_value(bytes@.subrange(0, 4)),
{
    BigEndian::read_u32(bytes)
}

/// The eight bytes of `value`, most significant first, as
/// `byteorder::BigEndian::write_u64` lays them out.
#[verifier::external_body]
pub(crate) fn u64_to_be(value: u64) -> (out: [u8; 8])
    ensures
        out@ == be_bytes(value as nat, 8),
{
    let mut out = [0u8; 8];
    BigEndian::write_u64(&mut out, value);
    out
}

/// The number that the first eight bytes of `bytes` spell, as
/// `byteorder::BigEndian::read_u64` reads them.
#[verifier::external_body]
pub(crate) fn u64_from_be(bytes: &[u8]) -> (value: u64)
    requires
        bytes@.len() >= 8,
    ensures
        value as nat == be_value(bytes@.subrange(0, 8)),
{
    BigEndian::read_u64(bytes)
}

/// The sixteen bytes of `value`, most significant first, as
/// `byteorder::BigEndian::write_u128` lays them out.
#[verifier::external_body]
pub(crate) fn u128_to_be(value: u128) -> (out: [u8; 16])
    ensures
        out@ == be_bytes(value as nat, 16),
{
    let mut out = [0u8; 16];
    BigEndian::write_u128(&mut out, value);
    out
}

/// The number that the first sixteen bytes of `bytes` spell, as
/// `byteorder::BigEndian::read_u128` reads them.
#[verifier::external_body]
pub(crate) fn u128_from_be(bytes: &[u8]) -> (value: u128)
    requires
        bytes@.len() >= 16,
    ensures
        value as nat == be_value(bytes@.subrange(0, 16)),
{
    BigEndian::read_u128(bytes)
}

} // verus!
