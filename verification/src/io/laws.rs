//! What is written is read back: the laws that tie the two halves of the
//! codec together.

use crate::io::bits::{flag_byte, lemma_flag_byte, lemma_nibble_pair_value, nibble_pair};
use crate::io::cube::{CubePos, CubePrecisePos, FloatPos, IntPos};
use crate::io::endian::{be_bytes, be_limit, be_value, lemma_be_limits, lemma_be_round_trip};
use crate::io::flex::FlexPos;
use crate::io::reader::{float_pos_of, int_pos_of, CubeReader, ReaderView};
use crate::util::IoErrorKind;
use crate::io::writer::{
    cube_pos_bytes, cube_precise_pos_bytes, flex_pos_bytes, float_pos_bytes, int_pos_bytes,
    string32_bytes, string_bytes, CubeWriter, WriterView, STRING32_MAX, STRING_MAX,
};
use vstd::prelude::*;

verus! {

/// Bytes written at a byte boundary are the bytes read there, and the reader
/// then stands before what follows them.
pub proof fn lemma_bytes_round_trip(bytes: Seq<u8>, tail: Seq<u8>)
    ensures
        ReaderView::over(bytes + tail).take_bytes(bytes.len()) == Some(
            (bytes, ReaderView::over(tail)),
        ),
{
    assert((bytes + tail).take(bytes.len() as int) =~= bytes);
    assert((bytes + tail).skip(bytes.len() as int) =~= tail);
}

/// An unsigned 16-bit integer survives writing and reading.
pub proof fn lemma_uint16_round_trip(value: u16)
    ensures
        be_bytes(value as nat, 2).len() == 2,
        be_value(be_bytes(value as nat, 2)) as u16 == value,
{
    lemma_be_limits();
    lemma_be_round_trip(value as nat, 2);
}

/// A signed 16-bit integer survives writing and reading.
pub proof fn lemma_int16_round_trip(value: i16)
    ensures
        be_bytes(value as u16 as nat, 2).len() == 2,
        be_value(be_bytes(value as u16 as nat, 2)) as u16 as i16 == value,
{
    lemma_uint16_round_trip(value as u16);
    assert(value as u16 as i16 == value) by (bit_vector);
}

/// An unsigned 32-bit integer survives writing and reading.
pub proof fn lemma_uint32_round_trip(value: u32)
    ensures
        be_bytes(value as nat, 4).len() == 4,
        be_value(be_bytes(value as nat, 4)) as u32 == value,
{
    lemma_be_limits();
    lemma_be_round_trip(value as nat, 4);
}

/// A signed 32-bit integer survives writing and reading.
pub proof fn lemma_int32_round_trip(value: i32)
    ensures
        be_bytes(value as u32 as nat, 4).len() == 4,
        be_value(be_bytes(value as u32 as nat, 4)) as u32 as i32 == value,
{
    lemma_uint32_round_trip(value as u32);
    assert(value as u32 as i32 == value) by (bit_vector);
}

/// An unsigned 64-bit integer survives writing and reading.
pub proof fn lemma_uint64_round_trip(value: u64)
    ensures
        be_bytes(value as nat, 8).len() == 8,
        be_value(be_bytes(value as nat, 8)) as u64 == value,
{
    lemma_be_limits();
    lemma_be_round_trip(value as nat, 8);
}

/// A signed 64-bit integer survives writing and reading.
pub proof fn lemma_int64_round_trip(value: i64)
    ensures
        be_bytes(value as u64 as nat, 8).len() == 8,
        be_value(be_bytes(value as u64 as nat, 8)) as u64 as i64 == value,
{
    lemma_uint64_round_trip(value as u64);
    assert(value as u64 as i64 == value) by (bit_vector);
}

/// An unsigned 128-bit integer survives writing and reading.
pub proof fn lemma_uint128_round_trip(value: u128)
    ensures
        be_bytes(value as nat, 16).len() == 16,
        be_value(be_bytes(value as nat, 16)) as u128 == value,
{
    lemma_be_limits();
    lemma_be_round_trip(value as nat, 16);
}

/// A signed 128-bit integer survives writing and reading.
pub proof fn lemma_int128_round_trip(value: i128)
    ensures
        be_bytes(value as u128 as nat, 16).len() == 16,
        be_value(be_bytes(value as u128 as nat, 16)) as u128 as i128 == value,
{
    lemma_uint128_round_trip(value as u128);
    assert(value as u128 as i128 == value) by (bit_vector);
}

/// A byte survives writing and reading, signed or unsigned.
pub proof fn lemma_int8_round_trip(value: i8)
    ensures
        value as u8 as i8 == value,
{
    assert(value as u8 as i8 == value) by (bit_vector);
}

/// A string that its length prefix can announce survives writing and
/// reading.
pub proof fn lemma_string_round_trip(text: Seq<char>, tail: Seq<u8>)
    requires
        vstd::utf8::encode_utf8(text).len() <= STRING_MAX,
    ensures
        ReaderView::over(string_bytes(text) + tail).take_string() == Ok::<
            (Seq<char>, ReaderView),
            IoErrorKind,
        >((text, ReaderView::over(tail))),
{
    let utf8 = vstd::utf8::encode_utf8(text);
    let prefix = be_bytes(utf8.len(), 2);
    let all = string_bytes(text) + tail;
    lemma_be_limits();
    lemma_be_round_trip(utf8.len(), 2);
    vstd::utf8::encode_utf8_valid_utf8(text);
    vstd::utf8::encode_utf8_decode_utf8(text);
    assert(all.take(2) =~= prefix);
    assert(all.skip(2) =~= utf8 + tail);
    assert((utf8 + tail).take(utf8.len() as int) =~= utf8);
    assert((utf8 + tail).skip(utf8.len() as int) =~= tail);
}

/// The same with a length prefix of four bytes.
pub proof fn lemma_string32_round_trip(text: Seq<char>, tail: Seq<u8>)
    requires
        vstd::utf8::encode_utf8(text).len() <= STRING32_MAX,
    ensures
        ReaderView::over(string32_bytes(text) + tail).take_string32() == Ok::<
            (Seq<char>, ReaderView),
            IoErrorKind,
        >((text, ReaderView::over(tail))),
{
    let utf8 = vstd::utf8::encode_utf8(text);
    let prefix = be_bytes(utf8.len(), 4);
    let all = string32_bytes(text) + tail;
    lemma_be_limits();
    lemma_be_round_trip(utf8.len(), 4);
    vstd::utf8::encode_utf8_valid_utf8(text);
    vstd::utf8::encode_utf8_decode_utf8(text);
    assert(all.take(4) =~= prefix);
    assert(all.skip(4) =~= utf8 + tail);
    assert((utf8 + tail).take(utf8.len() as int) =~= utf8);
    assert((utf8 + tail).skip(utf8.len() as int) =~= tail);
}

/// The twelve bytes of a position spell the position.
pub proof fn lemma_int_pos_of_bytes(pos: IntPos, tail: Seq<u8>)
    ensures
        int_pos_bytes(pos).len() == 12,
        int_pos_of(int_pos_bytes(pos) + tail) == pos,
{
    lemma_int32_round_trip(pos.x);
    lemma_int32_round_trip(pos.y);
    lemma_int32_round_trip(pos.z);
    let all = int_pos_bytes(pos) + tail;
    assert(all.subrange(0, 4) =~= be_bytes(pos.x as u32 as nat, 4));
    assert(all.subrange(4, 8) =~= be_bytes(pos.y as u32 as nat, 4));
    assert(all.subrange(8, 12) =~= be_bytes(pos.z as u32 as nat, 4));
}

/// The twelve bytes of three binary32 numbers spell the three.
pub proof fn lemma_float_pos_of_bytes(pos: FloatPos, tail: Seq<u8>)
    ensures
        float_pos_bytes(pos).len() == 12,
        float_pos_of(float_pos_bytes(pos) + tail) == pos,
{
    lemma_uint32_round_trip(pos.x);
    lemma_uint32_round_trip(pos.y);
    lemma_uint32_round_trip(pos.z);
    let all = float_pos_bytes(pos) + tail;
    assert(all.subrange(0, 4) =~= be_bytes(pos.x as nat, 4));
    assert(all.subrange(4, 8) =~= be_bytes(pos.y as nat, 4));
    assert(all.subrange(8, 12) =~= be_bytes(pos.z as nat, 4));
}

/// A position of integers survives writing and reading.
pub proof fn lemma_int_pos_round_trip(pos: IntPos, tail: Seq<u8>)
    ensures
        ReaderView::over(int_pos_bytes(pos) + tail).take_int_pos() == Some(
            (pos, ReaderView::over(tail)),
        ),
{
    let bytes = int_pos_bytes(pos);
    lemma_int_pos_of_bytes(pos, Seq::empty());
    lemma_bytes_round_trip(bytes, tail);
    assert(bytes + Seq::<u8>::empty() =~= bytes);
}

/// A position of binary32 numbers survives writing and reading.
pub proof fn lemma_float_pos_round_trip(pos: FloatPos, tail: Seq<u8>)
    ensures
        ReaderView::over(float_pos_bytes(pos) + tail).take_float_pos() == Some(
            (pos, ReaderView::over(tail)),
        ),
{
    let bytes = float_pos_bytes(pos);
    lemma_float_pos_of_bytes(pos, Seq::empty());
    lemma_bytes_round_trip(bytes, tail);
    assert(bytes + Seq::<u8>::empty() =~= bytes);
}

/// A cube's position survives writing and reading, where each local
/// coordinate fits in its nibble.
pub proof fn lemma_cube_pos_round_trip(pos: CubePos, tail: Seq<u8>)
    requires
        pos.in_range(),
    ensures
        ReaderView::over(cube_pos_bytes(pos) + tail).take_cube_pos() == Some(
            (pos, ReaderView::over(tail)),
        ),
{
    let bytes = cube_pos_bytes(pos);
    let halves = seq![nibble_pair(pos.local_x, pos.local_y), nibble_pair(pos.local_z, 0)];
    lemma_int_pos_of_bytes(pos.batch, halves);
    lemma_bytes_round_trip(bytes, tail);
    lemma_nibble_pair_value(pos.local_x, pos.local_y);
    lemma_nibble_pair_value(pos.local_z, 0);
}

/// A point on a cube's face survives writing and reading, where the local
/// coordinates and the face each fit in a nibble.
pub proof fn lemma_cube_precise_pos_round_trip(pos: CubePrecisePos, tail: Seq<u8>)
    requires
        pos.in_range(),
    ensures
        ReaderView::over(cube_precise_pos_bytes(pos) + tail).take_cube_precise_pos() == Some(
            (pos, ReaderView::over(tail)),
        ),
{
    let bytes = cube_precise_pos_bytes(pos);
    let after = seq![
        nibble_pair(pos.cube.local_x, pos.cube.local_y),
        nibble_pair(pos.cube.local_z, pos.face),
    ] + be_bytes(pos.precise_x as nat, 4) + be_bytes(pos.precise_y as nat, 4);
    lemma_int_pos_of_bytes(pos.cube.batch, after);
    assert(bytes =~= int_pos_bytes(pos.cube.batch) + after);
    lemma_bytes_round_trip(bytes, tail);
    lemma_nibble_pair_value(pos.cube.local_x, pos.cube.local_y);
    lemma_nibble_pair_value(pos.cube.local_z, pos.face);
    lemma_uint32_round_trip(pos.precise_x);
    lemma_uint32_round_trip(pos.precise_y);
    assert(bytes.subrange(14, 18) =~= be_bytes(pos.precise_x as nat, 4));
    assert(bytes.subrange(18, 22) =~= be_bytes(pos.precise_y as nat, 4));
}

/// A free position survives writing and reading.
pub proof fn lemma_flex_pos_round_trip(pos: FlexPos, tail: Seq<u8>)
    ensures
        ReaderView::over(flex_pos_bytes(pos) + tail).take_flex_pos() == Some(
            (pos, ReaderView::over(tail)),
        ),
{
    let bytes = flex_pos_bytes(pos);
    let after = float_pos_bytes(pos.local) + be_bytes(pos.yaw as nat, 4) + be_bytes(
        pos.pitch as nat,
        4,
    );
    lemma_int_pos_of_bytes(pos.batch, after);
    assert(bytes =~= int_pos_bytes(pos.batch) + after);
    lemma_float_pos_of_bytes(
        pos.local,
        be_bytes(pos.yaw as nat, 4) + be_bytes(pos.pitch as nat, 4),
    );
    assert(bytes.subrange(12, 24) =~= float_pos_bytes(pos.local));
    assert(float_pos_bytes(pos.local) + Seq::<u8>::empty() =~= float_pos_bytes(pos.local));
    lemma_float_pos_of_bytes(pos.local, Seq::empty());
    lemma_bytes_round_trip(bytes, tail);
    lemma_uint32_round_trip(pos.yaw);
    lemma_uint32_round_trip(pos.pitch);
    assert(bytes.subrange(24, 28) =~= be_bytes(pos.yaw as nat, 4));
    assert(bytes.subrange(28, 32) =~= be_bytes(pos.pitch as nat, 4));
}

/// Padding changes nothing at a byte boundary, and padding twice is padding
/// once.
pub proof fn lemma_pad_idempotent(view: WriterView)
    ensures
        view.aligned() ==> view.pad() == view,
        view.pad().aligned(),
        view.pad().pad() == view.pad(),
{
}

/// After padding, whole bytes start a fresh byte: they stand behind the
/// byte that the padding completed.
pub proof fn lemma_fresh_byte_after_pad(view: WriterView, bytes: Seq<u8>)
    requires
        0 < view.pending.len() < 8,
    ensures
        view.pad().aligned(),
        view.pad().push_bytes(bytes).bytes == view.bytes.push(
            crate::io::bits::byte_of_bits(view.pending),
        ) + bytes,
{
}

/// Skipping changes nothing at a byte boundary, and skipping twice is
/// skipping once.
pub proof fn lemma_skip_idempotent(view: ReaderView)
    ensures
        view.aligned() ==> view.skip() == view,
        view.skip().aligned(),
        view.skip().skip() == view.skip(),
{
    if view.aligned() {
        assert(view.pending =~= Seq::empty());
    }
}

/// A bit or a nibble written at a byte boundary leaves the writer off the
/// boundary, where no byte-aligned primitive may be called.
pub proof fn lemma_bits_misalign(view: WriterView, bit: bool, nibble: Seq<bool>)
    requires
        view.aligned(),
        nibble.len() == 4,
    ensures
        !view.push_bit(bit).aligned(),
        !view.push_bits(nibble).aligned(),
{
    crate::io::writer::lemma_push_bits_pending(view, nibble);
}

/// A bit read at a byte boundary leaves the reader off the boundary, where
/// no byte-aligned primitive may be called; so does a nibble.
pub proof fn lemma_reads_misalign(view: ReaderView)
    requires
        view.aligned(),
        view.rest.len() > 0,
    ensures
        view.take_bit() matches Some((_, after)) && !after.aligned(),
        view.take_nibble() matches Some((_, after)) && !after.aligned(),
{
    crate::io::reader::lemma_take_nibble_high(view);
}

/// However many bits are written, those that fill no byte are pending.
pub proof fn lemma_pending_count(view: WriterView, bits: Seq<bool>)
    requires
        view.pending.len() < 8,
    ensures
        view.push_bits(bits).pending.len() == (view.pending.len() + bits.len()) % 8,
    decreases bits.len(),
{
    if bits.len() > 0 {
        lemma_pending_count(view, bits.drop_last());
    }
}

/// However many bits are read, the reader then holds what is left of the
/// byte that the last of them came from.
pub proof fn lemma_unread_count(view: ReaderView, count: nat)
    requires
        view.pending.len() < 8,
        view.take_bits(count) is Some,
    ensures
        view.take_bits(count)->Some_0.1.pending.len() < 8,
        (view.take_bits(count)->Some_0.1.pending.len() + count) % 8 == view.pending.len(),
    decreases count,
{
    if count > 0 {
        let next = view.take_bit()->Some_0.1;
        lemma_unread_count(next, (count - 1) as nat);
    }
}

/// A writer stands at a byte boundary after bits were written exactly
/// where they filled the byte that was open, or the bytes after it, to the
/// end. So a bit, or a nibble, written at a byte boundary leaves a writer of
/// which nothing that needs a byte boundary may be asked before
/// `write_nop` has padded the byte.
pub proof fn lemma_writer_boundary(before: CubeWriter, after: CubeWriter, bits: Seq<bool>)
    requires
        before.wf(),
        after.wf(),
        after@ == before@.push_bits(bits),
    ensures
        after.aligned() <==> (before.bit_offset() + bits.len()) % 8 == 0,
        before.aligned() && (bits.len() == 1 || bits.len() == 4) ==> !after.aligned(),
{
    lemma_pending_count(before@, bits);
}

/// A reader stands at a byte boundary after bits were read exactly where
/// the last of them was the last of its byte. So a bit, or a nibble, read
/// at a byte boundary leaves a reader of which nothing that needs a byte
/// boundary may be asked before `read_nop` has skipped the rest of the
/// byte.
pub proof fn lemma_reader_boundary(before: CubeReader, after: CubeReader, count: nat)
    requires
        before.wf(),
        after.wf(),
        before@.take_bits(count) matches Some((_, next)) && after@ == next,
    ensures
        after.aligned() <==> (before.bit_offset() + count) % 8 == 0,
        before.aligned() && (count == 1 || count == 4) ==> !after.aligned(),
{
    lemma_unread_count(before@, count);
}

/// A bit written at a byte boundary and padded is one byte, the flag's.
pub proof fn lemma_flag_written(view: WriterView, flag: bool)
    requires
        view.aligned(),
    ensures
        view.push_bit(flag).pad() == view.push_bytes(seq![flag_byte(flag)]),
{
    lemma_flag_byte(flag);
    assert(view.pending =~= Seq::empty());
    assert(view.pending.push(flag) =~= seq![flag]);
    assert(view.bytes.push(flag_byte(flag)) =~= view.bytes + seq![flag_byte(flag)]);
}

/// The flag's byte is read back as the flag, and after skipping the rest
/// of the byte the reader stands behind it.
pub proof fn lemma_flag_read(flag: bool, tail: Seq<u8>)
    ensures
        ReaderView::over(seq![flag_byte(flag)] + tail).take_bit() matches Some((read, after))
            && read == flag && after.skip() == ReaderView::over(tail),
{
    lemma_flag_byte(flag);
    assert((seq![flag_byte(flag)] + tail).drop_first() =~= tail);
}

/// A single bit survives writing, padding and reading.
pub proof fn lemma_bit_round_trip(view: WriterView, flag: bool, tail: Seq<u8>)
    requires
        view.aligned(),
    ensures
        view.push_bit(flag).pad().bytes == view.bytes + seq![flag_byte(flag)],
        ReaderView::over(seq![flag_byte(flag)] + tail).take_bit() matches Some((read, _)) && read
            == flag,
{
    lemma_flag_written(view, flag);
    lemma_flag_read(flag, tail);
}

/// An optional value survives: a flag, padding, and where the flag is set
/// the bytes of the value, are read back as the flag with the reader before
/// the value.
pub proof fn lemma_optional_round_trip(view: WriterView, inner: Option<Seq<u8>>, tail: Seq<u8>)
    requires
        view.aligned(),
    ensures
        ({
            let held = match inner {
                Some(bytes) => bytes,
                None => Seq::empty(),
            };
            let written = view.push_bit(inner is Some).pad().push_bytes(held);
            &&& written == view.push_bytes(seq![flag_byte(inner is Some)] + held)
            &&& ReaderView::over(seq![flag_byte(inner is Some)] + held + tail).take_bit() matches Some(
                (read, after),
            ) && read == (inner is Some) && after.skip() == ReaderView::over(held + tail)
        }),
{
    let held = match inner {
        Some(bytes) => bytes,
        None => Seq::empty(),
    };
    let flag = inner is Some;
    lemma_flag_written(view, flag);
    lemma_flag_read(flag, held + tail);
    assert(seq![flag_byte(flag)] + held + tail =~= seq![flag_byte(flag)] + (held + tail));
    assert(view.bytes + seq![flag_byte(flag)] + held =~= view.bytes + (seq![flag_byte(flag)]
        + held));
}

/// A nibble written at a byte boundary and padded survives reading.
pub proof fn lemma_nibble_round_trip(view: WriterView, nibble: u8, tail: Seq<u8>)
    requires
        view.aligned(),
        nibble < 16,
    ensures
        view.push_bits(crate::io::bits::nibble_bits(nibble)).pad() == view.push_bytes(
            seq![nibble_pair(nibble, 0)],
        ),
        ReaderView::over(seq![nibble_pair(nibble, 0)] + tail).take_nibble() matches Some(
            (read, after),
        ) && read == nibble && after.skip() == ReaderView::over(tail),
{
    let bits = crate::io::bits::nibble_bits(nibble);
    assert(view.pending =~= Seq::empty());
    crate::io::writer::lemma_push_bits_pending(view, bits);
    crate::io::bits::lemma_nibble_padding(nibble);
    assert(view.pending + bits =~= bits);
    assert(view.bytes.push(nibble_pair(nibble, 0)) =~= view.bytes + seq![nibble_pair(nibble, 0)]);
    let reader = ReaderView::over(seq![nibble_pair(nibble, 0)] + tail);
    crate::io::reader::lemma_take_nibble_high(reader);
    lemma_nibble_pair_value(nibble, 0);
    assert(reader.rest.drop_first() =~= tail);
}

/// Eight bits written at a byte boundary make one byte, the first bit its
/// most significant; and the bits of that byte, read back, are the eight in
/// their order.
pub proof fn lemma_eight_bits_round_trip(view: WriterView, bits: Seq<bool>, tail: Seq<u8>)
    requires
        view.aligned(),
        bits.len() == 8,
    ensures
        view.push_bits(bits) == view.push_bytes(seq![crate::io::bits::byte_of_bits(bits)]),
        ReaderView::over(seq![crate::io::bits::byte_of_bits(bits)] + tail).take_bits(8) == Some(
            (bits, ReaderView::over(tail)),
        ),
{
    let byte = crate::io::bits::byte_of_bits(bits);
    assert(view.pending =~= Seq::empty());
    crate::io::writer::lemma_push_bits_complete(view, bits);
    assert(view.pending + bits =~= bits);
    assert(view.bytes.push(byte) =~= view.bytes + seq![byte]);
    let reader = ReaderView::over(seq![byte] + tail);
    crate::io::reader::lemma_take_bits_open(reader, 8);
    crate::io::bits::lemma_bits_of_their_byte(bits);
    assert(bits.take(8) =~= bits);
    assert(bits.skip(8) =~= Seq::empty());
    assert(reader.rest.drop_first() =~= tail);
}

} // verus!
