//! The writing half of the codec.

use crate::io::bits::{
    bit_at, bits_of_byte, byte_of_bits, clear_from, lemma_byte_of_its_bits, lemma_nibble_bit,
    lemma_nibble_padding, lemma_set_bit, lemma_zero_byte, nibble_bits, nibble_pair,
};
use crate::io::cube::{CubePos, CubePrecisePos, Float32, Float64, FloatPos, IntPos};
use crate::io::flex::FlexPos;
use crate::io::endian::{be_bytes, u128_to_be, u16_to_be, u32_to_be, u64_to_be};
use crate::util::{io_error, IoErrorKind, VioResult};
use vstd::prelude::*;
use vstd::string::StringSliceAdditionalSpecFns;

verus! {

/// The longest string that a 16-bit length prefix can announce.
pub const STRING_MAX: usize = 0xFFFF;

/// The longest string that a 32-bit length prefix can announce.
pub const STRING32_MAX: usize = 0xFFFF_FFFF;

/// A string on the wire: the length of its UTF-8 form in two bytes, then
/// that form.
pub open spec fn string_bytes(text: Seq<char>) -> Seq<u8> {
    let utf8 = vstd::utf8::encode_utf8(text);
    be_bytes(utf8.len(), 2) + utf8
}

/// A string on the wire with a length of four bytes.
pub open spec fn string32_bytes(text: Seq<char>) -> Seq<u8> {
    let utf8 = vstd::utf8::encode_utf8(text);
    be_bytes(utf8.len(), 4) + utf8
}

/// Three signed 32-bit integers: x, y, z.
pub open spec fn int_pos_bytes(pos: IntPos) -> Seq<u8> {
    be_bytes(pos.x as u32 as nat, 4) + be_bytes(pos.y as u32 as nat, 4) + be_bytes(
        pos.z as u32 as nat,
        4,
    )
}

/// Three binary32 numbers: x, y, z.
pub open spec fn float_pos_bytes(pos: FloatPos) -> Seq<u8> {
    be_bytes(pos.x as nat, 4) + be_bytes(pos.y as nat, 4) + be_bytes(pos.z as nat, 4)
}

/// A cube: its batch, then its three local nibbles and a nibble of zeros.
pub open spec fn cube_pos_bytes(pos: CubePos) -> Seq<u8> {
    int_pos_bytes(pos.batch) + seq![
        nibble_pair(pos.local_x, pos.local_y),
        nibble_pair(pos.local_z, 0),
    ]
}

/// A point on a cube's face: the batch, the three local nibbles and the
/// face's nibble, then the two coordinates on the face.
pub open spec fn cube_precise_pos_bytes(pos: CubePrecisePos) -> Seq<u8> {
    int_pos_bytes(pos.cube.batch) + seq![
        nibble_pair(pos.cube.local_x, pos.cube.local_y),
        nibble_pair(pos.cube.local_z, pos.face),
    ] + be_bytes(pos.precise_x as nat, 4) + be_bytes(pos.precise_y as nat, 4)
}

/// A batch, a place within it, yaw and pitch.
pub open spec fn flex_pos_bytes(pos: FlexPos) -> Seq<u8> {
    int_pos_bytes(pos.batch) + float_pos_bytes(pos.local) + be_bytes(pos.yaw as nat, 4) + be_bytes(
        pos.pitch as nat,
        4,
    )
}

/// How many bytes the UTF-8 form of `value` takes.
pub fn utf8_len(value: &str) -> (len: usize)
    ensures
        len == vstd::utf8::encode_utf8(value@).len(),
{
    value.as_bytes().len()
}

/// Appends `bytes` to `target`.
fn append(target: &mut Vec<u8>, bytes: &[u8])
    ensures
        final(target)@ == old(target)@ + bytes@,
{
    let mut i: usize = 0;
    while i < bytes.len()
        invariant
            i <= bytes.len(),
            target@ == old(target)@ + bytes@.take(i as int),
        decreases bytes.len() - i,
    {
        target.push(bytes[i]);
        assert(bytes@.take(i + 1) =~= bytes@.take(i as int).push(bytes@[i as int]));
        i += 1;
    }
    assert(bytes@.take(i as int) =~= bytes@);
}

/// What a writer has produced: the bytes that are complete, and the bits of
/// the byte that is being filled, most significant first.
pub struct WriterView {
    pub bytes: Seq<u8>,
    pub pending: Seq<bool>,
}

impl WriterView {
    /// Whether the next bit starts a byte.
    pub open spec fn aligned(self) -> bool {
        self.pending.len() == 0
    }

    /// One more bit; the eighth completes the byte.
    pub open spec fn push_bit(self, bit: bool) -> WriterView {
        let pending = self.pending.push(bit);
        if pending.len() >= 8 {
            WriterView { bytes: self.bytes.push(byte_of_bits(pending)), pending: Seq::empty() }
        } else {
            WriterView { bytes: self.bytes, pending }
        }
    }

    /// The bits of `bits`, one after the other.
    pub open spec fn push_bits(self, bits: Seq<bool>) -> WriterView
        decreases bits.len(),
    {
        if bits.len() == 0 {
            self
        } else {
            self.push_bits(bits.drop_last()).push_bit(bits.last())
        }
    }

    /// The byte being filled is completed with zero bits; nothing happens at
    /// a byte boundary.
    pub open spec fn pad(self) -> WriterView {
        if self.pending.len() == 0 {
            self
        } else {
            WriterView { bytes: self.bytes.push(byte_of_bits(self.pending)), pending: Seq::empty() }
        }
    }

    /// Whole bytes, written at a byte boundary.
    pub open spec fn push_bytes(self, bytes: Seq<u8>) -> WriterView {
        WriterView { bytes: self.bytes + bytes, pending: self.pending }
    }

    /// Whether this is `before` with more written: the complete bytes of
    /// `before` stand first among those of this.
    pub open spec fn extends(self, before: WriterView) -> bool {
        before.bytes.len() <= self.bytes.len() && self.bytes.take(before.bytes.len() as int)
            == before.bytes
    }
}

/// Writing takes no complete byte back: after a bit, after padding and
/// after whole bytes, the bytes that were complete still stand first.
pub proof fn lemma_writing_extends(view: WriterView, bit: bool, bytes: Seq<u8>)
    ensures
        view.extends(view),
        view.push_bit(bit).extends(view),
        view.pad().extends(view),
        view.push_bytes(bytes).extends(view),
{
    assert(view.bytes.take(view.bytes.len() as int) =~= view.bytes);
    assert(view.bytes.push(byte_of_bits(view.pending.push(bit))).take(view.bytes.len() as int)
        =~= view.bytes);
    assert(view.bytes.push(byte_of_bits(view.pending)).take(view.bytes.len() as int)
        =~= view.bytes);
    assert((view.bytes + bytes).take(view.bytes.len() as int) =~= view.bytes);
}

/// A nibble written at the start or in the middle of a byte takes no
/// complete byte back.
pub proof fn lemma_nibble_extends(view: WriterView, nibble: Seq<bool>)
    requires
        nibble.len() == 4,
        view.pending.len() == 0 || view.pending.len() == 4,
    ensures
        view.push_bits(nibble).extends(view),
{
    assert(view.bytes.take(view.bytes.len() as int) =~= view.bytes);
    if view.pending.len() == 0 {
        lemma_push_bits_pending(view, nibble);
    } else {
        lemma_push_bits_complete(view, nibble);
        assert(view.bytes.push(byte_of_bits(view.pending + nibble)).take(
            view.bytes.len() as int,
        ) =~= view.bytes);
    }
}

/// What extends an extension extends what that extended.
pub proof fn lemma_extends_further(first: WriterView, second: WriterView, third: WriterView)
    requires
        second.extends(first),
        third.extends(second),
    ensures
        third.extends(first),
{
    assert(third.bytes.take(first.bytes.len() as int) =~= third.bytes.take(
        second.bytes.len() as int,
    ).take(first.bytes.len() as int));
}

/// Bits that do not complete the byte being filled stay pending.
pub proof fn lemma_push_bits_pending(view: WriterView, bits: Seq<bool>)
    requires
        view.pending.len() + bits.len() < 8,
    ensures
        view.push_bits(bits) == (WriterView {
            bytes: view.bytes,
            pending: view.pending + bits,
        }),
    decreases bits.len(),
{
    if bits.len() == 0 {
        assert(view.pending + bits =~= view.pending);
    } else {
        lemma_push_bits_pending(view, bits.drop_last());
        assert((view.pending + bits.drop_last()).push(bits.last()) =~= view.pending + bits);
    }
}

/// Bits that complete the byte being filled write it out.
pub proof fn lemma_push_bits_complete(view: WriterView, bits: Seq<bool>)
    requires
        bits.len() > 0,
        view.pending.len() + bits.len() == 8,
    ensures
        view.push_bits(bits) == (WriterView {
            bytes: view.bytes.push(byte_of_bits(view.pending + bits)),
            pending: Seq::empty(),
        }),
{
    lemma_push_bits_pending(view, bits.drop_last());
    assert((view.pending + bits.drop_last()).push(bits.last()) =~= view.pending + bits);
}

/// A place in the output of a writer, to come back to.
#[derive(Debug, Clone, Copy, PartialEq, Eq, Structural)]
pub struct WriterMark {
    pub length: usize,
    pub current_bit: u8,
    pub current_byte: u8,
}

/// Writes bits, nibbles and byte-aligned values to `target`.
///
/// `current_bit` counts the bits of `current_byte` that are written; a byte
/// goes to `target` when it is complete.
pub struct CubeWriter {
    pub current_byte: u8,
    pub current_bit: u8,
    pub target: Vec<u8>,
}

impl CubeWriter {
    /// How many bits of the current byte are written.
    pub open spec fn bit_offset(&self) -> int {
        self.current_bit as int
    }

    /// The byte being filled, its unwritten bits zero.
    pub open spec fn partial(&self) -> u8 {
        self.current_byte
    }

    /// The invariant of a writer: the offset is within a byte, and no bit
    /// beyond it is set.
    pub open spec fn wf(&self) -> bool {
        &&& 0 <= self.bit_offset() < 8
        &&& clear_from(self.partial(), self.bit_offset())
    }

    /// What the writer has produced.
    pub open spec fn view(&self) -> WriterView {
        WriterView {
            bytes: self.target@,
            pending: bits_of_byte(self.partial(), self.bit_offset()),
        }
    }

    /// Whether the writer stands at a byte boundary.
    pub open spec fn aligned(&self) -> bool {
        self.bit_offset() == 0
    }

    /// Creates a new CubeWriter
    pub fn new(target: Vec<u8>) -> (w: CubeWriter)
        ensures
            w.wf(),
            w.aligned(),
            w.target == target,
            w@ == (WriterView { bytes: target@, pending: Seq::empty() }),
    {
        proof {
            lemma_zero_byte();
        }
        let w = CubeWriter { current_bit: 0, current_byte: 0, target };
        assert(w@.pending =~= Seq::empty());
        w
    }

    /// The place where the writer stands.
    pub fn mark(&self) -> (mark: WriterMark)
        ensures
            mark.length == self.target@.len(),
            mark.current_bit == self.current_bit,
            mark.current_byte == self.current_byte,
    {
        WriterMark {
            length: self.target.len(),
            current_bit: self.current_bit,
            current_byte: self.current_byte,
        }
    }

    /// Takes back what was written since `mark` was taken.
    pub fn rewind(&mut self, mark: WriterMark)
        requires
            mark.length <= old(self).target@.len(),
        ensures
            final(self).target@ == old(self).target@.take(mark.length as int),
            final(self).current_bit == mark.current_bit,
            final(self).current_byte == mark.current_byte,
    {
        self.target.truncate(mark.length);
        self.current_bit = mark.current_bit;
        self.current_byte = mark.current_byte;
        assert(self.target@ =~= old(self).target@.take(mark.length as int));
    }

    /// If the current byte is incomplete, fill it with zeros
    pub fn write_nop(&mut self) -> (r: VioResult)
        requires
            old(self).wf(),
        ensures
            r is Ok,
            final(self).wf(),
            final(self).aligned(),
            final(self)@ == old(self)@.pad(),
            old(self).aligned() ==> *final(self) == *old(self),
    {
        if self.current_bit > 0 {
            proof {
                lemma_byte_of_its_bits(self.current_byte, self.current_bit as int);
                lemma_zero_byte();
            }
            self.target.push(self.current_byte);
            self.current_bit = 0;
            self.current_byte = 0;
        }
        assert(self@.pending =~= Seq::empty());
        Ok(())
    }

    /// Whether the writer stands at a byte boundary, where whole bytes may
    /// be written.
    pub fn is_complete_byte(&self) -> (b: bool)
        ensures
            b == self.aligned(),
    {
        self.current_bit == 0
    }

    /// Writes a boolean to the target as a bit.
    /// Call `write_nop()` to skip the remaining bits of the byte
    /// before calling a nibble/full-byte write function.
    pub fn write_bit(&mut self, value: bool) -> (r: VioResult)
        requires
            old(self).wf(),
        ensures
            r is Ok,
            final(self).wf(),
            final(self)@ == old(self)@.push_bit(value),
            final(self).bit_offset() == (old(self).bit_offset() + 1) % 8,
            old(self).aligned() ==> !final(self).aligned(),
    {
        let ghost before = self.current_byte;
        let ghost offset = self.current_bit as int;
        if value {
            self.current_byte = self.current_byte | (0x80u8 >> self.current_bit);
            proof {
                assert(offset as u8 == self.current_bit);
                lemma_set_bit(before, offset);
            }
        }
        let ghost filled = self.current_byte;
        self.current_bit = self.current_bit + 1;
        assert(bit_at(filled, offset) == value);
        assert forall|i: int| i != offset implies bit_at(filled, i) == bit_at(before, i) by {}
        assert(clear_from(filled, offset + 1));
        assert(bits_of_byte(filled, offset + 1) =~= bits_of_byte(before, offset).push(value));
        if self.current_bit >= 8 {
            proof {
                lemma_byte_of_its_bits(filled, 8);
                lemma_zero_byte();
            }
            self.target.push(self.current_byte);
            self.current_bit = 0;
            self.current_byte = 0;
            assert(self@.pending =~= Seq::empty());
        }
        Ok(())
    }

    /// Whatever is written in whole bytes may be asked of a writer only at
    /// a byte boundary, and this holds the caller to it: behind a bit or a
    /// nibble that left a byte open, nothing meets what it requires until
    /// `write_nop` has padded the byte.
    pub fn ensure_complete_byte(&self)
        requires
            self.aligned(),
    {
    }

    /// Writes a nibble to the target.
    /// Only permitted when the bit pointer is at offset `0` or `4`.
    pub fn write_nibble(&mut self, value: u8) -> (r: VioResult)
        requires
            old(self).wf(),
            old(self).bit_offset() % 4 == 0,
        ensures
            r is Ok,
            final(self).wf(),
            final(self)@ == old(self)@.push_bits(nibble_bits(value)),
            final(self).bit_offset() == (old(self).bit_offset() + 4) % 8,
            old(self).aligned() ==> !final(self).aligned(),
    {
        let mut i: u8 = 0;
        while i < 4
            invariant
                i <= 4,
                self.wf(),
                self@ == old(self)@.push_bits(nibble_bits(value).take(i as int)),
                self.bit_offset() == (old(self).bit_offset() + i) % 8,
            decreases 4 - i,
        {
            let bit = ((value >> (3 - i)) & 1) != 0;
            proof {
                lemma_nibble_bit(value, i);
                assert(nibble_bits(value).take(i + 1).drop_last() =~= nibble_bits(value).take(
                    i as int,
                ));
            }
            self.write_bit(bit)?;
            i += 1;
        }
        assert(nibble_bits(value).take(4) =~= nibble_bits(value));
        Ok(())
    }

    /// Writes `bytes` as they are.
    pub fn write_bytes(&mut self, bytes: &[u8]) -> (r: VioResult)
        requires
            old(self).wf(),
            old(self).aligned(),
        ensures
            r is Ok,
            final(self).wf(),
            final(self).aligned(),
            final(self)@ == old(self)@.push_bytes(bytes@),
    {
        self.ensure_complete_byte();
        append(&mut self.target, bytes);
        Ok(())
    }

    /// Writes an i8 to the target
    pub fn write_int8(&mut self, value: i8) -> (r: VioResult)
        requires
            old(self).wf(),
            old(self).aligned(),
        ensures
            r is Ok,
            final(self).wf(),
            final(self).aligned(),
            final(self)@ == old(self)@.push_bytes(seq![value as u8]),
    {
        self.ensure_complete_byte();
        self.target.push(value as u8);
        assert(self@.bytes =~= old(self)@.bytes + seq![value as u8]);
        Ok(())
    }

    /// Writes an i16 to the target
    pub fn write_int16(&mut self, value: i16) -> (r: VioResult)
        requires
            old(self).wf(),
            old(self).aligned(),
        ensures
            r is Ok,
            final(self).wf(),
            final(self).aligned(),
            final(self)@ == old(self)@.push_bytes(be_bytes(value as u16 as nat, 2)),
    {
        self.write_uint16(value as u16)
    }

    /// Writes an i32 to the target
    pub fn write_int32(&mut self, value: i32) -> (r: VioResult)
        requires
            old(self).wf(),
            old(self).aligned(),
        ensures
            r is Ok,
            final(self).wf(),
            final(self).aligned(),
            final(self)@ == old(self)@.push_bytes(be_bytes(value as u32 as nat, 4)),
    {
        self.write_uint32(value as u32)
    }

    /// Writes an i64 to the target
    pub fn write_int64(&mut self, value: i64) -> (r: VioResult)
        requires
            old(self).wf(),
            old(self).aligned(),
        ensures
            r is Ok,
            final(self).wf(),
            final(self).aligned(),
            final(self)@ == old(self)@.push_bytes(be_bytes(value as u64 as nat, 8)),
    {
        self.write_uint64(value as u64)
    }

    /// Writes an i128 to the target
    pub fn write_int128(&mut self, value: i128) -> (r: VioResult)
        requires
            old(self).wf(),
            old(self).aligned(),
        ensures
            r is Ok,
            final(self).wf(),
            final(self).aligned(),
            final(self)@ == old(self)@.push_bytes(be_bytes(value as u128 as nat, 16)),
    {
        self.write_uint128(value as u128)
    }

    /// Writes a u8 to the target
    pub fn write_uint8(&mut self, value: u8) -> (r: VioResult)
        requires
            old(self).wf(),
            old(self).aligned(),
        ensures
            r is Ok,
            final(self).wf(),
            final(self).aligned(),
            final(self)@ == old(self)@.push_bytes(seq![value]),
    {
        self.ensure_complete_byte();
        self.target.push(value);
        assert(self@.bytes =~= old(self)@.bytes + seq![value]);
        Ok(())
    }

    /// Writes a u16 to the target
    pub fn write_uint16(&mut self, value: u16) -> (r: VioResult)
        requires
            old(self).wf(),
            old(self).aligned(),
        ensures
            r is Ok,
            final(self).wf(),
            final(self).aligned(),
            final(self)@ == old(self)@.push_bytes(be_bytes(value as nat, 2)),
    {
        self.ensure_complete_byte();
        let bytes = u16_to_be(value);
        append(&mut self.target, bytes.as_slice());
        Ok(())
    }

    /// Writes a u32 to the target
    pub fn write_uint32(&mut self, value: u32) -> (r: VioResult)
        requires
            old(self).wf(),
            old(self).aligned(),
        ensures
            r is Ok,
            final(self).wf(),
            final(self).aligned(),
            final(self)@ == old(self)@.push_bytes(be_bytes(value as nat, 4)),
    {
        self.ensure_complete_byte();
        let bytes = u32_to_be(value);
        append(&mut self.target, bytes.as_slice());
        Ok(())
    }

    /// Writes a u64 to the target
    pub fn write_uint64(&mut self, value: u64) -> (r: VioResult)
        requires
            old(self).wf(),
            old(self).aligned(),
        ensures
            r is Ok,
            final(self).wf(),
            final(self).aligned(),
            final(self)@ == old(self)@.push_bytes(be_bytes(value as nat, 8)),
    {
        self.ensure_complete_byte();
        let bytes = u64_to_be(value);
        append(&mut self.target, bytes.as_slice());
        Ok(())
    }

    /// Writes a u128 to the target
    pub fn write_uint128(&mut self, value: u128) -> (r: VioResult)
        requires
            old(self).wf(),
            old(self).aligned(),
        ensures
            r is Ok,
            final(self).wf(),
            final(self).aligned(),
            final(self)@ == old(self)@.push_bytes(be_bytes(value as nat, 16)),
    {
        self.ensure_complete_byte();
        let bytes = u128_to_be(value);
        append(&mut self.target, bytes.as_slice());
        Ok(())
    }

    /// Writes a binary32 number, given by its bits, to the target
    pub fn write_float32(&mut self, value: Float32) -> (r: VioResult)
        requires
            old(self).wf(),
            old(self).aligned(),
        ensures
            r is Ok,
            final(self).wf(),
            final(self).aligned(),
            final(self)@ == old(self)@.push_bytes(be_bytes(value as nat, 4)),
    {
        self.write_uint32(value)
    }

    /// Writes a binary64 number, given by its bits, to the target
    pub fn write_float64(&mut self, value: Float64) -> (r: VioResult)
        requires
            old(self).wf(),
            old(self).aligned(),
        ensures
            r is Ok,
            final(self).wf(),
            final(self).aligned(),
            final(self)@ == old(self)@.push_bytes(be_bytes(value as nat, 8)),
    {
        self.write_uint64(value)
    }

    /// Writes a string to the target with u16 length prefix
    pub fn write_string(&mut self, value: &str) -> (r: VioResult)
        requires
            old(self).wf(),
            old(self).aligned(),
        ensures
            final(self).wf(),
            final(self).aligned(),
            value.spec_bytes().len() <= STRING_MAX ==> r is Ok && final(self)@ == old(
                self,
            )@.push_bytes(string_bytes(value@)),
            value.spec_bytes().len() > STRING_MAX ==> *final(self) == *old(self) && (r matches Err(
                e,
            ) && e.kind == IoErrorKind::Other && e.description@ == "String is too long"@),
    {
        let bytes = value.as_bytes();
        if bytes.len() > STRING_MAX {
            return io_error("String is too long");
        }
        self.write_uint16(bytes.len() as u16)?;
        append(&mut self.target, bytes);
        assert(self@.bytes =~= old(self)@.bytes + string_bytes(value@));
        Ok(())
    }

    /// Writes a string to the target with u32 length prefix
    pub fn write_string32(&mut self, value: &str) -> (r: VioResult)
        requires
            old(self).wf(),
            old(self).aligned(),
        ensures
            final(self).wf(),
            final(self).aligned(),
            value.spec_bytes().len() <= STRING32_MAX ==> r is Ok && final(self)@ == old(
                self,
            )@.push_bytes(string32_bytes(value@)),
            value.spec_bytes().len() > STRING32_MAX ==> *final(self) == *old(self) && (
            r matches Err(e) && e.kind == IoErrorKind::Other && e.description@
                == "String is too long"@),
    {
        let bytes = value.as_bytes();
        if bytes.len() > STRING32_MAX {
            return io_error("String is too long");
        }
        self.write_uint32(bytes.len() as u32)?;
        append(&mut self.target, bytes);
        assert(self@.bytes =~= old(self)@.bytes + string32_bytes(value@));
        Ok(())
    }

    /// Writes an IntPos to the target
    pub fn write_int_pos(&mut self, value: &IntPos) -> (r: VioResult)
        requires
            old(self).wf(),
            old(self).aligned(),
        ensures
            r is Ok,
            final(self).wf(),
            final(self).aligned(),
            final(self)@ == old(self)@.push_bytes(int_pos_bytes(*value)),
    {
        self.write_int32(value.x)?;
        self.write_int32(value.y)?;
        self.write_int32(value.z)?;
        assert(self@.bytes =~= old(self)@.bytes + int_pos_bytes(*value));
        Ok(())
    }

    /// Writes a FloatPos to the target
    pub fn write_float_pos(&mut self, value: &FloatPos) -> (r: VioResult)
        requires
            old(self).wf(),
            old(self).aligned(),
        ensures
            r is Ok,
            final(self).wf(),
            final(self).aligned(),
            final(self)@ == old(self)@.push_bytes(float_pos_bytes(*value)),
    {
        self.write_float32(value.x)?;
        self.write_float32(value.y)?;
        self.write_float32(value.z)?;
        assert(self@.bytes =~= old(self)@.bytes + float_pos_bytes(*value));
        Ok(())
    }

    /// Writes a [CubePos](CubePos) to the target
    pub fn write_cube_pos(&mut self, value: &CubePos) -> (r: VioResult)
        requires
            old(self).wf(),
            old(self).aligned(),
        ensures
            r is Ok,
            final(self).wf(),
            final(self).aligned(),
            final(self)@ == old(self)@.push_bytes(cube_pos_bytes(*value)),
    {
        self.write_int_pos(&value.batch)?;
        let ghost start = self@;
        self.write_nibble(value.local_x)?;
        proof {
            assert(start.pending.len() == 0);
            lemma_push_bits_pending(start, nibble_bits(value.local_x));
        }
        let ghost half = self@;
        self.write_nibble(value.local_y)?;
        proof {
            assert(half.pending =~= nibble_bits(value.local_x));
            lemma_push_bits_complete(half, nibble_bits(value.local_y));
        }
        let ghost full = self@;
        self.write_nibble(value.local_z)?;
        proof {
            lemma_push_bits_pending(full, nibble_bits(value.local_z));
            lemma_nibble_padding(value.local_z);
        }
        self.write_nop()?;
        assert(self@.bytes =~= old(self)@.bytes + cube_pos_bytes(*value));
        assert(self@.pending =~= old(self)@.pending);
        Ok(())
    }

    /// Writes a [CubePrecisePos](CubePrecisePos) to the target
    pub fn write_cube_precise_pos(&mut self, value: &CubePrecisePos) -> (r: VioResult)
        requires
            old(self).wf(),
            old(self).aligned(),
        ensures
            r is Ok,
            final(self).wf(),
            final(self).aligned(),
            final(self)@ == old(self)@.push_bytes(cube_precise_pos_bytes(*value)),
    {
        self.write_int_pos(&value.cube.batch)?;
        let ghost start = self@;
        self.write_nibble(value.cube.local_x)?;
        proof {
            assert(start.pending.len() == 0);
            lemma_push_bits_pending(start, nibble_bits(value.cube.local_x));
        }
        let ghost half = self@;
        self.write_nibble(value.cube.local_y)?;
        proof {
            assert(half.pending =~= nibble_bits(value.cube.local_x));
            lemma_push_bits_complete(half, nibble_bits(value.cube.local_y));
        }
        let ghost full = self@;
        self.write_nibble(value.cube.local_z)?;
        proof {
            lemma_push_bits_pending(full, nibble_bits(value.cube.local_z));
        }
        let ghost last = self@;
        self.write_nibble(value.face)?;
        proof {
            assert(last.pending =~= nibble_bits(value.cube.local_z));
            lemma_push_bits_complete(last, nibble_bits(value.face));
        }
        self.write_float32(value.precise_x)?;
        self.write_float32(value.precise_y)?;
        assert(self@.bytes =~= old(self)@.bytes + cube_precise_pos_bytes(*value));
        assert(self@.pending =~= old(self)@.pending);
        Ok(())
    }

    /// Writes a [FlexPos](FlexPos) to the target
    pub fn write_flex_pos(&mut self, value: &FlexPos) -> (r: VioResult)
        requires
            old(self).wf(),
            old(self).aligned(),
        ensures
            r is Ok,
            final(self).wf(),
            final(self).aligned(),
            final(self)@ == old(self)@.push_bytes(flex_pos_bytes(*value)),
    {
        self.write_int_pos(&value.batch)?;
        self.write_float_pos(&value.local)?;
        self.write_float32(value.yaw)?;
        self.write_float32(value.pitch)?;
        assert(self@.bytes =~= old(self)@.bytes + flex_pos_bytes(*value));
        Ok(())
    }
}

} // verus!
