//! The reading half of the codec.

use crate::io::bits::{
    bit_at, bits_of_byte, byte_of_bits, lemma_half_of_byte, lemma_halves, lemma_nibble_value,
    nibble_bits,
};
use crate::io::cube::{CubePos, CubePrecisePos, Float32, Float64, FloatPos, IntPos};
use crate::io::flex::FlexPos;
use crate::io::endian::{be_value, u128_from_be, u16_from_be, u32_from_be, u64_from_be};
use crate::util::{make_io_error, IoError, IoErrorKind, IoResult, VioResult};
use vstd::prelude::*;
use vstd::slice::{slice_subrange, slice_to_vec};
use vstd::string::StringExecFns;

verus! {

/// What a reader has before it: the bits of the current byte that are not
/// read yet, most significant first, and the bytes after it.
pub struct ReaderView {
    pub pending: Seq<bool>,
    pub rest: Seq<u8>,
}

impl ReaderView {
    /// A reader at the start of `bytes`.
    pub open spec fn over(bytes: Seq<u8>) -> ReaderView {
        ReaderView { pending: Seq::empty(), rest: bytes }
    }

    /// Whether the next bit starts a byte.
    pub open spec fn aligned(self) -> bool {
        self.pending.len() == 0
    }

    /// The next bit and what follows it; `None` where nothing is left.
    pub open spec fn take_bit(self) -> Option<(bool, ReaderView)> {
        if self.pending.len() > 0 {
            Some((self.pending[0], ReaderView { pending: self.pending.drop_first(), rest: self.rest }))
        } else if self.rest.len() > 0 {
            let bits = bits_of_byte(self.rest[0], 8);
            Some((bits[0], ReaderView { pending: bits.drop_first(), rest: self.rest.drop_first() }))
        } else {
            None
        }
    }

    /// The next `count` bits and what follows them.
    pub open spec fn take_bits(self, count: nat) -> Option<(Seq<bool>, ReaderView)>
        decreases count,
    {
        if count == 0 {
            Some((Seq::empty(), self))
        } else {
            match self.take_bit() {
                None => None,
                Some((bit, next)) => match next.take_bits((count - 1) as nat) {
                    None => None,
                    Some((bits, last)) => Some((seq![bit] + bits, last)),
                },
            }
        }
    }

    /// The unread bits of the current byte are dropped.
    pub open spec fn skip(self) -> ReaderView {
        ReaderView { pending: Seq::empty(), rest: self.rest }
    }

    /// The next nibble, a number below 16 whose bits are the next four, and
    /// what follows it.
    pub open spec fn take_nibble(self) -> Option<(u8, ReaderView)> {
        match self.take_bits(4) {
            None => None,
            Some((bits, next)) => Some((byte_of_bits(bits) / 16, next)),
        }
    }

    /// A string with a length of two bytes before it: the text and what
    /// follows, or the kind of error that reading it meets.
    pub open spec fn take_string(self) -> Result<(Seq<char>, ReaderView), IoErrorKind> {
        match self.take_bytes(2) {
            None => Err(IoErrorKind::UnexpectedEof),
            Some((prefix, body)) => match body.take_bytes(be_value(prefix)) {
                None => Err(IoErrorKind::UnexpectedEof),
                Some((utf8, next)) => if vstd::utf8::valid_utf8(utf8) {
                    Ok((vstd::utf8::decode_utf8(utf8), next))
                } else {
                    Err(IoErrorKind::Other)
                },
            },
        }
    }

    /// A string with a length of four bytes before it.
    pub open spec fn take_string32(self) -> Result<(Seq<char>, ReaderView), IoErrorKind> {
        match self.take_bytes(4) {
            None => Err(IoErrorKind::UnexpectedEof),
            Some((prefix, body)) => match body.take_bytes(be_value(prefix)) {
                None => Err(IoErrorKind::UnexpectedEof),
                Some((utf8, next)) => if vstd::utf8::valid_utf8(utf8) {
                    Ok((vstd::utf8::decode_utf8(utf8), next))
                } else {
                    Err(IoErrorKind::Other)
                },
            },
        }
    }

    /// Three signed 32-bit integers.
    pub open spec fn take_int_pos(self) -> Option<(IntPos, ReaderView)> {
        match self.take_bytes(12) {
            None => None,
            Some((bytes, next)) => Some((int_pos_of(bytes), next)),
        }
    }

    /// Three binary32 numbers.
    pub open spec fn take_float_pos(self) -> Option<(FloatPos, ReaderView)> {
        match self.take_bytes(12) {
            None => None,
            Some((bytes, next)) => Some((float_pos_of(bytes), next)),
        }
    }

    /// A cube: its batch, its three local nibbles, and the rest of the byte
    /// that the last one opened.
    pub open spec fn take_cube_pos(self) -> Option<(CubePos, ReaderView)> {
        match self.take_bytes(14) {
            None => None,
            Some((bytes, next)) => Some(
                (
                    CubePos {
                        batch: int_pos_of(bytes),
                        local_x: bytes[12] / 16,
                        local_y: bytes[12] % 16,
                        local_z: bytes[13] / 16,
                    },
                    next,
                ),
            ),
        }
    }

    /// A point on a cube's face: the batch, four nibbles, two binary32
    /// numbers.
    pub open spec fn take_cube_precise_pos(self) -> Option<(CubePrecisePos, ReaderView)> {
        match self.take_bytes(22) {
            None => None,
            Some((bytes, next)) => Some(
                (
                    CubePrecisePos {
                        cube: CubePos {
                            batch: int_pos_of(bytes),
                            local_x: bytes[12] / 16,
                            local_y: bytes[12] % 16,
                            local_z: bytes[13] / 16,
                        },
                        face: bytes[13] % 16,
                        precise_x: be_value(bytes.subrange(14, 18)) as u32,
                        precise_y: be_value(bytes.subrange(18, 22)) as u32,
                    },
                    next,
                ),
            ),
        }
    }

    /// A batch, a place within it, yaw and pitch.
    pub open spec fn take_flex_pos(self) -> Option<(FlexPos, ReaderView)> {
        match self.take_bytes(32) {
            None => None,
            Some((bytes, next)) => Some(
                (
                    FlexPos {
                        batch: int_pos_of(bytes),
                        local: float_pos_of(bytes.subrange(12, 24)),
                        yaw: be_value(bytes.subrange(24, 28)) as u32,
                        pitch: be_value(bytes.subrange(28, 32)) as u32,
                    },
                    next,
                ),
            ),
        }
    }

    /// The next `count` whole bytes and what follows them, read at a byte
    /// boundary; `None` where fewer are left.
    pub open spec fn take_bytes(self, count: nat) -> Option<(Seq<u8>, ReaderView)> {
        if self.rest.len() >= count {
            Some(
                (
                    self.rest.take(count as int),
                    ReaderView { pending: self.pending, rest: self.rest.skip(count as int) },
                ),
            )
        } else {
            None
        }
    }
}

/// Bits that the current byte still holds are taken from it.
pub proof fn lemma_take_bits_within(view: ReaderView, count: nat)
    requires
        count <= view.pending.len(),
    ensures
        view.take_bits(count) == Some(
            (
                view.pending.take(count as int),
                ReaderView { pending: view.pending.skip(count as int), rest: view.rest },
            ),
        ),
    decreases count,
{
    if count == 0 {
        assert(view.pending.take(0) =~= Seq::empty());
        assert(view.pending.skip(0) =~= view.pending);
    } else {
        let next = ReaderView { pending: view.pending.drop_first(), rest: view.rest };
        lemma_take_bits_within(next, (count - 1) as nat);
        assert(seq![view.pending[0]] + next.pending.take(count - 1) =~= view.pending.take(
            count as int,
        ));
        assert(next.pending.skip(count - 1) =~= view.pending.skip(count as int));
    }
}

/// At a byte boundary, up to eight bits come from the next byte.
pub proof fn lemma_take_bits_open(view: ReaderView, count: nat)
    requires
        view.pending.len() == 0,
        view.rest.len() > 0,
        0 < count <= 8,
    ensures
        view.take_bits(count) == Some(
            (
                bits_of_byte(view.rest[0], 8).take(count as int),
                ReaderView {
                    pending: bits_of_byte(view.rest[0], 8).skip(count as int),
                    rest: view.rest.drop_first(),
                },
            ),
        ),
{
    let bits = bits_of_byte(view.rest[0], 8);
    let next = ReaderView { pending: bits.drop_first(), rest: view.rest.drop_first() };
    lemma_take_bits_within(next, (count - 1) as nat);
    assert(seq![bits[0]] + next.pending.take(count - 1) =~= bits.take(count as int));
    assert(next.pending.skip(count - 1) =~= bits.skip(count as int));
}

/// At a byte boundary the next nibble is the upper half of the next byte,
/// and the lower half stays for the nibble after it.
pub proof fn lemma_take_nibble_high(view: ReaderView)
    requires
        view.pending.len() == 0,
        view.rest.len() > 0,
    ensures
        view.take_nibble() == Some(
            (
                view.rest[0] / 16,
                ReaderView {
                    pending: bits_of_byte(view.rest[0], 8).skip(4),
                    rest: view.rest.drop_first(),
                },
            ),
        ),
{
    lemma_take_bits_open(view, 4);
    lemma_halves(view.rest[0]);
    let bits = bits_of_byte(view.rest[0], 8);
    assert(bits.take(4) =~= bits.subrange(0, 4));
}

/// In the middle of `byte` the next nibble is its lower half, and the
/// reader is at a byte boundary after it.
pub proof fn lemma_take_nibble_low(view: ReaderView, byte: u8)
    requires
        view.pending == bits_of_byte(byte, 8).skip(4),
    ensures
        view.take_nibble() == Some(
            (byte % 16, ReaderView { pending: Seq::empty(), rest: view.rest }),
        ),
{
    lemma_take_bits_within(view, 4);
    lemma_halves(byte);
    let bits = bits_of_byte(byte, 8);
    assert(bits.skip(4).take(4) =~= bits.subrange(4, 8));
    assert(bits.skip(4).skip(4) =~= Seq::empty());
}

/// The text that well-formed UTF-8 spells, as `String::from_utf8` gives it;
/// `None` where `bytes` are not well-formed UTF-8.
#[verifier::external_body]
fn string_from_utf8(bytes: Vec<u8>) -> (r: Option<String>)
    ensures
        r is Some <==> vstd::utf8::valid_utf8(bytes@),
        r matches Some(text) ==> text@ == vstd::utf8::decode_utf8(bytes@),
{
    String::from_utf8(bytes).ok()
}

/// Three signed 32-bit integers: x, y, z.
pub open spec fn int_pos_of(bytes: Seq<u8>) -> IntPos {
    IntPos {
        x: be_value(bytes.subrange(0, 4)) as u32 as i32,
        y: be_value(bytes.subrange(4, 8)) as u32 as i32,
        z: be_value(bytes.subrange(8, 12)) as u32 as i32,
    }
}

/// Three binary32 numbers: x, y, z.
pub open spec fn float_pos_of(bytes: Seq<u8>) -> FloatPos {
    FloatPos {
        x: be_value(bytes.subrange(0, 4)) as u32,
        y: be_value(bytes.subrange(4, 8)) as u32,
        z: be_value(bytes.subrange(8, 12)) as u32,
    }
}

/// The error of a read that found the source too short.
pub fn unexpected_eof() -> (e: IoError)
    ensures
        e.kind == IoErrorKind::UnexpectedEof,
        e.description@ == "failed to fill whole buffer"@,
{
    IoError {
        kind: IoErrorKind::UnexpectedEof,
        description: String::from_str("failed to fill whole buffer"),
    }
}

/// Reads bits, nibbles and byte-aligned values from `source`.
///
/// `source` holds the bytes that are not read yet. `current_bit` counts the
/// bits of `current_byte` that are read; at zero no byte is open.
#[derive(Clone, Copy)]
pub struct CubeReader<'a> {
    pub current_bit: u8,
    pub current_byte: u8,
    pub source: &'a [u8],
}

impl<'a> CubeReader<'a> {
    /// How many bits of the current byte are read.
    pub open spec fn bit_offset(&self) -> int {
        self.current_bit as int
    }

    /// The invariant of a reader: the offset is within a byte.
    pub open spec fn wf(&self) -> bool {
        0 <= self.bit_offset() < 8
    }

    /// What the reader has before it.
    pub open spec fn view(&self) -> ReaderView {
        ReaderView {
            pending: if self.current_bit == 0 {
                Seq::empty()
            } else {
                bits_of_byte(self.current_byte, 8).skip(self.bit_offset())
            },
            rest: self.source@,
        }
    }

    /// Whether the reader stands at a byte boundary.
    pub open spec fn aligned(&self) -> bool {
        self.bit_offset() == 0
    }

    /// Creates a new CubeReader
    pub fn new(source: &'a [u8]) -> (r: CubeReader<'a>)
        ensures
            r.wf(),
            r.aligned(),
            r@ == ReaderView::over(source@),
    {
        CubeReader { current_bit: 0, current_byte: 0, source }
    }

    /// If the current byte is incomplete, skip the remaining bits
    pub fn read_nop(&mut self) -> (r: VioResult)
        requires
            old(self).wf(),
        ensures
            r is Ok,
            final(self).wf(),
            final(self).aligned(),
            final(self)@ == old(self)@.skip(),
            old(self).aligned() ==> *final(self) == *old(self),
    {
        if self.current_bit > 0 {
            self.current_bit = 0;
            self.current_byte = 0;
        }
        Ok(())
    }

    /// Whatever is read in whole bytes may be asked of a reader only at a
    /// byte boundary, and this holds the caller to it: behind a bit or a
    /// nibble that left a byte open, nothing meets what it requires until
    /// `read_nop` has skipped the rest of the byte.
    pub fn ensure_complete_byte(&self)
        requires
            self.aligned(),
    {
    }

    /// Whether the reader stands at a byte boundary, where whole bytes may
    /// be read.
    pub fn is_complete_byte(&self) -> (b: bool)
        ensures
            b == self.aligned(),
    {
        self.current_bit == 0
    }

    /// Reads the next bit as a boolean.
    /// Call `read_nop()` to skip the remaining bits of the byte
    /// before calling a nibble/full-byte read function.
    pub fn read_bit(&mut self) -> (r: IoResult<bool>)
        requires
            old(self).wf(),
        ensures
            final(self).wf(),
            match old(self)@.take_bit() {
                Some((bit, next)) => r == Ok::<bool, IoError>(bit) && final(self)@ == next,
                None => *final(self) == *old(self) && (r matches Err(e) && e.kind
                    == IoErrorKind::UnexpectedEof),
            },
            r is Ok ==> final(self).bit_offset() == (old(self).bit_offset() + 1) % 8,
            r is Ok && old(self).aligned() ==> !final(self).aligned(),
    {
        if self.current_bit == 0 {
            if self.source.len() == 0 {
                return Err(unexpected_eof());
            }
            self.current_byte = self.source[0];
            self.source = slice_subrange(self.source, 1, self.source.len());
            assert(self.source@ =~= old(self).source@.drop_first());
        }
        let ret = (self.current_byte & (0x80u8 >> self.current_bit)) != 0;
        self.current_bit = if self.current_bit == 7 {
            0
        } else {
            self.current_bit + 1
        };
        proof {
            let bits = bits_of_byte(self.current_byte, 8);
            let k = old(self).bit_offset();
            assert(bits.skip(k)[0] == ret);
            if k == 7 {
                assert(self@.pending =~= bits.skip(k).drop_first());
            } else {
                assert(bits.skip(k + 1) =~= bits.skip(k).drop_first());
            }
        }
        Ok(ret)
    }

    /// Reads `buf.len()` bytes from the source into `buf`
    pub fn read_bytes(&mut self, buf: &mut [u8]) -> (r: VioResult)
        requires
            old(self).wf(),
            old(self).aligned(),
        ensures
            final(self).wf(),
            final(self).aligned(),
            final(buf)@.len() == old(buf)@.len(),
            match old(self)@.take_bytes(old(buf)@.len()) {
                Some((bytes, next)) => r is Ok && final(buf)@ == bytes && final(self)@ == next,
                None => *final(self) == *old(self) && final(buf)@ == old(buf)@ && (r matches Err(e)
                    && e.kind == IoErrorKind::UnexpectedEof),
            },
    {
        self.ensure_complete_byte();
        let count = buf.len();
        if self.source.len() < count {
            return Err(unexpected_eof());
        }
        let mut i: usize = 0;
        while i < count
            invariant
                i <= count,
                count == buf@.len(),
                count <= self.source@.len(),
                *self == *old(self),
                forall|j: int| 0 <= j < i ==> buf@[j] == self.source@[j],
            decreases count - i,
        {
            buf[i] = self.source[i];
            i += 1;
        }
        assert(buf@ =~= self.source@.take(count as int));
        self.source = slice_subrange(self.source, count, self.source.len());
        Ok(())
    }

    /// Reads the next nibble as a number below 16.
    /// The bit pointer must be at offset `0` or `4`.
    pub fn read_nibble(&mut self) -> (r: IoResult<u8>)
        requires
            old(self).wf(),
            old(self).bit_offset() % 4 == 0,
        ensures
            final(self).wf(),
            match old(self)@.take_nibble() {
                Some((value, next)) => r == Ok::<u8, IoError>(value) && value < 16 && final(self)@
                    == next,
                None => *final(self) == *old(self) && (r matches Err(e) && e.kind
                    == IoErrorKind::UnexpectedEof),
            },
            r is Ok ==> final(self).bit_offset() == (old(self).bit_offset() + 4) % 8,
            r is Ok && old(self).aligned() ==> !final(self).aligned(),
    {
        if self.current_bit == 0 {
            if self.source.len() == 0 {
                proof {
                    assert(old(self)@.take_bit() is None);
                }
                return Err(unexpected_eof());
            }
            self.current_byte = self.source[0];
            self.source = slice_subrange(self.source, 1, self.source.len());
            assert(self.source@ =~= old(self).source@.drop_first());
            proof {
                lemma_take_bits_open(old(self)@, 4);
            }
        } else {
            proof {
                lemma_take_bits_within(old(self)@, 4);
            }
        }
        let ret = (self.current_byte >> (4 - self.current_bit)) & 0x0F;
        proof {
            let bits = bits_of_byte(self.current_byte, 8);
            let k = old(self).bit_offset();
            lemma_half_of_byte(self.current_byte, self.current_bit);
            lemma_nibble_value(ret);
            if k == 0 {
                assert(bits.take(4) =~= bits.subrange(0, 4));
            } else {
                assert(bits.skip(4).take(4) =~= bits.subrange(4, 8));
                assert(bits.skip(4).skip(4) =~= Seq::empty());
            }
        }
        self.current_bit = if self.current_bit == 0 {
            4
        } else {
            0
        };
        Ok(ret)
    }

    /// The next `count` bytes of the source, which are then read.
    fn take(&mut self, count: usize) -> (r: IoResult<&'a [u8]>)
        requires
            old(self).wf(),
            old(self).aligned(),
        ensures
            final(self).wf(),
            final(self).aligned(),
            match old(self)@.take_bytes(count as nat) {
                Some((bytes, next)) => (r matches Ok(taken) && taken@ == bytes) && final(self)@
                    == next,
                None => *final(self) == *old(self) && (r matches Err(e) && e.kind
                    == IoErrorKind::UnexpectedEof),
            },
    {
        if self.source.len() < count {
            return Err(unexpected_eof());
        }
        let taken = slice_subrange(self.source, 0, count);
        self.source = slice_subrange(self.source, count, self.source.len());
        Ok(taken)
    }

    /// Reads an i8 from the source
    pub fn read_int8(&mut self) -> (r: IoResult<i8>)
        requires
            old(self).wf(),
            old(self).aligned(),
        ensures
            final(self).wf(),
            final(self).aligned(),
            match old(self)@.take_bytes(1) {
                Some((bytes, next)) => r == Ok::<i8, IoError>(bytes[0] as i8) && final(self)@
                    == next,
                None => *final(self) == *old(self) && (r matches Err(e) && e.kind
                    == IoErrorKind::UnexpectedEof),
            },
    {
        self.ensure_complete_byte();
        let bytes = self.take(1)?;
        Ok(bytes[0] as i8)
    }

    /// Reads a u8 from the source
    pub fn read_uint8(&mut self) -> (r: IoResult<u8>)
        requires
            old(self).wf(),
            old(self).aligned(),
        ensures
            final(self).wf(),
            final(self).aligned(),
            match old(self)@.take_bytes(1) {
                Some((bytes, next)) => r == Ok::<u8, IoError>(bytes[0]) && final(self)@ == next,
                None => *final(self) == *old(self) && (r matches Err(e) && e.kind
                    == IoErrorKind::UnexpectedEof),
            },
    {
        self.ensure_complete_byte();
        let bytes = self.take(1)?;
        Ok(bytes[0])
    }

    /// Reads a u16 from the source
    pub fn read_uint16(&mut self) -> (r: IoResult<u16>)
        requires
            old(self).wf(),
            old(self).aligned(),
        ensures
            final(self).wf(),
            final(self).aligned(),
            match old(self)@.take_bytes(2) {
                Some((bytes, next)) => r == Ok::<u16, IoError>(be_value(bytes) as u16)
                    && be_value(bytes) <= u16::MAX && final(self)@ == next,
                None => *final(self) == *old(self) && (r matches Err(e) && e.kind
                    == IoErrorKind::UnexpectedEof),
            },
    {
        self.ensure_complete_byte();
        let bytes = self.take(2)?;
        assert(bytes@.subrange(0, 2) =~= bytes@);
        Ok(u16_from_be(bytes))
    }

    /// Reads an i16 from the source
    pub fn read_int16(&mut self) -> (r: IoResult<i16>)
        requires
            old(self).wf(),
            old(self).aligned(),
        ensures
            final(self).wf(),
            final(self).aligned(),
            match old(self)@.take_bytes(2) {
                Some((bytes, next)) => r == Ok::<i16, IoError>(
                    be_value(bytes) as u16 as i16,
                ) && final(self)@ == next,
                None => *final(self) == *old(self) && (r matches Err(e) && e.kind
                    == IoErrorKind::UnexpectedEof),
            },
    {
        let value = self.read_uint16()?;
        Ok(value as i16)
    }

    /// Reads a u32 from the source
    pub fn read_uint32(&mut self) -> (r: IoResult<u32>)
        requires
            old(self).wf(),
            old(self).aligned(),
        ensures
            final(self).wf(),
            final(self).aligned(),
            match old(self)@.take_bytes(4) {
                Some((bytes, next)) => r == Ok::<u32, IoError>(be_value(bytes) as u32)
                    && be_value(bytes) <= u32::MAX && final(self)@ == next,
                None => *final(self) == *old(self) && (r matches Err(e) && e.kind
                    == IoErrorKind::UnexpectedEof),
            },
    {
        self.ensure_complete_byte();
        let bytes = self.take(4)?;
        assert(bytes@.subrange(0, 4) =~= bytes@);
        Ok(u32_from_be(bytes))
    }

    /// Reads an i32 from the source
    pub fn read_int32(&mut self) -> (r: IoResult<i32>)
        requires
            old(self).wf(),
            old(self).aligned(),
        ensures
            final(self).wf(),
            final(self).aligned(),
            match old(self)@.take_bytes(4) {
                Some((bytes, next)) => r == Ok::<i32, IoError>(
                    be_value(bytes) as u32 as i32,
                ) && final(self)@ == next,
                None => *final(self) == *old(self) && (r matches Err(e) && e.kind
                    == IoErrorKind::UnexpectedEof),
            },
    {
        let value = self.read_uint32()?;
        Ok(value as i32)
    }

    /// Reads a u64 from the source
    pub fn read_uint64(&mut self) -> (r: IoResult<u64>)
        requires
            old(self).wf(),
            old(self).aligned(),
        ensures
            final(self).wf(),
            final(self).aligned(),
            match old(self)@.take_bytes(8) {
                Some((bytes, next)) => r == Ok::<u64, IoError>(be_value(bytes) as u64)
                    && be_value(bytes) <= u64::MAX && final(self)@ == next,
                None => *final(self) == *old(self) && (r matches Err(e) && e.kind
                    == IoErrorKind::UnexpectedEof),
            },
    {
        self.ensure_complete_byte();
        let bytes = self.take(8)?;
        assert(bytes@.subrange(0, 8) =~= bytes@);
        Ok(u64_from_be(bytes))
    }

    /// Reads an i64 from the source
    pub fn read_int64(&mut self) -> (r: IoResult<i64>)
        requires
            old(self).wf(),
            old(self).aligned(),
        ensures
            final(self).wf(),
            final(self).aligned(),
            match old(self)@.take_bytes(8) {
                Some((bytes, next)) => r == Ok::<i64, IoError>(
                    be_value(bytes) as u64 as i64,
                ) && final(self)@ == next,
                None => *final(self) == *old(self) && (r matches Err(e) && e.kind
                    == IoErrorKind::UnexpectedEof),
            },
    {
        let value = self.read_uint64()?;
        Ok(value as i64)
    }

    /// Reads a u128 from the source
    pub fn read_uint128(&mut self) -> (r: IoResult<u128>)
        requires
            old(self).wf(),
            old(self).aligned(),
        ensures
            final(self).wf(),
            final(self).aligned(),
            match old(self)@.take_bytes(16) {
                Some((bytes, next)) => r == Ok::<u128, IoError>(be_value(bytes) as u128)
                    && be_value(bytes) <= u128::MAX && final(self)@ == next,
                None => *final(self) == *old(self) && (r matches Err(e) && e.kind
                    == IoErrorKind::UnexpectedEof),
            },
    {
        self.ensure_complete_byte();
        let bytes = self.take(16)?;
        assert(bytes@.subrange(0, 16) =~= bytes@);
        Ok(u128_from_be(bytes))
    }

    /// Reads an i128 from the source
    pub fn read_int128(&mut self) -> (r: IoResult<i128>)
        requires
            old(self).wf(),
            old(self).aligned(),
        ensures
            final(self).wf(),
            final(self).aligned(),
            match old(self)@.take_bytes(16) {
                Some((bytes, next)) => r == Ok::<i128, IoError>(
                    be_value(bytes) as u128 as i128,
                ) && final(self)@ == next,
                None => *final(self) == *old(self) && (r matches Err(e) && e.kind
                    == IoErrorKind::UnexpectedEof),
            },
    {
        let value = self.read_uint128()?;
        Ok(value as i128)
    }

    /// Reads a binary32 number from the source, as its bits
    pub fn read_float32(&mut self) -> (r: IoResult<Float32>)
        requires
            old(self).wf(),
            old(self).aligned(),
        ensures
            final(self).wf(),
            final(self).aligned(),
            match old(self)@.take_bytes(4) {
                Some((bytes, next)) => r == Ok::<u32, IoError>(be_value(bytes) as u32)
                    && final(self)@ == next,
                None => *final(self) == *old(self) && (r matches Err(e) && e.kind
                    == IoErrorKind::UnexpectedEof),
            },
    {
        self.read_uint32()
    }

    /// Reads a binary64 number from the source, as its bits
    pub fn read_float64(&mut self) -> (r: IoResult<Float64>)
        requires
            old(self).wf(),
            old(self).aligned(),
        ensures
            final(self).wf(),
            final(self).aligned(),
            match old(self)@.take_bytes(8) {
                Some((bytes, next)) => r == Ok::<u64, IoError>(be_value(bytes) as u64)
                    && final(self)@ == next,
                None => *final(self) == *old(self) && (r matches Err(e) && e.kind
                    == IoErrorKind::UnexpectedEof),
            },
    {
        self.read_uint64()
    }

    /// Reads a string from the source with u16 length prefix
    pub fn read_string(&mut self) -> (r: IoResult<String>)
        requires
            old(self).wf(),
            old(self).aligned(),
        ensures
            final(self).wf(),
            final(self).aligned(),
            match old(self)@.take_string() {
                Ok((text, next)) => (r matches Ok(read) && read@ == text) && final(self)@ == next,
                Err(kind) => *final(self) == *old(self) && (r matches Err(e) && e.kind == kind),
            },
    {
        self.ensure_complete_byte();
        let start = CubeReader {
            current_bit: self.current_bit,
            current_byte: self.current_byte,
            source: self.source,
        };
        let size = self.read_uint16()? as usize;
        assert(size == be_value(old(self)@.rest.take(2)));
        assert(self@.pending =~= old(self)@.pending);
        if self.source.len() < size {
            *self = start;
            return Err(unexpected_eof());
        }
        let body = slice_to_vec(slice_subrange(self.source, 0, size));
        assert(body@ =~= self.source@.take(size as int));
        match string_from_utf8(body) {
            Some(text) => {
                self.source = slice_subrange(self.source, size, self.source.len());
                Ok(text)
            },
            None => {
                *self = start;
                Err(make_io_error("invalid utf-8"))
            },
        }
    }

    /// Reads a string from the source with u32 length prefix
    pub fn read_string32(&mut self) -> (r: IoResult<String>)
        requires
            old(self).wf(),
            old(self).aligned(),
        ensures
            final(self).wf(),
            final(self).aligned(),
            match old(self)@.take_string32() {
                Ok((text, next)) => (r matches Ok(read) && read@ == text) && final(self)@ == next,
                Err(kind) => *final(self) == *old(self) && (r matches Err(e) && e.kind == kind),
            },
    {
        self.ensure_complete_byte();
        let start = CubeReader {
            current_bit: self.current_bit,
            current_byte: self.current_byte,
            source: self.source,
        };
        let size = self.read_uint32()? as usize;
        assert(size == be_value(old(self)@.rest.take(4)));
        assert(self@.pending =~= old(self)@.pending);
        if self.source.len() < size {
            *self = start;
            return Err(unexpected_eof());
        }
        let body = slice_to_vec(slice_subrange(self.source, 0, size));
        assert(body@ =~= self.source@.take(size as int));
        match string_from_utf8(body) {
            Some(text) => {
                self.source = slice_subrange(self.source, size, self.source.len());
                Ok(text)
            },
            None => {
                *self = start;
                Err(make_io_error("invalid utf-8"))
            },
        }
    }

    /// Reads an IntPos from the source
    pub fn read_int_pos(&mut self) -> (r: IoResult<IntPos>)
        requires
            old(self).wf(),
            old(self).aligned(),
        ensures
            final(self).wf(),
            final(self).aligned(),
            match old(self)@.take_int_pos() {
                Some((pos, next)) => r == Ok::<IntPos, IoError>(pos) && final(self)@ == next,
                None => *final(self) == *old(self) && (r matches Err(e) && e.kind
                    == IoErrorKind::UnexpectedEof),
            },
    {
        if self.source.len() < 12 {
            return Err(unexpected_eof());
        }
        let ghost all = self.source@.take(12);
        let x = self.read_int32()?;
        let y = self.read_int32()?;
        let z = self.read_int32()?;
        proof {
            let rest = old(self).source@;
            assert(rest.take(4) =~= all.subrange(0, 4));
            assert(rest.skip(4).take(4) =~= all.subrange(4, 8));
            assert(rest.skip(4).skip(4).take(4) =~= all.subrange(8, 12));
            assert(rest.skip(4).skip(4).skip(4) =~= rest.skip(12));
        }
        Ok(IntPos { x, y, z })
    }

    /// Reads a FloatPos from the source
    pub fn read_float_pos(&mut self) -> (r: IoResult<FloatPos>)
        requires
            old(self).wf(),
            old(self).aligned(),
        ensures
            final(self).wf(),
            final(self).aligned(),
            match old(self)@.take_float_pos() {
                Some((pos, next)) => r == Ok::<FloatPos, IoError>(pos) && final(self)@ == next,
                None => *final(self) == *old(self) && (r matches Err(e) && e.kind
                    == IoErrorKind::UnexpectedEof),
            },
    {
        if self.source.len() < 12 {
            return Err(unexpected_eof());
        }
        let ghost all = self.source@.take(12);
        let x = self.read_float32()?;
        let y = self.read_float32()?;
        let z = self.read_float32()?;
        proof {
            let rest = old(self).source@;
            assert(rest.take(4) =~= all.subrange(0, 4));
            assert(rest.skip(4).take(4) =~= all.subrange(4, 8));
            assert(rest.skip(4).skip(4).take(4) =~= all.subrange(8, 12));
            assert(rest.skip(4).skip(4).skip(4) =~= rest.skip(12));
        }
        Ok(FloatPos { x, y, z })
    }

    /// Reads a [CubePos](CubePos) from the source
    pub fn read_cube_pos(&mut self) -> (r: IoResult<CubePos>)
        requires
            old(self).wf(),
            old(self).aligned(),
        ensures
            final(self).wf(),
            final(self).aligned(),
            match old(self)@.take_cube_pos() {
                Some((pos, next)) => r == Ok::<CubePos, IoError>(pos) && final(self)@ == next,
                None => *final(self) == *old(self) && (r matches Err(e) && e.kind
                    == IoErrorKind::UnexpectedEof),
            },
    {
        if self.source.len() < 14 {
            return Err(unexpected_eof());
        }
        let ghost rest = self.source@;
        let batch = self.read_int_pos()?;
        proof {
            assert(rest.take(12) =~= rest.take(14).subrange(0, 12));
            assert(int_pos_of(rest.take(12)) == int_pos_of(rest.take(14))) by {
                assert(rest.take(12).subrange(0, 4) =~= rest.take(14).subrange(0, 4));
                assert(rest.take(12).subrange(4, 8) =~= rest.take(14).subrange(4, 8));
                assert(rest.take(12).subrange(8, 12) =~= rest.take(14).subrange(8, 12));
            }
            lemma_take_nibble_high(self@);
        }
        let local_x = self.read_nibble()?;
        proof {
            lemma_take_nibble_low(self@, rest[12]);
        }
        let local_y = self.read_nibble()?;
        proof {
            assert(self@.rest =~= rest.skip(13));
            lemma_take_nibble_high(self@);
        }
        let local_z = self.read_nibble()?;
        self.read_nop()?;
        assert(self@.rest =~= rest.skip(14));
        Ok(CubePos { batch, local_x, local_y, local_z })
    }

    /// Reads a [CubePrecisePos](CubePrecisePos) from the source
    pub fn read_cube_precise_pos(&mut self) -> (r: IoResult<CubePrecisePos>)
        requires
            old(self).wf(),
            old(self).aligned(),
        ensures
            final(self).wf(),
            final(self).aligned(),
            match old(self)@.take_cube_precise_pos() {
                Some((pos, next)) => r == Ok::<CubePrecisePos, IoError>(pos) && final(self)@
                    == next,
                None => *final(self) == *old(self) && (r matches Err(e) && e.kind
                    == IoErrorKind::UnexpectedEof),
            },
    {
        if self.source.len() < 22 {
            return Err(unexpected_eof());
        }
        let ghost rest = self.source@;
        let batch = self.read_int_pos()?;
        proof {
            assert(int_pos_of(rest.take(12)) == int_pos_of(rest.take(22))) by {
                assert(rest.take(12).subrange(0, 4) =~= rest.take(22).subrange(0, 4));
                assert(rest.take(12).subrange(4, 8) =~= rest.take(22).subrange(4, 8));
                assert(rest.take(12).subrange(8, 12) =~= rest.take(22).subrange(8, 12));
            }
            lemma_take_nibble_high(self@);
        }
        let local_x = self.read_nibble()?;
        proof {
            lemma_take_nibble_low(self@, rest[12]);
        }
        let local_y = self.read_nibble()?;
        proof {
            assert(self@.rest =~= rest.skip(13));
            lemma_take_nibble_high(self@);
        }
        let local_z = self.read_nibble()?;
        proof {
            lemma_take_nibble_low(self@, rest[13]);
        }
        let face = self.read_nibble()?;
        assert(self@.rest =~= rest.skip(14));
        let precise_x = self.read_float32()?;
        let precise_y = self.read_float32()?;
        proof {
            assert(rest.skip(14).take(4) =~= rest.take(22).subrange(14, 18));
            assert(rest.skip(14).skip(4).take(4) =~= rest.take(22).subrange(18, 22));
            assert(self@.rest =~= rest.skip(22));
        }
        Ok(
            CubePrecisePos {
                cube: CubePos { batch, local_x, local_y, local_z },
                face,
                precise_x,
                precise_y,
            },
        )
    }

    /// Reads a [FlexPos](FlexPos) from the source
    pub fn read_flex_pos(&mut self) -> (r: IoResult<FlexPos>)
        requires
            old(self).wf(),
            old(self).aligned(),
        ensures
            final(self).wf(),
            final(self).aligned(),
            match old(self)@.take_flex_pos() {
                Some((pos, next)) => r == Ok::<FlexPos, IoError>(pos) && final(self)@ == next,
                None => *final(self) == *old(self) && (r matches Err(e) && e.kind
                    == IoErrorKind::UnexpectedEof),
            },
    {
        if self.source.len() < 32 {
            return Err(unexpected_eof());
        }
        let ghost rest = self.source@;
        let batch = self.read_int_pos()?;
        let local = self.read_float_pos()?;
        let yaw = self.read_float32()?;
        let pitch = self.read_float32()?;
        proof {
            let all = rest.take(32);
            assert(int_pos_of(rest.take(12)) == int_pos_of(all)) by {
                assert(rest.take(12).subrange(0, 4) =~= all.subrange(0, 4));
                assert(rest.take(12).subrange(4, 8) =~= all.subrange(4, 8));
                assert(rest.take(12).subrange(8, 12) =~= all.subrange(8, 12));
            }
            assert(rest.skip(12).take(12) =~= all.subrange(12, 24));
            assert(rest.skip(12).skip(12).take(4) =~= all.subrange(24, 28));
            assert(rest.skip(12).skip(12).skip(4).take(4) =~= all.subrange(28, 32));
            assert(self@.rest =~= rest.skip(32));
        }
        Ok(FlexPos { batch, local, yaw, pitch })
    }
}

} // verus!
