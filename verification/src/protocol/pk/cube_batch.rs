//! A batch of cubes: sixteen by sixteen by sixteen of them.

use crate::io::cube::IntPos;
use crate::io::reader::CubeReader;
use crate::io::writer::CubeWriter;
use crate::util::{IoError, IoErrorKind, IoResult, VioResult};
use vstd::prelude::*;

verus! {

/// The identifier of [`CubeBatchSignal`].
pub const PK_LOAD_CUBE_BATCH: u16 = 0x0102;

/// How many cubes a batch holds.
pub const BATCH_CUBES: usize = 4096;

/// The cubes of one batch, and where the batch lies.
#[derive(Debug, Clone, Copy)]
pub struct CubeBatchSignal {
    pub pos: IntPos,
    pub payload: [u32; 4096],
}

/// Words on the wire, four bytes each, one after the other.
pub open spec fn words_bytes(words: Seq<u32>) -> Seq<u8>
    decreases words.len(),
{
    if words.len() == 0 {
        Seq::empty()
    } else {
        words_bytes(words.drop_last()) + crate::io::endian::be_bytes(words.last() as nat, 4)
    }
}

/// Word `index` of the words that `bytes` spell.
pub open spec fn word_at(bytes: Seq<u8>, index: int) -> u32 {
    crate::io::endian::be_value(bytes.subrange(4 * index, 4 * index + 4)) as u32
}

impl CubeBatchSignal {
    /// The identifier in two bytes, the position of the batch, then its
    /// cubes.
    pub open spec fn wire(&self) -> Seq<u8> {
        crate::io::endian::be_bytes(PK_LOAD_CUBE_BATCH as nat, 2) + crate::io::writer::int_pos_bytes(
            self.pos,
        ) + words_bytes(self.payload@)
    }

    /// The signal that follows its identifier: its position and its cubes,
    /// and what follows them.
    pub open spec fn parse(view: crate::io::reader::ReaderView) -> Option<
        (IntPos, Seq<u32>, crate::io::reader::ReaderView),
    > {
        match view.take_bytes(12 + 4 * 4096) {
            None => None,
            Some((bytes, next)) => Some(
                (
                    crate::io::reader::int_pos_of(bytes),
                    Seq::new(4096, |i: int| word_at(bytes.skip(12), i)),
                    next,
                ),
            ),
        }
    }

    /// Writes the signal, identifier first.
    pub fn write(&self, writer: &mut CubeWriter) -> (r: VioResult)
        requires
            old(writer).wf(),
            old(writer).aligned(),
        ensures
            r is Ok,
            final(writer).wf(),
            final(writer).aligned(),
            final(writer)@ == old(writer)@.push_bytes(self.wire()),
    {
        writer.write_uint16(PK_LOAD_CUBE_BATCH)?;
        writer.write_int_pos(&self.pos)?;
        let ghost head = crate::io::endian::be_bytes(PK_LOAD_CUBE_BATCH as nat, 2)
            + crate::io::writer::int_pos_bytes(self.pos);
        assert(writer@.bytes =~= old(writer)@.bytes + head + words_bytes(self.payload@.take(0)));
        let mut i: usize = 0;
        while i < 4096
            invariant
                i <= 4096,
                self.payload@.len() == 4096,
                writer.wf(),
                writer.aligned(),
                writer@.pending == old(writer)@.pending,
                writer@.bytes == old(writer)@.bytes + head + words_bytes(
                    self.payload@.take(i as int),
                ),
            decreases 4096 - i,
        {
            proof {
                assert(self.payload@.take(i + 1).drop_last() =~= self.payload@.take(i as int));
            }
            writer.write_uint32(self.payload[i])?;
            assert(writer@.bytes =~= old(writer)@.bytes + head + words_bytes(
                self.payload@.take(i + 1),
            ));
            i += 1;
        }
        assert(self.payload@.take(4096) =~= self.payload@);
        assert(writer@.bytes =~= old(writer)@.bytes + self.wire());
        Ok(())
    }

    /// Reads the signal that follows its identifier; on an error the reader
    /// stays where it was.
    pub fn read(reader: &mut CubeReader) -> (r: IoResult<CubeBatchSignal>)
        requires
            old(reader).wf(),
            old(reader).aligned(),
        ensures
            final(reader).wf(),
            final(reader).aligned(),
            match CubeBatchSignal::parse(old(reader)@) {
                Some((pos, payload, next)) => (r matches Ok(signal) && signal.pos == pos
                    && signal.payload@ == payload) && final(reader)@ == next,
                None => *final(reader) == *old(reader) && (r matches Err(e) && e.kind
                    == IoErrorKind::UnexpectedEof),
            },
    {
        if reader.source.len() < 12 + 4 * 4096 {
            return Err(crate::io::reader::unexpected_eof());
        }
        let ghost rest = reader@.rest;
        let ghost bytes = rest.take(16396);
        let pos = reader.read_int_pos()?;
        proof {
            assert(crate::io::reader::int_pos_of(rest.take(12)) == crate::io::reader::int_pos_of(
                bytes,
            )) by {
                assert(rest.take(12).subrange(0, 4) =~= bytes.subrange(0, 4));
                assert(rest.take(12).subrange(4, 8) =~= bytes.subrange(4, 8));
                assert(rest.take(12).subrange(8, 12) =~= bytes.subrange(8, 12));
            }
        }
        let mut payload = [0u32; 4096];
        let mut i: usize = 0;
        while i < 4096
            invariant
                i <= 4096,
                rest.len() >= 12 + 4 * 4096,
                bytes == rest.take(16396),
                reader.wf(),
                reader.aligned(),
                reader@.pending == old(reader)@.pending,
                reader@.rest == rest.skip(12 + 4 * i),
                payload@.len() == 4096,
                forall|j: int| 0 <= j < i ==> payload@[j] == word_at(bytes.skip(12), j),
            decreases 4096 - i,
        {
            proof {
                assert(rest.skip(12 + 4 * i).take(4) =~= bytes.skip(12).subrange(4 * i, 4 * i + 4));
                assert(rest.skip(12 + 4 * i).skip(4) =~= rest.skip(12 + 4 * (i + 1)));
            }
            let word = match reader.read_uint32() {
                Ok(word) => word,
                Err(e) => {
                    assert(false);
                    return Err(e);
                },
            };
            payload[i] = word;
            i += 1;
        }
        assert(payload@ =~= Seq::new(4096, |i: int| word_at(bytes.skip(12), i)));
        Ok(CubeBatchSignal { pos, payload })
    }
}

} // verus!
