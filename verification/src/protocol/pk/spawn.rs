//! Where the player comes into the world.

use crate::io::flex::FlexPos;
use crate::io::reader::CubeReader;
use crate::io::writer::CubeWriter;
use crate::util::{IoError, IoErrorKind, IoResult, VioResult};
use vstd::prelude::*;

verus! {

/// The identifier of [`SpawnSignal`].
pub const PK_SPAWN_SPAWN: u16 = 0x0201;

/// The player comes into the world at `pos`.
#[derive(Debug, Clone, Copy, PartialEq, Eq, Structural)]
pub struct SpawnSignal {
    pub pos: FlexPos,
}

impl SpawnSignal {
    /// The identifier in two bytes, then the position.
    pub open spec fn wire(&self) -> Seq<u8> {
        crate::io::endian::be_bytes(PK_SPAWN_SPAWN as nat, 2) + crate::io::writer::flex_pos_bytes(
            self.pos,
        )
    }

    /// The signal that follows its identifier.
    pub open spec fn parse(view: crate::io::reader::ReaderView) -> Option<
        (SpawnSignal, crate::io::reader::ReaderView),
    > {
        match view.take_flex_pos() {
            None => None,
            Some((pos, next)) => Some((SpawnSignal { pos }, next)),
        }
    }

    /// Writes the signal, identifier first.
    pub fn write(&self, writer: &mut CubeWriter) -> (r: VioResult)
        requires
            old(writer).wf(),
            old(writer).aligned(),
        ensures
            r is Ok,
            final(writer).wf(),
            final(writer).aligned(),
            final(writer)@ == old(writer)@.push_bytes(self.wire()),
    {
        writer.write_uint16(PK_SPAWN_SPAWN)?;
        writer.write_flex_pos(&self.pos)?;
        assert(writer@.bytes =~= old(writer)@.bytes + self.wire());
        Ok(())
    }

    /// Reads the signal that follows its identifier; on an error the
    /// reader stays where it was.
    pub fn read(reader: &mut CubeReader) -> (r: IoResult<SpawnSignal>)
        requires
            old(reader).wf(),
            old(reader).aligned(),
        ensures
            final(reader).wf(),
            final(reader).aligned(),
            match SpawnSignal::parse(old(reader)@) {
                Some((signal, next)) => r == Ok::<SpawnSignal, IoError>(signal) && final(reader)@
                    == next,
                None => *final(reader) == *old(reader) && (r matches Err(e) && e.kind
                    == IoErrorKind::UnexpectedEof),
            },
    {
        Ok(SpawnSignal { pos: reader.read_flex_pos()? })
    }
}

} // verus!
