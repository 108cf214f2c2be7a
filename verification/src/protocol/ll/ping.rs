//! Keeping the connection alive.

use crate::io::reader::CubeReader;
use crate::io::writer::CubeWriter;
use crate::util::{IoError, IoErrorKind, IoResult, VioResult};
use vstd::prelude::*;

verus! {

/// The identifier of [`Ping`].
pub const LL_PING: u8 = 0x81;

/// Asks the other end to answer, and says which cycle was the last.
#[derive(Debug, Clone, Copy, PartialEq, Eq, Structural)]
pub struct Ping {
    pub last_cycle: u64,
}

impl Ping {
    /// The identifier, then the cycle in eight bytes.
    pub open spec fn wire(&self) -> Seq<u8> {
        seq![LL_PING] + crate::io::endian::be_bytes(self.last_cycle as nat, 8)
    }

    /// The signal that follows its identifier.
    pub open spec fn parse(view: crate::io::reader::ReaderView) -> Option<
        (Ping, crate::io::reader::ReaderView),
    > {
        match view.take_bytes(8) {
            None => None,
            Some((bytes, next)) => Some(
                (Ping { last_cycle: crate::io::endian::be_value(bytes) as u64 }, next),
            ),
        }
    }

    /// Writes the signal, identifier first.
    pub fn write(&self, writer: &mut CubeWriter) -> (r: VioResult)
        requires
            old(writer).wf(),
            old(writer).aligned(),
        ensures
            r is Ok,
            final(writer).wf(),
            final(writer).aligned(),
            final(writer)@ == old(writer)@.push_bytes(self.wire()),
    {
        writer.write_uint8(LL_PING)?;
        writer.write_uint64(self.last_cycle)?;
        assert(writer@.bytes =~= old(writer)@.bytes + self.wire());
        Ok(())
    }

    /// Reads the signal that follows its identifier; on an error the
    /// reader stays where it was.
    pub fn read(reader: &mut CubeReader) -> (r: IoResult<Self>)
        requires
            old(reader).wf(),
            old(reader).aligned(),
        ensures
            final(reader).wf(),
            final(reader).aligned(),
            match Ping::parse(old(reader)@) {
                Some((signal, next)) => r == Ok::<Ping, IoError>(signal) && final(reader)@ == next,
                None => *final(reader) == *old(reader) && (r matches Err(e) && e.kind
                    == IoErrorKind::UnexpectedEof),
            },
    {
        Ok(Self { last_cycle: reader.read_uint64()? })
    }
}

/// The identifier of [`Pong`].
pub const LL_PONG: u8 = 0x82;

/// Answers a ping.
#[derive(Debug, Clone, Copy, PartialEq, Eq, Structural)]
pub struct Pong {}

impl Pong {
    /// The identifier alone.
    pub open spec fn wire(&self) -> Seq<u8> {
        seq![LL_PONG]
    }

    /// Writes the signal, identifier first.
    pub fn write(&self, writer: &mut CubeWriter) -> (r: VioResult)
        requires
            old(writer).wf(),
            old(writer).aligned(),
        ensures
            r is Ok,
            final(writer).wf(),
            final(writer).aligned(),
            final(writer)@ == old(writer)@.push_bytes(self.wire()),
    {
        writer.write_uint8(LL_PONG)?;
        Ok(())
    }

    /// The signal has nothing behind its identifier: nothing is read.
    pub fn read(_reader: &mut CubeReader) -> (r: IoResult<Self>)
        ensures
            r == Ok::<Pong, IoError>(Pong {  }),
            *final(_reader) == *old(_reader),
    {
        Ok(Self {  })
    }
}

} // verus!
