//! Ending the connection, from either side.

use crate::io::reader::CubeReader;
use crate::io::writer::{utf8_len, CubeWriter, STRING_MAX};
use crate::util::{IoError, IoErrorKind, IoResult, VioResult};
use vstd::prelude::*;
use vstd::string::StringSliceAdditionalSpecFns;

verus! {

/// The identifier of [`ServerDisconnect`].
pub const LL_SERVER_DISCONNECT: u8 = 0x61;

/// The server ends the connection, says why, and whether the client may
/// come back.
#[derive(Debug)]
pub struct ServerDisconnect {
    pub reason: String,
    pub rejoin: bool,
}

/// A [`ServerDisconnect`] by value.
pub struct ServerDisconnectView {
    pub reason: Seq<char>,
    pub rejoin: bool,
}

impl View for ServerDisconnect {
    type V = ServerDisconnectView;

    open spec fn view(&self) -> ServerDisconnectView {
        ServerDisconnectView { reason: self.reason@, rejoin: self.rejoin }
    }
}

impl ServerDisconnectView {
    /// Whether the reason fits behind its length prefix.
    pub open spec fn fits(self) -> bool {
        vstd::utf8::encode_utf8(self.reason).len() <= STRING_MAX
    }

    /// The identifier, the reason, and a byte whose first bit says whether
    /// the client may come back.
    pub open spec fn wire(self) -> Seq<u8> {
        seq![LL_SERVER_DISCONNECT] + crate::io::writer::string_bytes(self.reason) + seq![
            crate::io::bits::flag_byte(self.rejoin),
        ]
    }

    /// The signal that follows its identifier: the reason, then one bit
    /// that says whether the client may come back, and the rest of the
    /// bit's byte, which is skipped.
    pub open spec fn parse(view: crate::io::reader::ReaderView) -> Result<
        (ServerDisconnectView, crate::io::reader::ReaderView),
        IoErrorKind,
    > {
        match view.take_string() {
            Err(kind) => Err(kind),
            Ok((reason, after)) => match after.take_bit() {
                None => Err(IoErrorKind::UnexpectedEof),
                Some((rejoin, next)) => Ok((ServerDisconnectView { reason, rejoin }, next.skip())),
            },
        }
    }
}

impl ServerDisconnect {
    /// Writes the identifier and the reason, then `rejoin` as one bit,
    /// padded to a byte; or nothing where the reason is too long for its
    /// length prefix.
    pub fn write(&self, writer: &mut CubeWriter) -> (r: VioResult)
        requires
            old(writer).wf(),
            old(writer).aligned(),
        ensures
            final(writer).wf(),
            final(writer).aligned(),
            self@.fits() ==> r is Ok && final(writer)@ == old(writer)@.push_bytes(self@.wire()),
            !self@.fits() ==> *final(writer) == *old(writer) && (r matches Err(e) && e.kind
                == IoErrorKind::Other),
    {
        if utf8_len(self.reason.as_str()) > STRING_MAX {
            return crate::util::io_error("String is too long");
        }
        writer.write_uint8(LL_SERVER_DISCONNECT)?;
        writer.write_string(self.reason.as_str())?;
        let ghost named = writer@;
        writer.write_bit(self.rejoin)?;
        writer.write_nop()?;
        proof {
            crate::io::laws::lemma_flag_written(named, self.rejoin);
            assert(writer@.bytes =~= old(writer)@.bytes + self@.wire());
            assert(writer@.pending =~= old(writer)@.pending);
        }
        Ok(())
    }

    /// Reads the signal that follows its identifier; on an error the
    /// reader stays where it was.
    pub fn read(reader: &mut CubeReader) -> (r: IoResult<Self>)
        requires
            old(reader).wf(),
            old(reader).aligned(),
        ensures
            final(reader).wf(),
            final(reader).aligned(),
            match ServerDisconnectView::parse(old(reader)@) {
                Ok((signal, next)) => (r matches Ok(read) && read@ == signal) && final(reader)@
                    == next,
                Err(kind) => *final(reader) == *old(reader) && (r matches Err(e) && e.kind == kind),
            },
    {
        let start = *reader;
        let reason = reader.read_string()?;
        let rejoin = match reader.read_bit() {
            Ok(rejoin) => rejoin,
            Err(e) => {
                *reader = start;
                return Err(e);
            },
        };
        reader.read_nop()?;
        Ok(Self { reason, rejoin })
    }
}

/// The identifier of [`ClientDisconnect`].
pub const LL_CLIENT_DISCONNECT: u8 = 0x62;

/// The client ends the connection.
#[derive(Debug, Clone, Copy, PartialEq, Eq, Structural)]
pub struct ClientDisconnect {}

impl ClientDisconnect {
    /// The identifier alone.
    pub open spec fn wire(&self) -> Seq<u8> {
        seq![LL_CLIENT_DISCONNECT]
    }

    /// Writes the identifier.
    pub fn write(&self, writer: &mut CubeWriter) -> (r: VioResult)
        requires
            old(writer).wf(),
            old(writer).aligned(),
        ensures
            r is Ok,
            final(writer).wf(),
            final(writer).aligned(),
            final(writer)@ == old(writer)@.push_bytes(self.wire()),
    {
        writer.write_uint8(LL_CLIENT_DISCONNECT)?;
        Ok(())
    }

    /// The signal has nothing behind its identifier: nothing is read.
    pub fn read(_reader: &mut CubeReader) -> (r: IoResult<Self>)
        ensures
            r == Ok::<ClientDisconnect, IoError>(ClientDisconnect {  }),
            *final(_reader) == *old(_reader),
    {
        Ok(Self {  })
    }
}

} // verus!
