//! Packed signals: carried inside a package, two bytes of identifier each.

use crate::io::reader::CubeReader;
use crate::protocol::handler::{Received, SignalHandler};
use crate::protocol::pk::cube_dict::CubeDict;
use crate::protocol::pk::spawn::SpawnSignal;
use crate::util::{IoErrorKind, IoResult, VioResult};
use vstd::prelude::*;
use vstd::string::StringExecFns;

pub mod cube_batch;
pub mod cube_dict;
pub mod spawn;

verus! {

/// The packed signal at the head of the stream, identifier first, and what
/// follows it. An identifier that no packed signal has is an error of kind
/// `Other`.
#[verifier::opaque]
pub open spec fn parse_pk(view: crate::io::reader::ReaderView) -> Result<
    (crate::protocol::handler::Signal, crate::io::reader::ReaderView),
    IoErrorKind,
> {
    match view.take_bytes(2) {
        None => Err(IoErrorKind::UnexpectedEof),
        Some((id, after)) => if crate::io::endian::be_value(id) == cube_dict::PK_LOAD_CUBE_DICT {
            match cube_dict::CubeDictView::parse(after) {
                Err(kind) => Err(kind),
                Ok((signal, next)) => Ok((crate::protocol::handler::Signal::CubeDict(signal), next)),
            }
        } else if crate::io::endian::be_value(id) == spawn::PK_SPAWN_SPAWN {
            match SpawnSignal::parse(after) {
                None => Err(IoErrorKind::UnexpectedEof),
                Some((signal, next)) => Ok((crate::protocol::handler::Signal::Spawn(signal), next)),
            }
        } else {
            Err(IoErrorKind::Other)
        },
    }
}

/// What is said of an identifier that no packed signal has.
pub open spec fn unknown_packed(id: nat) -> Seq<char> {
    "Unknown packed signal ID "@ + crate::util::decimal_text(id)
}

/// The identifier at the head of the stream, where it is one that no packed
/// signal has.
pub open spec fn stray_packed(view: crate::io::reader::ReaderView) -> Option<nat> {
    match view.take_bytes(2) {
        Some((id, _)) => if crate::io::endian::be_value(id) != cube_dict::PK_LOAD_CUBE_DICT
            && crate::io::endian::be_value(id) != spawn::PK_SPAWN_SPAWN {
            Some(crate::io::endian::be_value(id))
        } else {
            None
        },
        None => None,
    }
}

/// Reads one packed signal. After an identifier that no packed signal has,
/// the reader stands behind the identifier; after any other error it stands
/// where it stood.
pub fn read_pk(reader: &mut CubeReader) -> (r: IoResult<Received>)
    requires
        old(reader).wf(),
        old(reader).aligned(),
    ensures
        final(reader).wf(),
        final(reader).aligned(),
        match parse_pk(old(reader)@) {
            Ok((signal, next)) => (r matches Ok(read) && read@ == signal) && final(reader)@ == next,
            Err(kind) => (r matches Err(e) && e.kind == kind) && (if stray_packed(old(reader)@)
                is Some {
                final(reader)@ == old(reader)@.take_bytes(2)->Some_0.1
            } else {
                *final(reader) == *old(reader)
            }),
        },
        stray_packed(old(reader)@) matches Some(id) ==> r matches Err(e) && e.description@
            == unknown_packed(id),
{
    reveal(parse_pk);
    let start = *reader;
    let id = reader.read_uint16()?;
    let read = if id == cube_dict::PK_LOAD_CUBE_DICT {
        match CubeDict::read(reader) {
            Ok(signal) => Ok(Received::CubeDict(signal)),
            Err(e) => Err(e),
        }
    } else if id == spawn::PK_SPAWN_SPAWN {
        match SpawnSignal::read(reader) {
            Ok(signal) => Ok(Received::Spawn(signal)),
            Err(e) => Err(e),
        }
    } else {
        return Err(
            crate::util::make_io_error(
                String::from_str("Unknown packed signal ID ").concat(
                    crate::util::decimal(id as u64).as_str(),
                ).as_str(),
            ),
        );
    };
    match read {
        Ok(signal) => Ok(signal),
        Err(e) => {
            *reader = start;
            Err(e)
        },
    }
}

/// Reads one packed signal, as `read_pk` does, and hands it to `handler`:
/// the method that takes signals of its kind is called once, with the
/// signal that was read. After an error nothing is handed over; the reader
/// then stands behind the identifier where that is one that no packed signal
/// has, and where it stood otherwise.
pub fn handle_pk<H: SignalHandler>(handler: &mut H, reader: &mut CubeReader) -> (r: VioResult)
    requires
        old(reader).wf(),
        old(reader).aligned(),
    ensures
        final(reader).wf(),
        final(reader).aligned(),
        match parse_pk(old(reader)@) {
            Ok((_, next)) => r is Ok && final(reader)@ == next,
            Err(kind) => (r matches Err(e) && e.kind == kind) && (if stray_packed(old(reader)@)
                is Some {
                final(reader)@ == old(reader)@.take_bytes(2)->Some_0.1
            } else {
                *final(reader) == *old(reader)
            }),
        },
        stray_packed(old(reader)@) matches Some(id) ==> r matches Err(e) && e.description@
            == unknown_packed(id),
        match parse_pk(old(reader)@) {
            Ok((signal, _)) => exists|call: &mut H, read: Received|
                #[trigger] crate::protocol::handler::called(call, read) && read@ == signal
                    && *call == *old(handler) && *final(call) == *final(handler),
            Err(_) => *final(handler) == *old(handler),
        },
{
    match read_pk(reader) {
        Ok(signal) => {
            crate::protocol::handler::deliver(handler, signal);
            Ok(())
        },
        Err(e) => Err(e),
    }
}

} // verus!
