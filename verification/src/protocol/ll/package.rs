//! Packages: many packed signals in one compressed frame.
//!
//! Inside a package each packed signal stands behind a byte whose first bit
//! is set; a byte whose first bit is clear ends the package.

use crate::io::reader::CubeReader;
use crate::io::writer::CubeWriter;
use crate::protocol::handler::{Received, SignalHandler};
use crate::util::{IoError, IoErrorKind, VioResult};
use libflate::deflate::{Decoder, Encoder};
use std::io::{Read, Write};
use vstd::prelude::*;

verus! {

/// The identifier of a package.
pub const LL_PACKAGE: u8 = 0xe1;

/// The longest compressed stream that the length of a package can announce.
pub const PACKAGE_MAX: usize = 0xFFFF_FFFF;

/// The DEFLATE stream that `libflate`'s encoder, with its default options,
/// makes of `data`; `None` where it reports an error.
pub uninterp spec fn deflated(data: Seq<u8>) -> Option<Seq<u8>>;

/// The bytes that `libflate`'s decoder reads out of the DEFLATE stream
/// `data`; `None` where it reports an error.
pub uninterp spec fn inflated(data: Seq<u8>) -> Option<Seq<u8>>;

/// Compresses `data` with `libflate::deflate::Encoder`: everything is
/// written to a new encoder, which is then finished. What the encoder gives
/// depends on the bytes of `data` alone: its stream, or its error, which is
/// given as text.
#[verifier::external_body]
fn deflate(data: &[u8]) -> (r: Result<Vec<u8>, String>)
    ensures
        match r {
            Ok(packed) => deflated(data@) == Some(packed@),
            Err(_) => deflated(data@) is None,
        },
{
    let mut encoder = Encoder::new(Vec::new());
    match encoder.write_all(data) {
        Ok(()) => encoder.finish().into_result().map_err(|e| e.to_string()),
        Err(e) => Err(e.to_string()),
    }
}

/// Decompresses `data` with `libflate::deflate::Decoder`, read to its end.
/// The error is the decoder's, as text.
#[verifier::external_body]
fn inflate(data: &[u8]) -> (r: Result<Vec<u8>, String>)
    ensures
        match r {
            Ok(plain) => inflated(data@) == Some(plain@),
            Err(_) => inflated(data@) is None,
        },
{
    let mut plain = Vec::new();
    match Decoder::new(data).read_to_end(&mut plain) {
        Ok(_) => Ok(plain),
        Err(e) => Err(e.to_string()),
    }
}

/// A package on the wire: its identifier, the length of the compressed
/// stream in four bytes, and the stream.
pub open spec fn package_wire(compressed: Seq<u8>) -> Seq<u8> {
    seq![LL_PACKAGE] + crate::io::endian::be_bytes(compressed.len(), 4) + compressed
}

/// What reading the inside of a package comes to: the signals handed over,
/// in order, and either the place behind the end mark or the error that
/// stopped the reading.
pub struct FrameOutcome {
    pub signals: Seq<crate::protocol::handler::Signal>,
    pub end: Result<crate::io::reader::ReaderView, IoErrorKind>,
}

/// Reads the inside of a package from a byte boundary: a byte with its
/// first bit set, then a packed signal, again and again, until a byte with
/// its first bit clear.
pub open spec fn parse_frame(view: crate::io::reader::ReaderView) -> FrameOutcome
    decreases view.rest.len(),
{
    if view.rest.len() == 0 {
        FrameOutcome { signals: Seq::empty(), end: Err(IoErrorKind::UnexpectedEof) }
    } else {
        let after = crate::io::reader::ReaderView::over(view.rest.drop_first());
        if crate::io::bits::bit_at(view.rest[0], 0) {
            match crate::protocol::pk::parse_pk(after) {
                Err(kind) => FrameOutcome { signals: Seq::empty(), end: Err(kind) },
                Ok((signal, next)) => if next.rest.len() < view.rest.len() {
                    let more = parse_frame(next);
                    FrameOutcome { signals: seq![signal] + more.signals, end: more.end }
                } else {
                    FrameOutcome { signals: seq![signal], end: Err(IoErrorKind::Other) }
                },
            }
        } else {
            FrameOutcome { signals: Seq::empty(), end: Ok(after) }
        }
    }
}

/// What handling a package comes to, the package standing behind its
/// identifier: the signals handed over, and either the place behind the
/// package or the error.
pub open spec fn parse_package(view: crate::io::reader::ReaderView) -> FrameOutcome {
    match view.take_bytes(4) {
        None => FrameOutcome { signals: Seq::empty(), end: Err(IoErrorKind::UnexpectedEof) },
        Some((length, after)) => match after.take_bytes(crate::io::endian::be_value(length)) {
            None => FrameOutcome { signals: Seq::empty(), end: Err(IoErrorKind::UnexpectedEof) },
            Some((compressed, next)) => match inflated(compressed) {
                None => FrameOutcome { signals: Seq::empty(), end: Err(IoErrorKind::InvalidData) },
                Some(plain) => {
                    let inside = parse_frame(crate::io::reader::ReaderView::over(plain));
                    FrameOutcome {
                        signals: inside.signals,
                        end: match inside.end {
                            Ok(_) => Ok(next),
                            Err(kind) => Err(kind),
                        },
                    }
                },
            },
        },
    }
}

/// Collects packed signals and sends them as one package.
pub struct PackageWriter {
    /// The inside of the package that is being collected, uncompressed.
    pub cube: CubeWriter,
}

impl PackageWriter {
    /// A writer that has collected nothing yet.
    pub fn new() -> (w: Self)
        ensures
            w.cube.wf(),
            w.cube.aligned(),
            w.cube@.bytes == Seq::<u8>::empty(),
    {
        Self { cube: CubeWriter::new(Vec::new()) }
    }

    /// Marks that one more packed signal follows: a set bit, padded to a
    /// byte. The caller then writes the signal to `cube`.
    pub fn begin_signal(&mut self) -> (r: VioResult)
        requires
            old(self).cube.wf(),
            old(self).cube.aligned(),
        ensures
            r is Ok,
            final(self).cube.wf(),
            final(self).cube.aligned(),
            final(self).cube@ == old(self).cube@.push_bit(true).pad(),
    {
        self.cube.write_bit(true)?;
        self.cube.write_nop()?;
        Ok(())
    }

    /// Ends the package that is being collected and sends it through
    /// `writer`: the end mark is added, the inside is compressed, and the
    /// package is written. It is sent wherever the encoder gives a stream
    /// and the stream is no longer than a package's length can announce;
    /// otherwise nothing is written. A new package is begun in every case.
    pub fn flush(&mut self, writer: &mut CubeWriter) -> (r: VioResult)
        requires
            old(self).cube.wf(),
            old(self).cube.aligned(),
            old(writer).wf(),
            old(writer).aligned(),
        ensures
            final(self).cube.wf(),
            final(self).cube.aligned(),
            final(self).cube@.bytes == Seq::<u8>::empty(),
            final(writer).wf(),
            final(writer).aligned(),
            match deflated(old(self).cube@.push_bit(false).pad().bytes) {
                Some(compressed) => if compressed.len() <= PACKAGE_MAX {
                    r is Ok && final(writer)@ == old(writer)@.push_bytes(package_wire(compressed))
                } else {
                    *final(writer) == *old(writer) && (r matches Err(e) && e.kind
                        == IoErrorKind::Other && e.description@ == "Package is too long"@)
                },
                None => *final(writer) == *old(writer) && (r matches Err(e) && e.kind
                    == IoErrorKind::Other),
            },
    {
        self.cube.ensure_complete_byte();
        self.cube.write_bit(false)?;
        self.cube.write_nop()?;
        let packed = deflate(self.cube.target.as_slice());
        self.cube = CubeWriter::new(Vec::new());
        match packed {
            Ok(compressed) => write_package(writer, compressed.as_slice()),
            Err(text) => Err(IoError { kind: IoErrorKind::Other, description: text }),
        }
    }
}

/// Sends a package whose compressed inside is `compressed`: the identifier,
/// the length, the bytes. Nothing is written where the length does not fit
/// its four bytes.
pub fn write_package(writer: &mut CubeWriter, compressed: &[u8]) -> (r: VioResult)
    requires
        old(writer).wf(),
        old(writer).aligned(),
    ensures
        final(writer).wf(),
        final(writer).aligned(),
        compressed@.len() <= PACKAGE_MAX ==> r is Ok && final(writer)@ == old(writer)@.push_bytes(
            package_wire(compressed@),
        ),
        compressed@.len() > PACKAGE_MAX ==> *final(writer) == *old(writer) && (r matches Err(e)
            && e.kind == IoErrorKind::Other && e.description@ == "Package is too long"@),
{
    if compressed.len() > PACKAGE_MAX {
        return crate::util::io_error("Package is too long");
    }
    writer.write_uint8(LL_PACKAGE)?;
    writer.write_uint32(compressed.len() as u32)?;
    writer.write_bytes(compressed)?;
    assert(writer@.bytes =~= old(writer)@.bytes + package_wire(compressed@));
    Ok(())
}

/// A packed signal leaves less to read than there was before it.
pub proof fn lemma_parse_pk_advances(view: crate::io::reader::ReaderView)
    ensures
        crate::protocol::pk::parse_pk(view) matches Ok((_, next)) ==> next.rest.len()
            < view.rest.len() && next.pending == view.pending,
{
    reveal(crate::protocol::pk::parse_pk);
    match view.take_bytes(2) {
        None => {},
        Some((id, after)) => {
            if crate::io::endian::be_value(id) == crate::protocol::pk::cube_dict::PK_LOAD_CUBE_DICT {
                crate::protocol::pk::cube_dict::lemma_parse_advances(after);
            }
        },
    }
}

/// Reads the inside of a package, `plain`: the packed signals up to the end
/// mark or to the first error, and how the reading ended.
pub fn read_frame(plain: &[u8]) -> (r: (Vec<Received>, VioResult))
    ensures
        ({
            let outcome = parse_frame(crate::io::reader::ReaderView::over(plain@));
            &&& crate::protocol::handler::signals_of(r.0@) == outcome.signals
            &&& match outcome.end {
                Ok(_) => r.1 is Ok,
                Err(kind) => r.1 matches Err(e) && e.kind == kind,
            }
        }),
{
    let mut cube = CubeReader::new(plain);
    let mut signals: Vec<Received> = Vec::new();
    let ghost whole = parse_frame(cube@);
    assert(crate::protocol::handler::signals_of(signals@) =~= Seq::empty());
    assert(Seq::<crate::protocol::handler::Signal>::empty() + whole.signals =~= whole.signals);
    loop
        invariant
            cube.wf(),
            cube.aligned(),
            cube@.pending.len() == 0,
            whole == (FrameOutcome {
                signals: crate::protocol::handler::signals_of(signals@) + parse_frame(
                    cube@,
                ).signals,
                end: parse_frame(cube@).end,
            }),
            whole == parse_frame(crate::io::reader::ReaderView::over(plain@)),
        decreases cube@.rest.len(),
    {
        let ghost before = cube@;
        let ghost done = crate::protocol::handler::signals_of(signals@);
        assert(before =~= crate::io::reader::ReaderView::over(before.rest)) by {
            assert(before.pending =~= Seq::empty());
        }
        let more = match cube.read_bit() {
            Ok(bit) => bit,
            Err(e) => {
                assert(done + Seq::<crate::protocol::handler::Signal>::empty() =~= done);
                return (signals, Err(e));
            },
        };
        match cube.read_nop() {
            Ok(()) => {},
            Err(e) => {
                return (signals, Err(e));
            },
        }
        assert(cube@ == crate::io::reader::ReaderView::over(before.rest.drop_first()));
        assert(more == crate::io::bits::bit_at(before.rest[0], 0));
        if !more {
            assert(done + Seq::<crate::protocol::handler::Signal>::empty() =~= done);
            return (signals, Ok(()));
        }
        let ghost after = cube@;
        proof {
            lemma_parse_pk_advances(after);
        }
        match crate::protocol::pk::read_pk(&mut cube) {
            Ok(signal) => {
                proof {
                    let next = crate::protocol::pk::parse_pk(after)->Ok_0.1;
                    assert(cube@ == next);
                    assert(done + (seq![signal@] + parse_frame(next).signals) =~= done.push(
                        signal@,
                    ) + parse_frame(next).signals);
                    assert(crate::protocol::handler::signals_of(signals@.push(signal))
                        =~= done.push(signal@));
                }
                signals.push(signal);
            },
            Err(e) => {
                assert(done + Seq::<crate::protocol::handler::Signal>::empty() =~= done);
                return (signals, Err(e));
            },
        }
    }
}

/// Reads the inside of a package, as `read_frame` does, and hands the
/// packed signals that were read to `handler`, in their order, those before
/// an error too: for each, the method that takes signals of its kind is
/// called once, with the handler as the call before left it.
pub fn handle_frame<H: SignalHandler>(handler: &mut H, plain: &[u8]) -> (r: VioResult)
    ensures
        match parse_frame(crate::io::reader::ReaderView::over(plain@)).end {
            Ok(_) => r is Ok,
            Err(kind) => r matches Err(e) && e.kind == kind,
        },
        exists|calls: Seq<&mut H>, states: Seq<H>, read: Seq<Received>|
            #[trigger] crate::protocol::handler::all_called(calls, states, read)
                && crate::protocol::handler::signals_of(read) == parse_frame(
                crate::io::reader::ReaderView::over(plain@),
            ).signals && states[0] == *old(handler) && (forall|i: int|
                0 <= i < calls.len() ==> *final(#[trigger] calls[i]) == states[i + 1])
                && states[read.len() as int] == *final(handler),
{
    let (signals, end) = read_frame(plain);
    crate::protocol::handler::deliver_all(handler, signals);
    end
}

/// Reads a package that stands behind its identifier: the packed signals
/// inside it, up to the end mark or to the first error, and how the reading
/// ended. After a package that was read to its end mark the reader stands
/// behind the compressed stream, whatever the stream holds behind the mark;
/// after an error it stands where it stood.
pub fn read_package(reader: &mut CubeReader) -> (r: (Vec<Received>, VioResult))
    requires
        old(reader).wf(),
        old(reader).aligned(),
    ensures
        final(reader).wf(),
        final(reader).aligned(),
        ({
            let outcome = parse_package(old(reader)@);
            &&& crate::protocol::handler::signals_of(r.0@) == outcome.signals
            &&& match outcome.end {
                Ok(next) => r.1 is Ok && final(reader)@ == next,
                Err(kind) => *final(reader) == *old(reader) && (r.1 matches Err(e) && e.kind
                    == kind),
            }
        }),
{
    let start = *reader;
    let nothing: Vec<Received> = Vec::new();
    assert(crate::protocol::handler::signals_of(nothing@) =~= Seq::empty());
    let size = match reader.read_uint32() {
        Ok(size) => size as usize,
        Err(e) => {
            return (nothing, Err(e));
        },
    };
    if reader.source.len() < size {
        *reader = start;
        return (nothing, Err(crate::io::reader::unexpected_eof()));
    }
    let mut compressed: Vec<u8> = Vec::new();
    compressed.resize(size, 0);
    match reader.read_bytes(compressed.as_mut_slice()) {
        Ok(()) => {},
        Err(e) => {
            *reader = start;
            return (nothing, Err(e));
        },
    }
    let plain = match inflate(compressed.as_slice()) {
        Ok(plain) => plain,
        Err(text) => {
            *reader = start;
            return (nothing, Err(IoError { kind: IoErrorKind::InvalidData, description: text }));
        },
    };
    let (signals, end) = read_frame(plain.as_slice());
    match end {
        Ok(()) => (signals, Ok(())),
        Err(e) => {
            *reader = start;
            (signals, Err(e))
        },
    }
}

/// Reads a package, as `read_package` does, and hands the packed signals
/// that were read to `handler`, in their order, those before an error too:
/// for each, the method that takes signals of its kind is called once, with
/// the handler as the call before left it.
pub fn handle_package<H: SignalHandler>(handler: &mut H, reader: &mut CubeReader) -> (r: VioResult)
    requires
        old(reader).wf(),
        old(reader).aligned(),
    ensures
        final(reader).wf(),
        final(reader).aligned(),
        match parse_package(old(reader)@).end {
            Ok(next) => r is Ok && final(reader)@ == next,
            Err(kind) => *final(reader) == *old(reader) && (r matches Err(e) && e.kind == kind),
        },
        exists|calls: Seq<&mut H>, states: Seq<H>, read: Seq<Received>|
            #[trigger] crate::protocol::handler::all_called(calls, states, read)
                && crate::protocol::handler::signals_of(read) == parse_package(
                old(reader)@,
            ).signals && states[0] == *old(handler) && (forall|i: int|
                0 <= i < calls.len() ==> *final(#[trigger] calls[i]) == states[i + 1])
                && states[read.len() as int] == *final(handler),
{
    let (signals, end) = read_package(reader);
    crate::protocol::handler::deliver_all(handler, signals);
    end
}

} // verus!
