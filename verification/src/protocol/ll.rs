//! Low-level signals: framed directly on the connection, one byte of
//! identifier each.

use crate::io::reader::CubeReader;
use crate::protocol::handler::{Received, SignalHandler};
use crate::protocol::ll::disconnect::{ClientDisconnect, ServerDisconnect};
use crate::protocol::ll::login_request::LoginRequest;
use crate::protocol::ll::package::read_package;
use crate::protocol::ll::ping::{Ping, Pong};
use crate::util::{IoErrorKind, VioResult};
use vstd::prelude::*;
use vstd::string::StringExecFns;

pub mod disconnect;
pub mod login_request;
pub mod package;
pub mod ping;

verus! {

/// One signal and the place behind it, as the outcome of a reading.
pub open spec fn one_signal(
    signal: crate::protocol::handler::Signal,
    next: crate::io::reader::ReaderView,
) -> package::FrameOutcome {
    package::FrameOutcome { signals: seq![signal], end: Ok(next) }
}

/// No signal, and the error that stopped the reading.
pub open spec fn no_signal(kind: IoErrorKind) -> package::FrameOutcome {
    package::FrameOutcome { signals: Seq::empty(), end: Err(kind) }
}

/// What handling the low-level signal at the head of the stream comes to:
/// the signals handed over (several where it is a package), and the place
/// behind it or the error. An identifier that no low-level signal has is an
/// error of kind `Other`.
pub open spec fn parse_ll(view: crate::io::reader::ReaderView) -> package::FrameOutcome {
    match view.take_bytes(1) {
        None => no_signal(IoErrorKind::UnexpectedEof),
        Some((id, after)) => if id[0] == login_request::LL_LOGIN_REQUEST {
            match login_request::LoginRequestView::parse(after) {
                Err(kind) => no_signal(kind),
                Ok((signal, next)) => one_signal(
                    crate::protocol::handler::Signal::LoginRequest(signal),
                    next,
                ),
            }
        } else if id[0] == disconnect::LL_SERVER_DISCONNECT {
            match disconnect::ServerDisconnectView::parse(after) {
                Err(kind) => no_signal(kind),
                Ok((signal, next)) => one_signal(
                    crate::protocol::handler::Signal::ServerDisconnect(signal),
                    next,
                ),
            }
        } else if id[0] == disconnect::LL_CLIENT_DISCONNECT {
            one_signal(crate::protocol::handler::Signal::ClientDisconnect(ClientDisconnect {  }), after)
        } else if id[0] == ping::LL_PING {
            match Ping::parse(after) {
                None => no_signal(IoErrorKind::UnexpectedEof),
                Some((signal, next)) => one_signal(
                    crate::protocol::handler::Signal::Ping(signal),
                    next,
                ),
            }
        } else if id[0] == ping::LL_PONG {
            one_signal(crate::protocol::handler::Signal::Pong(Pong {  }), after)
        } else if id[0] == package::LL_PACKAGE {
            package::parse_package(after)
        } else {
            no_signal(IoErrorKind::Other)
        },
    }
}

/// What is said of an identifier that no low-level signal has.
pub open spec fn unknown_low_level(id: nat) -> Seq<char> {
    "Unknown low-level signal ID "@ + crate::util::decimal_text(id)
}

/// The identifier at the head of the stream, where it is one that no
/// low-level signal has.
pub open spec fn stray_low_level(view: crate::io::reader::ReaderView) -> Option<nat> {
    match view.take_bytes(1) {
        Some((id, _)) => if id[0] != login_request::LL_LOGIN_REQUEST && id[0]
            != disconnect::LL_SERVER_DISCONNECT && id[0] != disconnect::LL_CLIENT_DISCONNECT
            && id[0] != ping::LL_PING && id[0] != ping::LL_PONG && id[0] != package::LL_PACKAGE {
            Some(id[0] as nat)
        } else {
            None
        },
        None => None,
    }
}

/// Reads one low-level signal: the signal, or of a package the packed
/// signals inside it up to its end mark or to the first error, and how the
/// reading ended. After an identifier that no low-level signal has, the
/// reader stands behind the identifier; after any other error it stands
/// where it stood.
pub fn read_ll(reader: &mut CubeReader) -> (r: (Vec<Received>, VioResult))
    requires
        old(reader).wf(),
        old(reader).aligned(),
    ensures
        final(reader).wf(),
        final(reader).aligned(),
        ({
            let outcome = parse_ll(old(reader)@);
            &&& crate::protocol::handler::signals_of(r.0@) == outcome.signals
            &&& match outcome.end {
                Ok(next) => r.1 is Ok && final(reader)@ == next,
                Err(kind) => (r.1 matches Err(e) && e.kind == kind) && (if stray_low_level(
                    old(reader)@,
                ) is Some {
                    final(reader)@ == old(reader)@.take_bytes(1)->Some_0.1
                } else {
                    *final(reader) == *old(reader)
                }),
            }
        }),
        stray_low_level(old(reader)@) matches Some(id) ==> r.1 matches Err(e) && e.description@
            == unknown_low_level(id),
{
    let start = *reader;
    let mut signals: Vec<Received> = Vec::new();
    assert(crate::protocol::handler::signals_of(signals@) =~= Seq::empty());
    let id = match reader.read_uint8() {
        Ok(id) => id,
        Err(e) => {
            return (signals, Err(e));
        },
    };
    let read = if id == login_request::LL_LOGIN_REQUEST {
        match LoginRequest::read(reader) {
            Ok(signal) => Ok(Received::LoginRequest(signal)),
            Err(e) => Err(e),
        }
    } else if id == disconnect::LL_SERVER_DISCONNECT {
        match ServerDisconnect::read(reader) {
            Ok(signal) => Ok(Received::ServerDisconnect(signal)),
            Err(e) => Err(e),
        }
    } else if id == disconnect::LL_CLIENT_DISCONNECT {
        match ClientDisconnect::read(reader) {
            Ok(signal) => Ok(Received::ClientDisconnect(signal)),
            Err(e) => Err(e),
        }
    } else if id == ping::LL_PING {
        match Ping::read(reader) {
            Ok(signal) => Ok(Received::Ping(signal)),
            Err(e) => Err(e),
        }
    } else if id == ping::LL_PONG {
        match Pong::read(reader) {
            Ok(signal) => Ok(Received::Pong(signal)),
            Err(e) => Err(e),
        }
    } else if id == package::LL_PACKAGE {
        let (inside, end) = read_package(reader);
        return match end {
            Ok(()) => (inside, Ok(())),
            Err(e) => {
                *reader = start;
                (inside, Err(e))
            },
        };
    } else {
        return (
            signals,
            Err(
                crate::util::make_io_error(
                    String::from_str("Unknown low-level signal ID ").concat(
                        crate::util::decimal(id as u64).as_str(),
                    ).as_str(),
                ),
            ),
        );
    };
    match read {
        Ok(signal) => {
            assert(crate::protocol::handler::signals_of(signals@.push(signal)) =~= seq![signal@]);
            signals.push(signal);
            (signals, Ok(()))
        },
        Err(e) => {
            *reader = start;
            (signals, Err(e))
        },
    }
}

/// Reads one low-level signal, as `read_ll` does, and hands what was read
/// to `handler`: the signal, or of a package the packed signals inside it,
/// in their order, those before an error too. For each signal the method
/// that takes signals of its kind is called once, with the handler as the
/// call before left it. After an identifier that no low-level signal has,
/// the reader stands behind the identifier; after any other error it stands
/// where it stood.
pub fn handle_ll<H: SignalHandler>(handler: &mut H, reader: &mut CubeReader) -> (r: VioResult)
    requires
        old(reader).wf(),
        old(reader).aligned(),
    ensures
        final(reader).wf(),
        final(reader).aligned(),
        match parse_ll(old(reader)@).end {
            Ok(next) => r is Ok && final(reader)@ == next,
            Err(kind) => (r matches Err(e) && e.kind == kind) && (if stray_low_level(
                old(reader)@,
            ) is Some {
                final(reader)@ == old(reader)@.take_bytes(1)->Some_0.1
            } else {
                *final(reader) == *old(reader)
            }),
        },
        stray_low_level(old(reader)@) matches Some(id) ==> r matches Err(e) && e.description@
            == unknown_low_level(id),
        exists|calls: Seq<&mut H>, states: Seq<H>, read: Seq<Received>|
            #[trigger] crate::protocol::handler::all_called(calls, states, read)
                && crate::protocol::handler::signals_of(read) == parse_ll(old(reader)@).signals
                && states[0] == *old(handler) && (forall|i: int|
                0 <= i < calls.len() ==> *final(#[trigger] calls[i]) == states[i + 1])
                && states[read.len() as int] == *final(handler),
{
    let (signals, end) = read_ll(reader);
    crate::protocol::handler::deliver_all(handler, signals);
    end
}

} // verus!
