//! The signals of the protocol and the errors of exchanging them.

use crate::compiler::api::{GeneratedApi, Operation};
use crate::compiler::types::Types;
use crate::io::reader::CubeReader;
use crate::io::writer::CubeWriter;
use crate::protocol::endpoint::{read_operation, write_operation, ConnectionState, SignalError};
use crate::protocol::value::FieldValue;
use vstd::prelude::*;
use vstd::string::StringExecFns;

pub mod boundary;
pub mod decode;
pub mod encode;
pub mod endpoint;
pub mod fidelity;
pub mod handler;
pub mod laws;
pub mod ll;
pub mod pk;
pub mod value;

verus! {

/// A failure of the protocol, as opposed to one of the stream or of the
/// codec: a signal that the connection's state does not allow.
#[derive(Debug)]
pub struct NetError {
    pub description: String,
}

impl NetError {
    /// The failure that `description` describes.
    pub fn new(description: String) -> (e: NetError)
        ensures
            e.description == description,
    {
        NetError { description }
    }
}

/// What an operation of an endpoint returns.
pub type NetRet<T> = Result<T, NetError>;

/// `Err` of the failure that `description` describes.
pub fn make_err<T>(description: String) -> (r: Result<T, NetError>)
    ensures
        r matches Err(e) && e.description == description,
{
    Err(NetError { description })
}

/// [`make_err`] for a borrowed description.
pub fn make_str_err<T>(description: &str) -> (r: Result<T, NetError>)
    ensures
        r matches Err(e) && e.description@ == description@,
{
    make_err(String::from_str(description))
}

/// The initiating end of a connection: its state, what it writes to and what it reads from.
pub struct Client<'a> {
    pub state: ConnectionState,
    pub write: CubeWriter,
    pub read: CubeReader<'a>,
}

impl<'a> Client<'a> {
    /// A connection in the state `state`, which whoever makes the
    /// connection decides.
    pub fn new(state: ConnectionState, write: CubeWriter, read: CubeReader<'a>) -> (r: Self)
        ensures
            r.state == state,
            r.write == write,
            r.read == read,
    {
        Self { state, write, read }
    }

    /// Writes the signal of `operation` with the values `payload` of its
    /// fields, where the state allows it.
    pub fn write_signal(
        &mut self,
        api: &GeneratedApi,
        types: &Types,
        operation: &Operation,
        payload: &Vec<FieldValue>,
    ) -> (r: Result<(), SignalError>)
        requires
            types.wf(),
            old(self).state.place < api.states@.len(),
            old(self).write.wf(),
        ensures
            final(self).write.wf(),
            final(self).read == old(self).read,
            crate::compiler::api::transitions_within(
                operation@.transitions,
                api.states@.len() as int,
            ) ==> final(self).state.place < api.states@.len(),
            match crate::protocol::endpoint::next_state(
                operation@.transitions,
                old(self).state.place,
            ) {
                None => final(self).state == old(self).state && final(self).write == old(
                    self,
                ).write && (r matches Err(SignalError::State(e)) && e.description@
                    == crate::protocol::endpoint::denial(
                    operation@.signal_type,
                    api.states@[old(self).state.place as int]@,
                )),
                Some(to) => match crate::protocol::endpoint::encode_signal(
                    types@.formats,
                    operation.class,
                    operation.id,
                    operation@.fields,
                    crate::protocol::value::views_of(payload@),
                    old(self).write@,
                ) {
                    Ok(w) => final(self).state.place == to && r is Ok && final(self).write@ == w,
                    Err(kind) => final(self).write@ == old(self).write@ && (r matches Err(
                        SignalError::Codec(e),
                    ) && e.kind == kind) && (if old(self).write.aligned() {
                        final(self).state.place == to
                    } else {
                        final(self).state == old(self).state
                    }),
                },
            },
    {
        write_operation(api, types, operation, &mut self.state, payload, &mut self.write)
    }

    /// Reads the values of the fields of the signal of `operation`, whose
    /// identifier has been read, where the state allows it.
    pub fn read_signal(&mut self, api: &GeneratedApi, types: &Types, operation: &Operation) -> (r:
        Result<Vec<FieldValue>, SignalError>)
        requires
            types.wf(),
            old(self).state.place < api.states@.len(),
            old(self).read.wf(),
        ensures
            final(self).read.wf(),
            final(self).write == old(self).write,
            crate::compiler::api::transitions_within(
                operation@.transitions,
                api.states@.len() as int,
            ) ==> final(self).state.place < api.states@.len(),
            match crate::protocol::endpoint::next_state(
                operation@.transitions,
                old(self).state.place,
            ) {
                None => final(self).state == old(self).state && final(self).read == old(
                    self,
                ).read && (r matches Err(SignalError::State(e)) && e.description@
                    == crate::protocol::endpoint::denial(
                    operation@.signal_type,
                    api.states@[old(self).state.place as int]@,
                )),
                Some(to) => final(self).state.place == to && (
                match crate::protocol::decode::decode_fields(
                    types@.formats,
                    types@.formats.len() as int,
                    operation@.fields,
                    old(self).read@,
                ) {
                    Ok((values, next)) => (r matches Ok(read) && crate::protocol::value::views_of(
                        read@,
                    ) == values) && final(self).read@ == next,
                    Err(kind) => final(self).read == old(self).read && (r matches Err(
                        SignalError::Codec(e),
                    ) && e.kind == kind),
                }),
            },
    {
        read_operation(api, types, operation, &mut self.state, &mut self.read)
    }
}

/// The responding end of a connection: its state, what it writes to and what it reads from.
pub struct Server<'a> {
    pub state: ConnectionState,
    pub write: CubeWriter,
    pub read: CubeReader<'a>,
}

impl<'a> Server<'a> {
    /// A connection in the state `state`, which whoever makes the
    /// connection decides.
    pub fn new(state: ConnectionState, write: CubeWriter, read: CubeReader<'a>) -> (r: Self)
        ensures
            r.state == state,
            r.write == write,
            r.read == read,
    {
        Self { state, write, read }
    }

    /// Writes the signal of `operation` with the values `payload` of its
    /// fields, where the state allows it.
    pub fn write_signal(
        &mut self,
        api: &GeneratedApi,
        types: &Types,
        operation: &Operation,
        payload: &Vec<FieldValue>,
    ) -> (r: Result<(), SignalError>)
        requires
            types.wf(),
            old(self).state.place < api.states@.len(),
            old(self).write.wf(),
        ensures
            final(self).write.wf(),
            final(self).read == old(self).read,
            crate::compiler::api::transitions_within(
                operation@.transitions,
                api.states@.len() as int,
            ) ==> final(self).state.place < api.states@.len(),
            match crate::protocol::endpoint::next_state(
                operation@.transitions,
                old(self).state.place,
            ) {
                None => final(self).state == old(self).state && final(self).write == old(
                    self,
                ).write && (r matches Err(SignalError::State(e)) && e.description@
                    == crate::protocol::endpoint::denial(
                    operation@.signal_type,
                    api.states@[old(self).state.place as int]@,
                )),
                Some(to) => match crate::protocol::endpoint::encode_signal(
                    types@.formats,
                    operation.class,
                    operation.id,
                    operation@.fields,
                    crate::protocol::value::views_of(payload@),
                    old(self).write@,
                ) {
                    Ok(w) => final(self).state.place == to && r is Ok && final(self).write@ == w,
                    Err(kind) => final(self).write@ == old(self).write@ && (r matches Err(
                        SignalError::Codec(e),
                    ) && e.kind == kind) && (if old(self).write.aligned() {
                        final(self).state.place == to
                    } else {
                        final(self).state == old(self).state
                    }),
                },
            },
    {
        write_operation(api, types, operation, &mut self.state, payload, &mut self.write)
    }

    /// Reads the values of the fields of the signal of `operation`, whose
    /// identifier has been read, where the state allows it.
    pub fn read_signal(&mut self, api: &GeneratedApi, types: &Types, operation: &Operation) -> (r:
        Result<Vec<FieldValue>, SignalError>)
        requires
            types.wf(),
            old(self).state.place < api.states@.len(),
            old(self).read.wf(),
        ensures
            final(self).read.wf(),
            final(self).write == old(self).write,
            crate::compiler::api::transitions_within(
                operation@.transitions,
                api.states@.len() as int,
            ) ==> final(self).state.place < api.states@.len(),
            match crate::protocol::endpoint::next_state(
                operation@.transitions,
                old(self).state.place,
            ) {
                None => final(self).state == old(self).state && final(self).read == old(
                    self,
                ).read && (r matches Err(SignalError::State(e)) && e.description@
                    == crate::protocol::endpoint::denial(
                    operation@.signal_type,
                    api.states@[old(self).state.place as int]@,
                )),
                Some(to) => final(self).state.place == to && (
                match crate::protocol::decode::decode_fields(
                    types@.formats,
                    types@.formats.len() as int,
                    operation@.fields,
                    old(self).read@,
                ) {
                    Ok((values, next)) => (r matches Ok(read) && crate::protocol::value::views_of(
                        read@,
                    ) == values) && final(self).read@ == next,
                    Err(kind) => final(self).read == old(self).read && (r matches Err(
                        SignalError::Codec(e),
                    ) && e.kind == kind),
                }),
            },
    {
        read_operation(api, types, operation, &mut self.state, &mut self.read)
    }
}

} // verus!
