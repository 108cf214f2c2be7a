//! The operations of an endpoint: a signal is written or read only where
//! the connection's state allows it, and takes the connection to its next
//! state.

use crate::compiler::api::{GeneratedApi, Operation, Transition};
use crate::compiler::signal::SignalClass;
use crate::compiler::types::Types;
use crate::io::reader::{CubeReader, ReaderView};
use crate::io::writer::{CubeWriter, WriterView};
use crate::protocol::decode::decode_struct;
use crate::protocol::encode::encode_struct;
use crate::protocol::value::{FieldValue, ValueView};
use crate::protocol::{NetError, NetRet};
use crate::util::{IoError, IoErrorKind};
use vstd::prelude::*;
use vstd::string::StringExecFns;

verus! {

/// The state of a connection: the place of one of the machine's states.
#[derive(Debug, Clone, Copy, PartialEq, Eq, Structural)]
pub struct ConnectionState {
    pub place: usize,
}

/// Why an operation of an endpoint failed.
#[derive(Debug)]
pub enum SignalError {
    /// The connection's state does not allow the signal.
    State(NetError),
    /// The signal was allowed and could not be written or read. The kind
    /// tells a codec that stood where the format cannot be written or read,
    /// which is a defect of the protocol's description or of the caller,
    /// from a value that is not one of its format and from a stream that
    /// ended or holds something else.
    Codec(IoError),
}

/// Where the first of `transitions` that starts from `state` leads.
pub open spec fn next_state(transitions: Seq<Transition>, state: usize) -> Option<usize>
    decreases transitions.len(),
{
    if transitions.len() == 0 {
        None
    } else if transitions[0].from == state {
        Some(transitions[0].to)
    } else {
        next_state(transitions.drop_first(), state)
    }
}

/// What a refused operation says.
pub open spec fn denial(signal_type: Seq<char>, state: Seq<char>) -> Seq<char> {
    "Signal "@ + signal_type + " not allowed at state "@ + state
}

/// The identifier of a signal on the wire: one byte for a low-level
/// signal, two for a packed one.
pub open spec fn id_bytes(class: SignalClass, id: u16) -> Seq<u8> {
    match class {
        SignalClass::LowLevel => seq![id as u8],
        SignalClass::Packed => crate::io::endian::be_bytes(id as nat, 2),
    }
}

/// The writer after a signal: its identifier at a byte boundary, then the
/// values of its fields. A writer that stands elsewhere is an error of kind
/// `Misaligned`.
pub open spec fn encode_signal(
    formats: Seq<crate::compiler::format::FormatView>,
    class: SignalClass,
    id: u16,
    fields: Seq<(Seq<char>, usize)>,
    values: Seq<ValueView>,
    w: WriterView,
) -> Result<WriterView, IoErrorKind> {
    if w.aligned() {
        crate::protocol::encode::encode_fields(
            formats,
            formats.len() as int,
            fields,
            values,
            w.push_bytes(id_bytes(class, id)),
        )
    } else {
        Err(IoErrorKind::Misaligned)
    }
}

/// Where a transition leads, a state is.
pub proof fn lemma_next_state_within(transitions: Seq<Transition>, state: usize, count: int)
    requires
        crate::compiler::api::transitions_within(transitions, count),
    ensures
        next_state(transitions, state) matches Some(to) ==> to < count,
    decreases transitions.len(),
{
    if transitions.len() > 0 {
        assert(transitions[0].to < count);
        if transitions[0].from != state {
            assert forall|k: int|
                0 <= k < transitions.drop_first().len() implies (
            #[trigger] transitions.drop_first()[k]).from < count && transitions.drop_first()[k].to
                < count by {
                assert(transitions.drop_first()[k] == transitions[k + 1]);
            }
            lemma_next_state_within(transitions.drop_first(), state, count);
        }
    }
}

/// Where the state `state` leads under `operation`.
pub fn advance(operation: &Operation, state: ConnectionState) -> (r: Option<ConnectionState>)
    ensures
        match next_state(operation@.transitions, state.place) {
            Some(to) => r == Some(ConnectionState { place: to }),
            None => r is None,
        },
{
    let mut i: usize = 0;
    assert(operation.transitions@.skip(0) =~= operation.transitions@);
    while i < operation.transitions.len()
        invariant
            i <= operation.transitions.len(),
            next_state(operation@.transitions, state.place) == next_state(
                operation.transitions@.skip(i as int),
                state.place,
            ),
        decreases operation.transitions.len() - i,
    {
        assert(operation.transitions@.skip(i as int).drop_first() =~= operation.transitions@.skip(
            i + 1,
        ));
        if operation.transitions[i].from == state.place {
            return Some(ConnectionState { place: operation.transitions[i].to });
        }
        i += 1;
    }
    None
}

/// Lets `operation` pass where the state allows it, and moves the
/// connection to its next state; refuses it otherwise, and leaves the state
/// as it is.
pub fn gate(api: &GeneratedApi, operation: &Operation, state: &mut ConnectionState) -> (r: NetRet<
    (),
>)
    requires
        old(state).place < api.states@.len(),
    ensures
        match next_state(operation@.transitions, old(state).place) {
            Some(to) => r is Ok && final(state).place == to,
            None => *final(state) == *old(state) && (r matches Err(e) && e.description@ == denial(
                operation@.signal_type,
                api.states@[old(state).place as int]@,
            )),
        },
        crate::compiler::api::transitions_within(operation@.transitions, api.states@.len() as int)
            ==> final(state).place < api.states@.len(),
{
    proof {
        if crate::compiler::api::transitions_within(
            operation@.transitions,
            api.states@.len() as int,
        ) {
            lemma_next_state_within(
                operation@.transitions,
                state.place,
                api.states@.len() as int,
            );
        }
    }
    match advance(operation, *state) {
        Some(next) => {
            *state = next;
            Ok(())
        },
        None => {
            let text = String::from_str("Signal ").concat(operation.signal_type.as_str()).concat(
                " not allowed at state ",
            ).concat(api.states[state.place].as_str());
            Err(NetError::new(text))
        },
    }
}

/// Writes one signal: `operation` is let pass, the connection moves to its
/// next state, and then the signal's identifier and the values `payload` of
/// its fields are written. A refused operation writes nothing and leaves
/// the state. A writer that does not stand at a byte boundary leaves the
/// state too, and the error says so by its kind. An error while writing the
/// fields leaves the connection in its new state, and nothing written.
pub fn write_operation(
    api: &GeneratedApi,
    types: &Types,
    operation: &Operation,
    state: &mut ConnectionState,
    payload: &Vec<FieldValue>,
    writer: &mut CubeWriter,
) -> (r: Result<(), SignalError>)
    requires
        types.wf(),
        old(state).place < api.states@.len(),
        old(writer).wf(),
    ensures
        final(writer).wf(),
        crate::compiler::api::transitions_within(operation@.transitions, api.states@.len() as int)
            ==> final(state).place < api.states@.len(),
        match next_state(operation@.transitions, old(state).place) {
            None => *final(state) == *old(state) && *final(writer) == *old(writer) && (
            r matches Err(SignalError::State(e)) && e.description@ == denial(
                operation@.signal_type,
                api.states@[old(state).place as int]@,
            )),
            Some(to) => match encode_signal(
                types@.formats,
                operation.class,
                operation.id,
                operation@.fields,
                crate::protocol::value::views_of(payload@),
                old(writer)@,
            ) {
                Ok(w) => final(state).place == to && r is Ok && final(writer)@ == w,
                Err(kind) => final(writer)@ == old(writer)@ && (r matches Err(
                    SignalError::Codec(e),
                ) && e.kind == kind) && (if old(writer).aligned() {
                    final(state).place == to
                } else {
                    *final(state) == *old(state)
                }),
            },
        },
{
    let before = *state;
    match gate(api, operation, state) {
        Ok(()) => {},
        Err(e) => {
            return Err(SignalError::State(e));
        },
    }
    if !writer.is_complete_byte() {
        *state = before;
        return Err(
            SignalError::Codec(crate::util::misaligned("Pointer is not at a complete byte")),
        );
    }
    let mark = writer.mark();
    let wrote = match operation.class {
        SignalClass::LowLevel => writer.write_uint8(operation.id as u8),
        SignalClass::Packed => writer.write_uint16(operation.id),
    };
    match wrote {
        Ok(()) => {},
        Err(e) => {
            return Err(SignalError::Codec(e));
        },
    }
    match encode_struct(types, types.formats.len(), &operation.fields, payload, writer) {
        Ok(()) => Ok(()),
        Err(e) => {
            writer.rewind(mark);
            assert(writer.target@ =~= old(writer).target@);
            Err(SignalError::Codec(e))
        },
    }
}

/// Reads one signal whose identifier has been read: `operation` is let
/// pass, the connection moves to its next state, and then the values of the
/// signal's fields are read. A refused operation reads nothing. An error
/// while reading leaves the connection in its new state, and the reader
/// where it stood; its kind tells a reader that a format met at the wrong
/// place from a stream that ended or holds something else.
pub fn read_operation(
    api: &GeneratedApi,
    types: &Types,
    operation: &Operation,
    state: &mut ConnectionState,
    reader: &mut CubeReader,
) -> (r: Result<Vec<FieldValue>, SignalError>)
    requires
        types.wf(),
        old(state).place < api.states@.len(),
        old(reader).wf(),
    ensures
        final(reader).wf(),
        crate::compiler::api::transitions_within(operation@.transitions, api.states@.len() as int)
            ==> final(state).place < api.states@.len(),
        match next_state(operation@.transitions, old(state).place) {
            None => *final(state) == *old(state) && *final(reader) == *old(reader) && (
            r matches Err(SignalError::State(e)) && e.description@ == denial(
                operation@.signal_type,
                api.states@[old(state).place as int]@,
            )),
            Some(to) => final(state).place == to && (match crate::protocol::decode::decode_fields(
                types@.formats,
                types@.formats.len() as int,
                operation@.fields,
                old(reader)@,
            ) {
                Ok((values, next)) => (r matches Ok(read) && crate::protocol::value::views_of(
                    read@,
                ) == values) && final(reader)@ == next,
                Err(kind) => *final(reader) == *old(reader) && (r matches Err(
                    SignalError::Codec(e),
                ) && e.kind == kind),
            }),
        },
{
    match gate(api, operation, state) {
        Ok(()) => {},
        Err(e) => {
            return Err(SignalError::State(e));
        },
    }
    match decode_struct(types, types.formats.len(), &operation.fields, reader) {
        Ok(values) => Ok(values),
        Err(e) => Err(SignalError::Codec(e)),
    }
}

} // verus!
