//! What the compiler makes of a protocol: a description of the code to be
//! generated, as plain data.

use crate::compiler::format::{FieldFormat, FormatView, ScalarKind};
use crate::compiler::signal::{SignalClass, SignalId};
use crate::compiler::types::Types;
use vstd::prelude::*;

verus! {

/// The type of the value that a format decodes to.
#[derive(Debug, PartialEq, Eq)]
pub enum ReturnType {
    /// No value.
    Unit,
    /// The scalar's own type.
    Scalar(ScalarKind),
    /// An array of so many bytes.
    Bytes(usize),
    /// The inner type, or nothing.
    Optional(Box<ReturnType>),
    /// A structured value.
    Json,
    /// An array of so many elements.
    Array(Box<ReturnType>, usize),
    /// A list of elements.
    List(Box<ReturnType>),
    /// The structure whose format stands at this place of the row.
    Struct(usize),
}

/// The type of the values of the format at `place` of `formats`.
pub open spec fn return_type_of(formats: Seq<FormatView>, place: int) -> ReturnType
    decreases place,
{
    if 0 <= place < formats.len() && formats[place].refers_below(place) {
        match formats[place] {
            FormatView::Nop => ReturnType::Unit,
            FormatView::Simple(kind) => ReturnType::Scalar(kind),
            FormatView::ByteArray(length) => ReturnType::Bytes(length),
            FormatView::Optional(inner) => ReturnType::Optional(
                Box::new(return_type_of(formats, inner as int)),
            ),
            FormatView::Json => ReturnType::Json,
            FormatView::Struct(_) => ReturnType::Struct(place as usize),
            FormatView::Array(size, each) => ReturnType::Array(
                Box::new(return_type_of(formats, each as int)),
                size,
            ),
            FormatView::Prefix(_, each) => ReturnType::List(
                Box::new(return_type_of(formats, each as int)),
            ),
            FormatView::Tail(each) => ReturnType::List(
                Box::new(return_type_of(formats, each as int)),
            ),
        }
    } else {
        ReturnType::Unit
    }
}

impl ScalarKind {
    /// The name of the type that holds the scalar.
    pub open spec fn holder(self) -> Seq<char> {
        match self {
            ScalarKind::Bool => "bool"@,
            ScalarKind::Nibble => "u8"@,
            ScalarKind::Int8 => "i8"@,
            ScalarKind::Int16 => "i16"@,
            ScalarKind::Int32 => "i32"@,
            ScalarKind::Int64 => "i64"@,
            ScalarKind::Uint8 => "u8"@,
            ScalarKind::Uint16 => "u16"@,
            ScalarKind::Uint32 => "u32"@,
            ScalarKind::Uint64 => "u64"@,
            ScalarKind::Vint32 => "i32"@,
            ScalarKind::Vint64 => "i64"@,
            ScalarKind::Uvint32 => "u32"@,
            ScalarKind::Uvint64 => "u64"@,
            ScalarKind::Text => "String"@,
            ScalarKind::Float32 => "f32"@,
            ScalarKind::Float64 => "f64"@,
        }
    }

    /// The name of the type that holds the scalar.
    pub fn typ(&self) -> (name: &'static str)
        ensures
            name@ == self.holder(),
    {
        match self {
            ScalarKind::Bool => "bool",
            ScalarKind::Nibble => "u8",
            ScalarKind::Int8 => "i8",
            ScalarKind::Int16 => "i16",
            ScalarKind::Int32 => "i32",
            ScalarKind::Int64 => "i64",
            ScalarKind::Uint8 => "u8",
            ScalarKind::Uint16 => "u16",
            ScalarKind::Uint32 => "u32",
            ScalarKind::Uint64 => "u64",
            ScalarKind::Vint32 => "i32",
            ScalarKind::Vint64 => "i64",
            ScalarKind::Uvint32 => "u32",
            ScalarKind::Uvint64 => "u64",
            ScalarKind::Text => "String",
            ScalarKind::Float32 => "f32",
            ScalarKind::Float64 => "f64",
        }
    }
}

impl Types {
    /// The type of the values of the format at `place`.
    pub fn return_type(&self, place: usize) -> (r: ReturnType)
        requires
            self.wf(),
            place < self@.formats.len(),
        ensures
            r == return_type_of(self@.formats, place as int),
        decreases place,
    {
        assert(self@.formats[place as int].refers_below(place as int));
        assert(self@.formats[place as int] == self.formats@[place as int]@);
        match &self.formats[place] {
            FieldFormat::Nop(_) => ReturnType::Unit,
            FieldFormat::Simple(format) => ReturnType::Scalar(format.kind),
            FieldFormat::ByteArray(format) => ReturnType::Bytes(format.length),
            FieldFormat::Optional(format) => ReturnType::Optional(
                Box::new(self.return_type(format.inner)),
            ),
            FieldFormat::Json(_) => ReturnType::Json,
            FieldFormat::Struct(_) => ReturnType::Struct(place),
            FieldFormat::Array(format) => ReturnType::Array(
                Box::new(self.return_type(format.each)),
                format.size,
            ),
            FieldFormat::Prefix(format) => ReturnType::List(Box::new(self.return_type(format.each))),
            FieldFormat::Tail(format) => ReturnType::List(Box::new(self.return_type(format.each))),
        }
    }
}

/// One field of a generated structure.
#[derive(Debug)]
pub struct FieldDecl {
    pub name: String,
    pub typ: ReturnType,
}

/// A [`FieldDecl`] by value.
pub struct FieldDeclView {
    pub name: Seq<char>,
    pub typ: ReturnType,
}

impl View for FieldDecl {
    type V = FieldDeclView;

    open spec fn view(&self) -> FieldDeclView {
        FieldDeclView { name: self.name@, typ: self.typ }
    }
}

/// The structure generated for a named type.
#[derive(Debug)]
pub struct TypeDecl {
    pub name: String,
    pub fields: Vec<FieldDecl>,
}

/// A [`TypeDecl`] by value.
pub struct TypeDeclView {
    pub name: Seq<char>,
    pub fields: Seq<FieldDeclView>,
}

impl View for TypeDecl {
    type V = TypeDeclView;

    open spec fn view(&self) -> TypeDeclView {
        TypeDeclView { name: self.name@, fields: self.fields@.map_values(|f: FieldDecl| f@) }
    }
}

/// The constant and the structure generated for a signal.
#[derive(Debug)]
pub struct SignalDecl {
    pub id_name: String,
    pub id: SignalId,
    pub struct_name: String,
    pub fields: Vec<FieldDecl>,
}

/// A [`SignalDecl`] by value.
pub struct SignalDeclView {
    pub id_name: Seq<char>,
    pub id: SignalId,
    pub struct_name: Seq<char>,
    pub fields: Seq<FieldDeclView>,
}

impl View for SignalDecl {
    type V = SignalDeclView;

    open spec fn view(&self) -> SignalDeclView {
        SignalDeclView {
            id_name: self.id_name@,
            id: self.id,
            struct_name: self.struct_name@,
            fields: self.fields@.map_values(|f: FieldDecl| f@),
        }
    }
}

/// While the connection is in the state at place `from`, the operation
/// takes it to the state at place `to`.
#[derive(Debug, Clone, Copy, PartialEq, Eq, Structural)]
pub struct Transition {
    pub from: usize,
    pub to: usize,
}

/// Whether each of `transitions` leaves one of the first `count` states and
/// leads to one of them.
pub open spec fn transitions_within(transitions: Seq<Transition>, count: int) -> bool {
    forall|k: int|
        0 <= k < transitions.len() ==> (#[trigger] transitions[k]).from < count
            && transitions[k].to < count
}

/// One operation of an endpoint: the writing or the reading of one signal,
/// allowed in the states that its transitions start from.
#[derive(Debug)]
pub struct Operation {
    /// Whether the operation writes the signal; it reads it otherwise.
    pub writes: bool,
    pub method: String,
    pub description: String,
    pub signal: String,
    pub signal_type: String,
    pub class: SignalClass,
    pub id: SignalId,
    pub transitions: Vec<Transition>,
    pub fields: Vec<(String, usize)>,
}

/// An [`Operation`] by value.
pub struct OperationView {
    pub writes: bool,
    pub method: Seq<char>,
    pub description: Seq<char>,
    pub signal: Seq<char>,
    pub signal_type: Seq<char>,
    pub class: SignalClass,
    pub id: SignalId,
    pub transitions: Seq<Transition>,
    pub fields: Seq<(Seq<char>, usize)>,
}

impl View for Operation {
    type V = OperationView;

    open spec fn view(&self) -> OperationView {
        OperationView {
            writes: self.writes,
            method: self.method@,
            description: self.description@,
            signal: self.signal@,
            signal_type: self.signal_type@,
            class: self.class,
            id: self.id,
            transitions: self.transitions@,
            fields: crate::compiler::registry::fields_view(self.fields@),
        }
    }
}

/// The operations of one end of the connection.
#[derive(Debug)]
pub struct EndpointApi {
    pub name: String,
    pub operations: Vec<Operation>,
}

/// An [`EndpointApi`] by value.
pub struct EndpointView {
    pub name: Seq<char>,
    pub operations: Seq<OperationView>,
}

impl EndpointView {
    /// Whether every transition of every operation stays among the first
    /// `count` states.
    pub open spec fn within(self, count: int) -> bool {
        forall|k: int|
            0 <= k < self.operations.len() ==> transitions_within(
                (#[trigger] self.operations[k]).transitions,
                count,
            )
    }
}

impl View for EndpointApi {
    type V = EndpointView;

    open spec fn view(&self) -> EndpointView {
        EndpointView {
            name: self.name@,
            operations: self.operations@.map_values(|operation: Operation| operation@),
        }
    }
}

/// All that is generated for a protocol.
#[derive(Debug)]
pub struct GeneratedApi {
    /// The variants of the connection's state, one for each state of the
    /// machine, in its order.
    pub states: Vec<String>,
    pub types: Vec<TypeDecl>,
    pub signals: Vec<SignalDecl>,
    pub client: EndpointApi,
    pub server: EndpointApi,
}

/// A [`GeneratedApi`] by value.
pub struct GeneratedView {
    pub states: Seq<Seq<char>>,
    pub types: Seq<TypeDeclView>,
    pub signals: Seq<SignalDeclView>,
    pub client: EndpointView,
    pub server: EndpointView,
}

impl GeneratedView {
    /// Whether the operations of both ends move among the states that were
    /// generated.
    pub open spec fn sound(self) -> bool {
        self.client.within(self.states.len() as int) && self.server.within(
            self.states.len() as int,
        )
    }
}

impl View for GeneratedApi {
    type V = GeneratedView;

    open spec fn view(&self) -> GeneratedView {
        GeneratedView {
            states: self.states@.map_values(|state: String| state@),
            types: self.types@.map_values(|decl: TypeDecl| decl@),
            signals: self.signals@.map_values(|decl: SignalDecl| decl@),
            client: self.client@,
            server: self.server@,
        }
    }
}

} // verus!
