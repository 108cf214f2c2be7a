//! The values that the fields of signals hold.

use crate::compiler::format::ScalarKind;
use crate::io::cube::{Float32, Float64};
use vstd::prelude::*;

verus! {

broadcast use {
    vstd::std_specs::vec::axiom_vec_index_decreases,
    vstd::std_specs::vec::axiom_vec_decreases_to_view,
    vstd::seq::axiom_seq_index_decreases,
};

/// The value of a scalar that is no text.
#[derive(Debug, Clone, Copy, PartialEq, Eq, Structural)]
pub enum ScalarValue {
    Bool(bool),
    Nibble(u8),
    Int8(i8),
    Int16(i16),
    Int32(i32),
    Int64(i64),
    Uint8(u8),
    Uint16(u16),
    Uint32(u32),
    Uint64(u64),
    Float32(Float32),
    Float64(Float64),
}

/// The value of a field.
#[derive(Debug)]
pub enum FieldValue {
    /// What an alignment mark holds: nothing.
    Unit,
    Scalar(ScalarValue),
    Text(String),
    Bytes(Vec<u8>),
    Optional(Option<Box<FieldValue>>),
    /// A structured value, as the text that spells it.
    Json(String),
    /// The values of the fields of a structure, in their order.
    Struct(Vec<FieldValue>),
    /// The elements of a list, in their order.
    List(Vec<FieldValue>),
}

/// A [`FieldValue`] by value.
pub enum ValueView {
    Unit,
    Scalar(ScalarValue),
    Text(Seq<char>),
    Bytes(Seq<u8>),
    Optional(Option<Box<ValueView>>),
    Json(Seq<char>),
    Struct(Seq<ValueView>),
    List(Seq<ValueView>),
}

/// The values of `values`, each by value.
pub open spec fn views_of(values: Seq<FieldValue>) -> Seq<ValueView>
    decreases values,
{
    Seq::new(
        values.len(),
        |i: int|
            if 0 <= i < values.len() {
                value_view(values[i])
            } else {
                ValueView::Unit
            },
    )
}

/// `value` by value.
pub open spec fn value_view(value: FieldValue) -> ValueView
    decreases value,
{
    match value {
        FieldValue::Unit => ValueView::Unit,
        FieldValue::Scalar(scalar) => ValueView::Scalar(scalar),
        FieldValue::Text(text) => ValueView::Text(text@),
        FieldValue::Bytes(bytes) => ValueView::Bytes(bytes@),
        FieldValue::Optional(None) => ValueView::Optional(None),
        FieldValue::Optional(Some(inner)) => ValueView::Optional(Some(Box::new(value_view(*inner)))),
        FieldValue::Json(text) => ValueView::Json(text@),
        FieldValue::Struct(values) => ValueView::Struct(views_of(values@)),
        FieldValue::List(values) => ValueView::List(views_of(values@)),
    }
}

impl View for FieldValue {
    type V = ValueView;

    open spec fn view(&self) -> ValueView {
        value_view(*self)
    }
}

impl ScalarValue {
    /// Whether the value is one of the scalar `kind`: the variable integers
    /// hold what the fixed ones of their width hold, and a nibble is below
    /// sixteen.
    pub open spec fn is_of(self, kind: ScalarKind) -> bool {
        match (kind, self) {
            (ScalarKind::Bool, ScalarValue::Bool(_)) => true,
            (ScalarKind::Nibble, ScalarValue::Nibble(value)) => value < 16,
            (ScalarKind::Int8, ScalarValue::Int8(_)) => true,
            (ScalarKind::Int16, ScalarValue::Int16(_)) => true,
            (ScalarKind::Int32, ScalarValue::Int32(_)) => true,
            (ScalarKind::Int64, ScalarValue::Int64(_)) => true,
            (ScalarKind::Uint8, ScalarValue::Uint8(_)) => true,
            (ScalarKind::Uint16, ScalarValue::Uint16(_)) => true,
            (ScalarKind::Uint32, ScalarValue::Uint32(_)) => true,
            (ScalarKind::Uint64, ScalarValue::Uint64(_)) => true,
            (ScalarKind::Vint32, ScalarValue::Int32(_)) => true,
            (ScalarKind::Vint64, ScalarValue::Int64(_)) => true,
            (ScalarKind::Uvint32, ScalarValue::Uint32(_)) => true,
            (ScalarKind::Uvint64, ScalarValue::Uint64(_)) => true,
            (ScalarKind::Float32, ScalarValue::Float32(_)) => true,
            (ScalarKind::Float64, ScalarValue::Float64(_)) => true,
            _ => false,
        }
    }
}

} // verus!
