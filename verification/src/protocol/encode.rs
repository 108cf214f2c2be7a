//! Writing the values of fields in the formats that a protocol gives them.

use crate::compiler::format::{FieldFormat, FormatView, ScalarKind};
use crate::compiler::types::Types;
use crate::io::writer::{CubeWriter, WriterView, STRING_MAX};
use crate::protocol::value::{FieldValue, ScalarValue, ValueView};
use crate::util::{io_error, IoErrorKind, VioResult};
use vstd::prelude::*;

verus! {

/// The writer after the scalar `value`, written as the scalar `kind`. A bit
/// goes wherever the writer stands, a nibble at the start or the middle of
/// a byte, every other scalar at a byte boundary. A value that is not of
/// the kind is an error of kind `Other`; a writer that stands elsewhere is
/// one of kind `Misaligned`.
pub open spec fn encode_scalar(kind: ScalarKind, value: ScalarValue, w: WriterView) -> Result<
    WriterView,
    IoErrorKind,
> {
    if !value.is_of(kind) {
        Err(IoErrorKind::Other)
    } else {
        match value {
            ScalarValue::Bool(bit) => Ok(w.push_bit(bit)),
            ScalarValue::Nibble(nibble) => if w.pending.len() % 4 == 0 {
                Ok(w.push_bits(crate::io::bits::nibble_bits(nibble)))
            } else {
                Err(IoErrorKind::Misaligned)
            },
            _ => if w.aligned() {
                Ok(
                    w.push_bytes(
                        match value {
                            ScalarValue::Int8(v) => seq![v as u8],
                            ScalarValue::Int16(v) => crate::io::endian::be_bytes(v as u16 as nat, 2),
                            ScalarValue::Int32(v) => crate::io::endian::be_bytes(v as u32 as nat, 4),
                            ScalarValue::Int64(v) => crate::io::endian::be_bytes(v as u64 as nat, 8),
                            ScalarValue::Uint8(v) => seq![v],
                            ScalarValue::Uint16(v) => crate::io::endian::be_bytes(v as nat, 2),
                            ScalarValue::Uint32(v) => crate::io::endian::be_bytes(v as nat, 4),
                            ScalarValue::Uint64(v) => crate::io::endian::be_bytes(v as nat, 8),
                            ScalarValue::Float32(v) => crate::io::endian::be_bytes(v as nat, 4),
                            ScalarValue::Float64(v) => crate::io::endian::be_bytes(v as nat, 8),
                            _ => Seq::empty(),
                        },
                    ),
                )
            } else {
                Err(IoErrorKind::Misaligned)
            },
        }
    }
}

/// The writer after the text `text`, written at a byte boundary behind its
/// length in two bytes. Elsewhere than at a byte boundary the error is of
/// kind `Misaligned`; a text too long for its length is one of kind
/// `Other`.
pub open spec fn encode_text(text: Seq<char>, w: WriterView) -> Result<WriterView, IoErrorKind> {
    if !w.aligned() {
        Err(IoErrorKind::Misaligned)
    } else if vstd::utf8::encode_utf8(text).len() <= STRING_MAX {
        Ok(w.push_bytes(crate::io::writer::string_bytes(text)))
    } else {
        Err(IoErrorKind::Other)
    }
}

/// The count `count` as a value of the scalar `kind`, where the kind is one
/// of integers and holds the count.
pub open spec fn count_value(kind: ScalarKind, count: nat) -> Option<ScalarValue> {
    match kind {
        ScalarKind::Nibble => if count < 16 {
            Some(ScalarValue::Nibble(count as u8))
        } else {
            None
        },
        ScalarKind::Int8 => if count <= i8::MAX {
            Some(ScalarValue::Int8(count as i8))
        } else {
            None
        },
        ScalarKind::Int16 => if count <= i16::MAX {
            Some(ScalarValue::Int16(count as i16))
        } else {
            None
        },
        ScalarKind::Int32 | ScalarKind::Vint32 => if count <= i32::MAX {
            Some(ScalarValue::Int32(count as i32))
        } else {
            None
        },
        ScalarKind::Int64 | ScalarKind::Vint64 => if count <= i64::MAX {
            Some(ScalarValue::Int64(count as i64))
        } else {
            None
        },
        ScalarKind::Uint8 => if count <= u8::MAX {
            Some(ScalarValue::Uint8(count as u8))
        } else {
            None
        },
        ScalarKind::Uint16 => if count <= u16::MAX {
            Some(ScalarValue::Uint16(count as u16))
        } else {
            None
        },
        ScalarKind::Uint32 | ScalarKind::Uvint32 => if count <= u32::MAX {
            Some(ScalarValue::Uint32(count as u32))
        } else {
            None
        },
        ScalarKind::Uint64 | ScalarKind::Uvint64 => if count <= u64::MAX {
            Some(ScalarValue::Uint64(count as u64))
        } else {
            None
        },
        _ => None,
    }
}

/// The writer after `value`, written in the format at `place` of `formats`.
/// A value that is not one of the format is an error of kind `Other`; a
/// writer that does not stand where the format needs it is one of kind
/// `Misaligned`.
pub open spec fn encode(formats: Seq<FormatView>, place: int, value: ValueView, w: WriterView) -> Result<
    WriterView,
    IoErrorKind,
>
    decreases 2 * place + 1, 0nat,
{
    if 0 <= place < formats.len() && formats[place].refers_below(place) {
        match (formats[place], value) {
            (FormatView::Nop, ValueView::Unit) => Ok(w.pad()),
            (FormatView::Simple(ScalarKind::Text), ValueView::Text(text)) => encode_text(text, w),
            (FormatView::Simple(kind), ValueView::Scalar(scalar)) => encode_scalar(kind, scalar, w),
            (FormatView::ByteArray(length), ValueView::Bytes(bytes)) => if bytes.len() != length {
                Err(IoErrorKind::Other)
            } else if !w.aligned() {
                Err(IoErrorKind::Misaligned)
            } else {
                Ok(w.push_bytes(bytes))
            },
            (FormatView::Optional(_), ValueView::Optional(None)) => Ok(w.push_bit(false).pad()),
            (FormatView::Optional(inner), ValueView::Optional(Some(held))) => encode(
                formats,
                inner as int,
                *held,
                w.push_bit(true).pad(),
            ),
            (FormatView::Json, ValueView::Json(text)) => encode_text(text, w),
            (FormatView::Struct(fields), ValueView::Struct(values)) => encode_fields(
                formats,
                place,
                fields,
                values,
                w,
            ),
            (FormatView::Array(size, each), ValueView::List(values)) => if values.len() == size {
                encode_all(formats, place, each as int, values, w)
            } else {
                Err(IoErrorKind::Other)
            },
            (FormatView::Prefix(prefix, each), ValueView::List(values)) => match formats[prefix as int] {
                FormatView::Simple(kind) => match count_value(kind, values.len()) {
                    None => Err(IoErrorKind::Other),
                    Some(count) => match encode_scalar(kind, count, w) {
                        Err(fault) => Err(fault),
                        Ok(counted) => encode_all(formats, place, each as int, values, counted),
                    },
                },
                _ => Err(IoErrorKind::Other),
            },
            (FormatView::Tail(each), ValueView::List(values)) => encode_all(
                formats,
                place,
                each as int,
                values,
                w,
            ),
            _ => Err(IoErrorKind::Other),
        }
    } else {
        Err(IoErrorKind::Other)
    }
}

/// The writer after the values `values` of the fields `fields`, one after
/// the other, each field's format standing before `bound`; or the first
/// error that writing them meets.
pub open spec fn encode_fields(
    formats: Seq<FormatView>,
    bound: int,
    fields: Seq<(Seq<char>, usize)>,
    values: Seq<ValueView>,
    w: WriterView,
) -> Result<WriterView, IoErrorKind>
    decreases 2 * bound, fields.len(),
{
    if fields.len() != values.len() {
        Err(IoErrorKind::Other)
    } else if fields.len() == 0 {
        Ok(w)
    } else {
        match encode_fields(formats, bound, fields.drop_last(), values.drop_last(), w) {
            Err(fault) => Err(fault),
            Ok(before) => if fields.last().1 >= bound {
                Err(IoErrorKind::Other)
            } else {
                encode(formats, fields.last().1 as int, values.last(), before)
            },
        }
    }
}

/// The writer after the values `values`, one after the other, each in the
/// format at `each`, which stands before `bound`; or the first error that
/// writing them meets.
pub open spec fn encode_all(
    formats: Seq<FormatView>,
    bound: int,
    each: int,
    values: Seq<ValueView>,
    w: WriterView,
) -> Result<WriterView, IoErrorKind>
    decreases 2 * bound, values.len(),
{
    if values.len() == 0 {
        Ok(w)
    } else if each < 0 || each >= bound {
        Err(IoErrorKind::Other)
    } else {
        match encode_all(formats, bound, each, values.drop_last(), w) {
            Err(fault) => Err(fault),
            Ok(before) => encode(formats, each, values.last(), before),
        }
    }
}

/// An error among the first fields is the error of them all.
pub proof fn lemma_fields_unwritable(
    formats: Seq<FormatView>,
    bound: int,
    fields: Seq<(Seq<char>, usize)>,
    values: Seq<ValueView>,
    w: WriterView,
    count: int,
)
    requires
        0 <= count <= fields.len(),
        fields.len() == values.len(),
        encode_fields(formats, bound, fields.take(count), values.take(count), w) is Err,
    ensures
        encode_fields(formats, bound, fields, values, w) == encode_fields(
            formats,
            bound,
            fields.take(count),
            values.take(count),
            w,
        ),
    decreases fields.len() - count,
{
    if count < fields.len() {
        assert(fields.take(count + 1).drop_last() =~= fields.take(count));
        assert(values.take(count + 1).drop_last() =~= values.take(count));
        lemma_fields_unwritable(formats, bound, fields, values, w, count + 1);
    } else {
        assert(fields.take(count) =~= fields);
        assert(values.take(count) =~= values);
    }
}

/// An error among the first values is the error of them all.
pub proof fn lemma_all_unwritable(
    formats: Seq<FormatView>,
    bound: int,
    each: int,
    values: Seq<ValueView>,
    w: WriterView,
    count: int,
)
    requires
        0 <= count <= values.len(),
        encode_all(formats, bound, each, values.take(count), w) is Err,
    ensures
        encode_all(formats, bound, each, values, w) == encode_all(
            formats,
            bound,
            each,
            values.take(count),
            w,
        ),
    decreases values.len() - count,
{
    if count < values.len() {
        assert(values.take(count + 1).drop_last() =~= values.take(count));
        lemma_all_unwritable(formats, bound, each, values, w, count + 1);
    } else {
        assert(values.take(count) =~= values);
    }
}

/// A scalar that is written takes no complete byte back.
pub proof fn lemma_scalar_extends(kind: ScalarKind, value: ScalarValue, w: WriterView)
    requires
        w.pending.len() < 8,
        encode_scalar(kind, value, w) is Ok,
    ensures
        encode_scalar(kind, value, w)->Ok_0.extends(w),
{
    let after = encode_scalar(kind, value, w)->Ok_0;
    match value {
        ScalarValue::Bool(bit) => {
            crate::io::writer::lemma_writing_extends(w, bit, Seq::empty());
        },
        ScalarValue::Nibble(nibble) => {
            crate::io::writer::lemma_nibble_extends(w, crate::io::bits::nibble_bits(nibble));
        },
        _ => {
            assert(after.bytes.take(w.bytes.len() as int) =~= w.bytes);
        },
    }
}

/// Whether `value` is one of the scalar `kind`.
pub fn is_scalar_of(kind: ScalarKind, value: ScalarValue) -> (r: bool)
    ensures
        r == value.is_of(kind),
{
    match (kind, value) {
        (ScalarKind::Bool, ScalarValue::Bool(_)) => true,
        (ScalarKind::Nibble, ScalarValue::Nibble(nibble)) => nibble < 16,
        (ScalarKind::Int8, ScalarValue::Int8(_)) => true,
        (ScalarKind::Int16, ScalarValue::Int16(_)) => true,
        (ScalarKind::Int32, ScalarValue::Int32(_)) => true,
        (ScalarKind::Int64, ScalarValue::Int64(_)) => true,
        (ScalarKind::Uint8, ScalarValue::Uint8(_)) => true,
        (ScalarKind::Uint16, ScalarValue::Uint16(_)) => true,
        (ScalarKind::Uint32, ScalarValue::Uint32(_)) => true,
        (ScalarKind::Uint64, ScalarValue::Uint64(_)) => true,
        (ScalarKind::Vint32, ScalarValue::Int32(_)) => true,
        (ScalarKind::Vint64, ScalarValue::Int64(_)) => true,
        (ScalarKind::Uvint32, ScalarValue::Uint32(_)) => true,
        (ScalarKind::Uvint64, ScalarValue::Uint64(_)) => true,
        (ScalarKind::Float32, ScalarValue::Float32(_)) => true,
        (ScalarKind::Float64, ScalarValue::Float64(_)) => true,
        _ => false,
    }
}

/// Writes the scalar `value` as the scalar `kind`.
pub fn write_scalar(kind: ScalarKind, value: ScalarValue, writer: &mut CubeWriter) -> (r: VioResult)
    requires
        old(writer).wf(),
    ensures
        final(writer).wf(),
        match encode_scalar(kind, value, old(writer)@) {
            Ok(w) => r is Ok && final(writer)@ == w,
            Err(kind) => *final(writer) == *old(writer) && (r matches Err(e) && e.kind == kind),
        },
        final(writer)@.extends(old(writer)@),
{
    proof {
        crate::io::writer::lemma_writing_extends(old(writer)@, true, Seq::empty());
        if encode_scalar(kind, value, old(writer)@) is Ok {
            lemma_scalar_extends(kind, value, old(writer)@);
        }
    }
    if !is_scalar_of(kind, value) {
        return io_error("Value does not match its format");
    }
    match value {
        ScalarValue::Bool(bit) => writer.write_bit(bit),
        ScalarValue::Nibble(nibble) => {
            if writer.current_bit % 4 != 0 {
                return Err(crate::util::misaligned("Pointer is not at a complete nibble"));
            }
            writer.write_nibble(nibble)
        },
        _ => {
            if !writer.is_complete_byte() {
                return Err(crate::util::misaligned("Pointer is not at a complete byte"));
            }
            match value {
                ScalarValue::Int8(v) => writer.write_int8(v),
                ScalarValue::Int16(v) => writer.write_int16(v),
                ScalarValue::Int32(v) => writer.write_int32(v),
                ScalarValue::Int64(v) => writer.write_int64(v),
                ScalarValue::Uint8(v) => writer.write_uint8(v),
                ScalarValue::Uint16(v) => writer.write_uint16(v),
                ScalarValue::Uint32(v) => writer.write_uint32(v),
                ScalarValue::Uint64(v) => writer.write_uint64(v),
                ScalarValue::Float32(v) => writer.write_float32(v),
                ScalarValue::Float64(v) => writer.write_float64(v),
                _ => Ok(()),
            }
        },
    }
}

/// Writes the text `text` behind its length in two bytes.
pub fn write_text(text: &str, writer: &mut CubeWriter) -> (r: VioResult)
    requires
        old(writer).wf(),
    ensures
        final(writer).wf(),
        match encode_text(text@, old(writer)@) {
            Ok(w) => r is Ok && final(writer)@ == w,
            Err(kind) => *final(writer) == *old(writer) && (r matches Err(e) && e.kind == kind),
        },
        final(writer)@.extends(old(writer)@),
{
    proof {
        crate::io::writer::lemma_writing_extends(
            old(writer)@,
            true,
            crate::io::writer::string_bytes(text@),
        );
    }
    if !writer.is_complete_byte() {
        return Err(crate::util::misaligned("Pointer is not at a complete byte"));
    }
    writer.write_string(text)
}

/// The count `count` as a value of the scalar `kind`.
pub fn count_scalar(kind: ScalarKind, count: usize) -> (r: Option<ScalarValue>)
    ensures
        r == count_value(kind, count as nat),
{
    match kind {
        ScalarKind::Nibble => if count < 16 {
            Some(ScalarValue::Nibble(count as u8))
        } else {
            None
        },
        ScalarKind::Int8 => if count <= 0x7f {
            Some(ScalarValue::Int8(count as i8))
        } else {
            None
        },
        ScalarKind::Int16 => if count <= 0x7fff {
            Some(ScalarValue::Int16(count as i16))
        } else {
            None
        },
        ScalarKind::Int32 | ScalarKind::Vint32 => if count <= 0x7fff_ffff {
            Some(ScalarValue::Int32(count as i32))
        } else {
            None
        },
        ScalarKind::Int64 | ScalarKind::Vint64 => if count as u64 <= 0x7fff_ffff_ffff_ffff {
            Some(ScalarValue::Int64(count as i64))
        } else {
            None
        },
        ScalarKind::Uint8 => if count <= 0xff {
            Some(ScalarValue::Uint8(count as u8))
        } else {
            None
        },
        ScalarKind::Uint16 => if count <= 0xffff {
            Some(ScalarValue::Uint16(count as u16))
        } else {
            None
        },
        ScalarKind::Uint32 | ScalarKind::Uvint32 => if count as u64 <= 0xffff_ffff {
            Some(ScalarValue::Uint32(count as u32))
        } else {
            None
        },
        ScalarKind::Uint64 | ScalarKind::Uvint64 => Some(ScalarValue::Uint64(count as u64)),
        _ => None,
    }
}

/// Writes `value` in the format at `place`. After an error nothing has been
/// written.
pub fn encode_value(types: &Types, place: usize, value: &FieldValue, writer: &mut CubeWriter) -> (r:
    VioResult)
    requires
        types.wf(),
        place < types@.formats.len(),
        old(writer).wf(),
    ensures
        final(writer).wf(),
        match encode(types@.formats, place as int, value@, old(writer)@) {
            Ok(w) => r is Ok && final(writer)@ == w,
            Err(kind) => final(writer)@ == old(writer)@ && (r matches Err(e) && e.kind == kind),
        },
{
    let mark = writer.mark();
    match write_value(types, place, value, writer) {
        Ok(()) => Ok(()),
        Err(e) => {
            writer.rewind(mark);
            Err(e)
        },
    }
}

/// Writes the values `values` of the fields `fields`, whose formats stand
/// before `bound`, one after the other. After an error nothing has been
/// written.
pub fn encode_struct(
    types: &Types,
    bound: usize,
    fields: &Vec<(String, usize)>,
    values: &Vec<FieldValue>,
    writer: &mut CubeWriter,
) -> (r: VioResult)
    requires
        types.wf(),
        bound <= types@.formats.len(),
        old(writer).wf(),
    ensures
        final(writer).wf(),
        match encode_fields(
            types@.formats,
            bound as int,
            crate::compiler::registry::fields_view(fields@),
            crate::protocol::value::views_of(values@),
            old(writer)@,
        ) {
            Ok(w) => r is Ok && final(writer)@ == w,
            Err(kind) => final(writer)@ == old(writer)@ && (r matches Err(e) && e.kind == kind),
        },
{
    let mark = writer.mark();
    match write_fields(types, bound, fields, values, writer) {
        Ok(()) => Ok(()),
        Err(e) => {
            writer.rewind(mark);
            Err(e)
        },
    }
}

/// Writes `value` in the format at `place`; after an error the writer may
/// hold a part of the value behind what it held.
fn write_value(types: &Types, place: usize, value: &FieldValue, writer: &mut CubeWriter) -> (r:
    VioResult)
    requires
        types.wf(),
        place < types@.formats.len(),
        old(writer).wf(),
    ensures
        final(writer).wf(),
        final(writer)@.extends(old(writer)@),
        match encode(types@.formats, place as int, value@, old(writer)@) {
            Ok(w) => r is Ok && final(writer)@ == w,
            Err(kind) => r matches Err(e) && e.kind == kind,
        },
    decreases 2 * place + 1, 0nat,
{
    proof {
        crate::io::writer::lemma_writing_extends(old(writer)@, true, Seq::empty());
    }
    let ghost formats = types@.formats;
    assert(formats[place as int].refers_below(place as int));
    assert(formats[place as int] == types.formats@[place as int]@);
    assert(value@ == crate::protocol::value::value_view(*value));
    match (&types.formats[place], value) {
        (FieldFormat::Nop(_), FieldValue::Unit) => {
            assert(encode(formats, place as int, value@, old(writer)@) == Ok::<WriterView, IoErrorKind>(
                old(writer)@.pad(),
            ));
            writer.write_nop()
        },
        (FieldFormat::Simple(format), FieldValue::Text(text)) => {
            assert(value@ == ValueView::Text(text@));
            assert(formats[place as int] == FormatView::Simple(format.kind));
            match format.kind {
                ScalarKind::Text => match write_text(text.as_str(), writer) {
                    Ok(()) => Ok(()),
                    Err(e) => Err(e),
                },
                _ => io_error("Value does not match its format"),
            }
        },
        (FieldFormat::Simple(format), FieldValue::Scalar(scalar)) => {
            assert(value@ == ValueView::Scalar(*scalar));
            assert(formats[place as int] == FormatView::Simple(format.kind));
            match write_scalar(format.kind, *scalar, writer) {
                Ok(()) => Ok(()),
                Err(e) => Err(e),
            }
        },
        (FieldFormat::ByteArray(format), FieldValue::Bytes(bytes)) => {
            assert(value@ == ValueView::Bytes(bytes@));
            assert(formats[place as int] == FormatView::ByteArray(format.length));
            if bytes.len() != format.length {
                return io_error("Value does not match its format");
            }
            if !writer.is_complete_byte() {
                return Err(crate::util::misaligned("Pointer is not at a complete byte"));
            }
            proof {
                crate::io::writer::lemma_writing_extends(old(writer)@, true, bytes@);
            }
            writer.write_bytes(bytes.as_slice())
        },
        (FieldFormat::Optional(format), FieldValue::Optional(None)) => {
            assert(value@ == ValueView::Optional(None));
            assert(formats[place as int] == FormatView::Optional(format.inner));
            proof {
                let first = old(writer)@.push_bit(false);
                crate::io::writer::lemma_writing_extends(old(writer)@, false, Seq::empty());
                crate::io::writer::lemma_writing_extends(first, false, Seq::empty());
                crate::io::writer::lemma_extends_further(old(writer)@, first, first.pad());
            }
            writer.write_bit(false)?;
            writer.write_nop()
        },
        (FieldFormat::Optional(format), FieldValue::Optional(Some(held))) => {
            assert(value@ == ValueView::Optional(Some(Box::new(held@))));
            assert(formats[place as int] == FormatView::Optional(format.inner));
            proof {
                let first = old(writer)@.push_bit(true);
                crate::io::writer::lemma_writing_extends(first, false, Seq::empty());
                crate::io::writer::lemma_extends_further(old(writer)@, first, first.pad());
            }
            writer.write_bit(true)?;
            writer.write_nop()?;
            let ghost flagged = writer@;
            let inside = write_value(types, format.inner, held, writer);
            proof {
                crate::io::writer::lemma_extends_further(old(writer)@, flagged, writer@);
            }
            inside
        },
        (FieldFormat::Json(_), FieldValue::Json(text)) => {
            assert(value@ == ValueView::Json(text@));
            assert(formats[place as int] == FormatView::Json);
            match write_text(text.as_str(), writer) {
                Ok(()) => Ok(()),
                Err(e) => Err(e),
            }
        },
        (FieldFormat::Struct(format), FieldValue::Struct(values)) => {
            assert(value@ == ValueView::Struct(crate::protocol::value::views_of(values@)));
            assert(formats[place as int] == FormatView::Struct(
                crate::compiler::registry::fields_view(format.properties@),
            ));
            write_fields(types, place, &format.properties, values, writer)
        },
        (FieldFormat::Array(format), FieldValue::List(values)) => {
            assert(value@ == ValueView::List(crate::protocol::value::views_of(values@)));
            assert(formats[place as int] == FormatView::Array(format.size, format.each));
            if values.len() != format.size {
                assert(encode(formats, place as int, value@, old(writer)@) is Err);
                return io_error("Value does not match its format");
            }
            assert(encode(formats, place as int, value@, old(writer)@) == encode_all(
                formats,
                place as int,
                format.each as int,
                crate::protocol::value::views_of(values@),
                old(writer)@,
            ));
            write_all(types, place, format.each, values, writer)
        },
        (FieldFormat::Prefix(format), FieldValue::List(values)) => {
            assert(value@ == ValueView::List(crate::protocol::value::views_of(values@)));
            assert(formats[place as int] == FormatView::Prefix(format.prefix, format.each));
            assert(formats[format.prefix as int] == types.formats@[format.prefix as int]@);
            match &types.formats[format.prefix] {
                FieldFormat::Simple(counter) => {
                    match count_scalar(counter.kind, values.len()) {
                        Some(count) => {
                            match write_scalar(counter.kind, count, writer) {
                                Ok(()) => {},
                                Err(e) => {
                                    return Err(e);
                                },
                            }
                            let ghost counted = writer@;
                            let listed = write_all(types, place, format.each, values, writer);
                            proof {
                                crate::io::writer::lemma_extends_further(
                                    old(writer)@,
                                    counted,
                                    writer@,
                                );
                            }
                            listed
                        },
                        None => io_error("Value does not match its format"),
                    }
                },
                _ => io_error("Value does not match its format"),
            }
        },
        (FieldFormat::Tail(format), FieldValue::List(values)) => {
            assert(value@ == ValueView::List(crate::protocol::value::views_of(values@)));
            assert(formats[place as int] == FormatView::Tail(format.each));
            write_all(types, place, format.each, values, writer)
        },
        _ => io_error("Value does not match its format"),
    }
}

/// Writes the values `values` of the fields `fields` of the structure at
/// `bound`, one after the other.
fn write_fields(
    types: &Types,
    bound: usize,
    fields: &Vec<(String, usize)>,
    values: &Vec<FieldValue>,
    writer: &mut CubeWriter,
) -> (r: VioResult)
    requires
        types.wf(),
        bound <= types@.formats.len(),
        old(writer).wf(),
    ensures
        final(writer).wf(),
        final(writer)@.extends(old(writer)@),
        match encode_fields(
            types@.formats,
            bound as int,
            crate::compiler::registry::fields_view(fields@),
            crate::protocol::value::views_of(values@),
            old(writer)@,
        ) {
            Ok(w) => r is Ok && final(writer)@ == w,
            Err(kind) => r matches Err(e) && e.kind == kind,
        },
    decreases 2 * bound, fields@.len(),
{
    proof {
        crate::io::writer::lemma_writing_extends(old(writer)@, true, Seq::empty());
    }
    let ghost formats = types@.formats;
    let ghost names = crate::compiler::registry::fields_view(fields@);
    let ghost views = crate::protocol::value::views_of(values@);
    if fields.len() != values.len() {
        return io_error("Value does not match its format");
    }
    let mut i: usize = 0;
    assert(names.take(0) =~= Seq::empty());
    assert(views.take(0) =~= Seq::empty());
    while i < fields.len()
        invariant
            i <= fields.len(),
            fields@.len() == values@.len(),
            types.wf(),
            bound <= types@.formats.len(),
            formats == types@.formats,
            names == crate::compiler::registry::fields_view(fields@),
            views == crate::protocol::value::views_of(values@),
            writer.wf(),
            writer@.extends(old(writer)@),
            encode_fields(
                formats,
                bound as int,
                names.take(i as int),
                views.take(i as int),
                old(writer)@,
            ) == Ok::<WriterView, IoErrorKind>(writer@),
        decreases fields.len() - i,
    {
        assert(names.take(i + 1).drop_last() =~= names.take(i as int));
        assert(views.take(i + 1).drop_last() =~= views.take(i as int));
        assert(names.take(i + 1).last() == (fields@[i as int].0@, fields@[i as int].1));
        assert(views.take(i + 1).last() == values@[i as int]@);
        let place = fields[i].1;
        if place >= bound {
            proof {
                lemma_fields_unwritable(formats, bound as int, names, views, old(writer)@, i + 1);
            }
            return io_error("Value does not match its format");
        }
        let ghost before = writer@;
        let step = write_value(types, place, &values[i], writer);
        proof {
            crate::io::writer::lemma_extends_further(old(writer)@, before, writer@);
        }
        match step {
            Ok(()) => {},
            Err(e) => {
                proof {
                    lemma_fields_unwritable(
                        formats,
                        bound as int,
                        names,
                        views,
                        old(writer)@,
                        i + 1,
                    );
                }
                return Err(e);
            },
        }
        i += 1;
    }
    assert(names.take(i as int) =~= names);
    assert(views.take(i as int) =~= views);
    Ok(())
}

/// Writes the values `values`, one after the other, each in the format at
/// `each`.
fn write_all(
    types: &Types,
    bound: usize,
    each: usize,
    values: &Vec<FieldValue>,
    writer: &mut CubeWriter,
) -> (r: VioResult)
    requires
        types.wf(),
        bound <= types@.formats.len(),
        old(writer).wf(),
    ensures
        final(writer).wf(),
        final(writer)@.extends(old(writer)@),
        match encode_all(
            types@.formats,
            bound as int,
            each as int,
            crate::protocol::value::views_of(values@),
            old(writer)@,
        ) {
            Ok(w) => r is Ok && final(writer)@ == w,
            Err(kind) => r matches Err(e) && e.kind == kind,
        },
    decreases 2 * bound, values@.len(),
{
    proof {
        crate::io::writer::lemma_writing_extends(old(writer)@, true, Seq::empty());
    }
    let ghost formats = types@.formats;
    let ghost views = crate::protocol::value::views_of(values@);
    let mut i: usize = 0;
    assert(views.take(0) =~= Seq::empty());
    while i < values.len()
        invariant
            i <= values.len(),
            types.wf(),
            bound <= types@.formats.len(),
            formats == types@.formats,
            views == crate::protocol::value::views_of(values@),
            writer.wf(),
            writer@.extends(old(writer)@),
            encode_all(formats, bound as int, each as int, views.take(i as int), old(writer)@)
                == Ok::<WriterView, IoErrorKind>(writer@),
        decreases values.len() - i,
    {
        assert(views.take(i + 1).drop_last() =~= views.take(i as int));
        assert(views.take(i + 1).last() == values@[i as int]@);
        if each >= bound {
            proof {
                lemma_all_unwritable(
                    formats,
                    bound as int,
                    each as int,
                    views,
                    old(writer)@,
                    i + 1,
                );
            }
            return io_error("Value does not match its format");
        }
        let ghost before = writer@;
        let step = write_value(types, each, &values[i], writer);
        proof {
            crate::io::writer::lemma_extends_further(old(writer)@, before, writer@);
        }
        match step {
            Ok(()) => {},
            Err(e) => {
                proof {
                    lemma_all_unwritable(
                        formats,
                        bound as int,
                        each as int,
                        views,
                        old(writer)@,
                        i + 1,
                    );
                }
                return Err(e);
            },
        }
        i += 1;
    }
    assert(views.take(i as int) =~= views);
    Ok(())
}

} // verus!
