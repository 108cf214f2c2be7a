//! Reading the values of fields in the formats that a protocol gives them.

use crate::compiler::format::{FieldFormat, FormatView, ScalarKind};
use crate::compiler::types::Types;
use crate::io::reader::{CubeReader, ReaderView};
use crate::protocol::value::{FieldValue, ScalarValue, ValueView};
use crate::util::{IoError, IoErrorKind, IoResult};
use vstd::prelude::*;
use vstd::string::StringExecFns;

verus! {

/// The number of the next `width` bytes, read at a byte boundary, and what
/// follows them.
pub open spec fn decode_number(width: nat, r: ReaderView) -> Result<(nat, ReaderView), IoErrorKind> {
    if !r.aligned() {
        Err(IoErrorKind::Misaligned)
    } else {
        match r.take_bytes(width) {
            None => Err(IoErrorKind::UnexpectedEof),
            Some((bytes, next)) => Ok((crate::io::endian::be_value(bytes), next)),
        }
    }
}

/// The scalar of the kind `kind` that stands next, and what follows it. A
/// bit is read wherever the reader stands, a nibble at the start or the
/// middle of a byte, every other scalar at a byte boundary: elsewhere the
/// error is of kind `Misaligned`, which no stream causes.
pub open spec fn decode_scalar(kind: ScalarKind, r: ReaderView) -> Result<
    (ScalarValue, ReaderView),
    IoErrorKind,
> {
    match kind {
        ScalarKind::Bool => match r.take_bit() {
            None => Err(IoErrorKind::UnexpectedEof),
            Some((bit, next)) => Ok((ScalarValue::Bool(bit), next)),
        },
        ScalarKind::Nibble => if r.pending.len() % 4 != 0 {
            Err(IoErrorKind::Misaligned)
        } else {
            match r.take_nibble() {
                None => Err(IoErrorKind::UnexpectedEof),
                Some((nibble, next)) => Ok((ScalarValue::Nibble(nibble), next)),
            }
        },
        ScalarKind::Int8 => match decode_number(1, r) {
            Err(kind) => Err(kind),
            Ok((value, next)) => Ok((ScalarValue::Int8(value as u8 as i8), next)),
        },
        ScalarKind::Int16 => match decode_number(2, r) {
            Err(kind) => Err(kind),
            Ok((value, next)) => Ok((ScalarValue::Int16(value as u16 as i16), next)),
        },
        ScalarKind::Int32 | ScalarKind::Vint32 => match decode_number(4, r) {
            Err(kind) => Err(kind),
            Ok((value, next)) => Ok((ScalarValue::Int32(value as u32 as i32), next)),
        },
        ScalarKind::Int64 | ScalarKind::Vint64 => match decode_number(8, r) {
            Err(kind) => Err(kind),
            Ok((value, next)) => Ok((ScalarValue::Int64(value as u64 as i64), next)),
        },
        ScalarKind::Uint8 => match decode_number(1, r) {
            Err(kind) => Err(kind),
            Ok((value, next)) => Ok((ScalarValue::Uint8(value as u8), next)),
        },
        ScalarKind::Uint16 => match decode_number(2, r) {
            Err(kind) => Err(kind),
            Ok((value, next)) => Ok((ScalarValue::Uint16(value as u16), next)),
        },
        ScalarKind::Uint32 | ScalarKind::Uvint32 => match decode_number(4, r) {
            Err(kind) => Err(kind),
            Ok((value, next)) => Ok((ScalarValue::Uint32(value as u32), next)),
        },
        ScalarKind::Uint64 | ScalarKind::Uvint64 => match decode_number(8, r) {
            Err(kind) => Err(kind),
            Ok((value, next)) => Ok((ScalarValue::Uint64(value as u64), next)),
        },
        ScalarKind::Float32 => match decode_number(4, r) {
            Err(kind) => Err(kind),
            Ok((value, next)) => Ok((ScalarValue::Float32(value as u32), next)),
        },
        ScalarKind::Float64 => match decode_number(8, r) {
            Err(kind) => Err(kind),
            Ok((value, next)) => Ok((ScalarValue::Float64(value as u64), next)),
        },
        ScalarKind::Text => Err(IoErrorKind::InvalidData),
    }
}

/// The text that stands next, behind its length in two bytes, and what
/// follows it.
pub open spec fn decode_text(r: ReaderView) -> Result<(Seq<char>, ReaderView), IoErrorKind> {
    if !r.aligned() {
        Err(IoErrorKind::Misaligned)
    } else {
        r.take_string()
    }
}

/// The count that the scalar `value` gives, where it gives one.
pub open spec fn scalar_count(value: ScalarValue) -> Option<nat> {
    match value {
        ScalarValue::Nibble(v) => Some(v as nat),
        ScalarValue::Int8(v) => if v >= 0 {
            Some(v as nat)
        } else {
            None
        },
        ScalarValue::Int16(v) => if v >= 0 {
            Some(v as nat)
        } else {
            None
        },
        ScalarValue::Int32(v) => if v >= 0 {
            Some(v as nat)
        } else {
            None
        },
        ScalarValue::Int64(v) => if v >= 0 {
            Some(v as nat)
        } else {
            None
        },
        ScalarValue::Uint8(v) => Some(v as nat),
        ScalarValue::Uint16(v) => Some(v as nat),
        ScalarValue::Uint32(v) => Some(v as nat),
        ScalarValue::Uint64(v) => Some(v as nat),
        _ => None,
    }
}

/// How many bits a reader has before it.
pub open spec fn bits_left(r: ReaderView) -> nat {
    r.pending.len() + 8 * r.rest.len()
}

/// The value of the format at `place` of `formats` that stands next, and
/// what follows it.
pub open spec fn decode(formats: Seq<FormatView>, place: int, r: ReaderView) -> Result<
    (ValueView, ReaderView),
    IoErrorKind,
>
    decreases 2 * place + 1, 0nat, 0nat,
{
    if 0 <= place < formats.len() && formats[place].refers_below(place) {
        match formats[place] {
            FormatView::Nop => Ok((ValueView::Unit, r.skip())),
            FormatView::Simple(ScalarKind::Text) => match decode_text(r) {
                Err(kind) => Err(kind),
                Ok((text, next)) => Ok((ValueView::Text(text), next)),
            },
            FormatView::Simple(kind) => match decode_scalar(kind, r) {
                Err(kind) => Err(kind),
                Ok((scalar, next)) => Ok((ValueView::Scalar(scalar), next)),
            },
            FormatView::ByteArray(length) => if !r.aligned() {
                Err(IoErrorKind::Misaligned)
            } else {
                match r.take_bytes(length as nat) {
                    None => Err(IoErrorKind::UnexpectedEof),
                    Some((bytes, next)) => Ok((ValueView::Bytes(bytes), next)),
                }
            },
            FormatView::Optional(inner) => match r.take_bit() {
                None => Err(IoErrorKind::UnexpectedEof),
                Some((present, after)) => if present {
                    match decode(formats, inner as int, after.skip()) {
                        Err(kind) => Err(kind),
                        Ok((held, next)) => Ok((ValueView::Optional(Some(Box::new(held))), next)),
                    }
                } else {
                    Ok((ValueView::Optional(None), after.skip()))
                },
            },
            FormatView::Json => match decode_text(r) {
                Err(kind) => Err(kind),
                Ok((text, next)) => Ok((ValueView::Json(text), next)),
            },
            FormatView::Struct(fields) => match decode_fields(formats, place, fields, r) {
                Err(kind) => Err(kind),
                Ok((values, next)) => Ok((ValueView::Struct(values), next)),
            },
            FormatView::Array(size, each) => match decode_count(
                formats,
                place,
                each as int,
                size as nat,
                r,
            ) {
                Err(kind) => Err(kind),
                Ok((values, next)) => Ok((ValueView::List(values), next)),
            },
            FormatView::Prefix(prefix, each) => match formats[prefix as int] {
                FormatView::Simple(kind) => match decode_scalar(kind, r) {
                    Err(kind) => Err(kind),
                    Ok((counted, after)) => match scalar_count(counted) {
                        None => Err(IoErrorKind::InvalidData),
                        Some(count) => match decode_count(formats, place, each as int, count, after) {
                            Err(kind) => Err(kind),
                            Ok((values, next)) => Ok((ValueView::List(values), next)),
                        },
                    },
                },
                _ => Err(IoErrorKind::InvalidData),
            },
            FormatView::Tail(each) => match decode_tail(formats, place, each as int, r) {
                Err(kind) => Err(kind),
                Ok((values, next)) => Ok((ValueView::List(values), next)),
            },
        }
    } else {
        Err(IoErrorKind::InvalidData)
    }
}

/// The values of the fields `fields` that stand next, one after the other,
/// and what follows them.
pub open spec fn decode_fields(
    formats: Seq<FormatView>,
    bound: int,
    fields: Seq<(Seq<char>, usize)>,
    r: ReaderView,
) -> Result<(Seq<ValueView>, ReaderView), IoErrorKind>
    decreases 2 * bound, fields.len(), 0nat,
{
    if fields.len() == 0 {
        Ok((Seq::empty(), r))
    } else {
        match decode_fields(formats, bound, fields.drop_last(), r) {
            Err(kind) => Err(kind),
            Ok((values, after)) => if fields.last().1 >= bound {
                Err(IoErrorKind::InvalidData)
            } else {
                match decode(formats, fields.last().1 as int, after) {
                    Err(kind) => Err(kind),
                    Ok((value, next)) => Ok((values.push(value), next)),
                }
            },
        }
    }
}

/// The `count` values of the format at `each` that stand next, and what
/// follows them.
pub open spec fn decode_count(
    formats: Seq<FormatView>,
    bound: int,
    each: int,
    count: nat,
    r: ReaderView,
) -> Result<(Seq<ValueView>, ReaderView), IoErrorKind>
    decreases 2 * bound, count, 0nat,
{
    if count == 0 {
        Ok((Seq::empty(), r))
    } else {
        match decode_count(formats, bound, each, (count - 1) as nat, r) {
            Err(kind) => Err(kind),
            Ok((values, after)) => if each < 0 || each >= bound {
                Err(IoErrorKind::InvalidData)
            } else {
                match decode(formats, each, after) {
                    Err(kind) => Err(kind),
                    Ok((value, next)) => Ok((values.push(value), next)),
                }
            },
        }
    }
}

/// The values of the format at `each` that stand between here and the end
/// of the data, and the end. A value that takes nothing from the data
/// would never reach the end: with such a format the data is invalid.
pub open spec fn decode_tail(formats: Seq<FormatView>, bound: int, each: int, r: ReaderView) -> Result<
    (Seq<ValueView>, ReaderView),
    IoErrorKind,
>
    decreases 2 * bound, bits_left(r), 1nat,
{
    if bits_left(r) == 0 {
        Ok((Seq::empty(), r))
    } else if each < 0 || each >= bound {
        Err(IoErrorKind::InvalidData)
    } else {
        match decode(formats, each, r) {
            Err(kind) => Err(kind),
            Ok((value, after)) => if bits_left(after) < bits_left(r) {
                match decode_tail(formats, bound, each, after) {
                    Err(kind) => Err(kind),
                    Ok((values, next)) => Ok((seq![value] + values, next)),
                }
            } else {
                Err(IoErrorKind::InvalidData)
            },
        }
    }
}

/// One byte spells itself.
pub proof fn lemma_single_byte(bytes: Seq<u8>)
    requires
        bytes.len() == 1,
    ensures
        crate::io::endian::be_value(bytes) == bytes[0],
{
    reveal_with_fuel(crate::io::endian::be_value, 2);
}

/// An error among the first fields is the error of them all.
pub proof fn lemma_fields_unreadable(
    formats: Seq<FormatView>,
    bound: int,
    fields: Seq<(Seq<char>, usize)>,
    r: ReaderView,
    count: int,
)
    requires
        0 <= count <= fields.len(),
        decode_fields(formats, bound, fields.take(count), r) is Err,
    ensures
        decode_fields(formats, bound, fields, r) == decode_fields(
            formats,
            bound,
            fields.take(count),
            r,
        ),
    decreases fields.len() - count,
{
    if count < fields.len() {
        assert(fields.take(count + 1).drop_last() =~= fields.take(count));
        lemma_fields_unreadable(formats, bound, fields, r, count + 1);
    } else {
        assert(fields.take(count) =~= fields);
    }
}

/// An error among the first values is the error of them all.
pub proof fn lemma_count_unreadable(
    formats: Seq<FormatView>,
    bound: int,
    each: int,
    r: ReaderView,
    count: nat,
    more: nat,
)
    requires
        count <= more,
        decode_count(formats, bound, each, count, r) is Err,
    ensures
        decode_count(formats, bound, each, more, r) == decode_count(formats, bound, each, count, r),
    decreases more - count,
{
    if count < more {
        lemma_count_unreadable(formats, bound, each, r, count, (more - 1) as nat);
    }
}

/// What is read after `done`: the values that `rest` gives, behind those
/// already at hand.
pub open spec fn read_after(
    done: Seq<ValueView>,
    rest: Result<(Seq<ValueView>, ReaderView), IoErrorKind>,
) -> Result<(Seq<ValueView>, ReaderView), IoErrorKind> {
    match rest {
        Err(kind) => Err(kind),
        Ok((values, next)) => Ok((done + values, next)),
    }
}

/// The error of data that is not what its format says.
pub fn invalid_data() -> (e: IoError)
    ensures
        e.kind == IoErrorKind::InvalidData,
{
    IoError {
        kind: IoErrorKind::InvalidData,
        description: String::from_str("Data does not match its format"),
    }
}

/// Reads a scalar of the kind `kind`. After an error the reader stands
/// where it stood.
pub fn read_scalar(kind: ScalarKind, reader: &mut CubeReader) -> (r: IoResult<ScalarValue>)
    requires
        old(reader).wf(),
    ensures
        final(reader).wf(),
        match decode_scalar(kind, old(reader)@) {
            Ok((value, next)) => r == Ok::<ScalarValue, IoError>(value) && final(reader)@ == next,
            Err(kind) => *final(reader) == *old(reader) && (r matches Err(e) && e.kind == kind),
        },
{
    match kind {
        ScalarKind::Bool => Ok(ScalarValue::Bool(reader.read_bit()?)),
        ScalarKind::Nibble => {
            if reader.current_bit % 4 != 0 {
                return Err(crate::util::misaligned("Pointer is not at a complete nibble"));
            }
            Ok(ScalarValue::Nibble(reader.read_nibble()?))
        },
        ScalarKind::Text => Err(invalid_data()),
        _ => {
            if !reader.is_complete_byte() {
                return Err(crate::util::misaligned("Pointer is not at a complete byte"));
            }
            proof {
                if old(reader)@.rest.len() >= 1 {
                    lemma_single_byte(old(reader)@.rest.take(1));
                }
            }
            match kind {
                ScalarKind::Int8 => Ok(ScalarValue::Int8(reader.read_int8()?)),
                ScalarKind::Int16 => Ok(ScalarValue::Int16(reader.read_int16()?)),
                ScalarKind::Int32 | ScalarKind::Vint32 => Ok(
                    ScalarValue::Int32(reader.read_int32()?),
                ),
                ScalarKind::Int64 | ScalarKind::Vint64 => Ok(
                    ScalarValue::Int64(reader.read_int64()?),
                ),
                ScalarKind::Uint8 => Ok(ScalarValue::Uint8(reader.read_uint8()?)),
                ScalarKind::Uint16 => Ok(ScalarValue::Uint16(reader.read_uint16()?)),
                ScalarKind::Uint32 | ScalarKind::Uvint32 => Ok(
                    ScalarValue::Uint32(reader.read_uint32()?),
                ),
                ScalarKind::Uint64 | ScalarKind::Uvint64 => Ok(
                    ScalarValue::Uint64(reader.read_uint64()?),
                ),
                ScalarKind::Float32 => Ok(ScalarValue::Float32(reader.read_float32()?)),
                ScalarKind::Float64 => Ok(ScalarValue::Float64(reader.read_float64()?)),
                _ => Err(invalid_data()),
            }
        },
    }
}

/// Reads a text behind its length in two bytes. After an error the reader
/// stands where it stood.
pub fn read_text(reader: &mut CubeReader) -> (r: IoResult<String>)
    requires
        old(reader).wf(),
    ensures
        final(reader).wf(),
        match decode_text(old(reader)@) {
            Ok((text, next)) => (r matches Ok(read) && read@ == text) && final(reader)@ == next,
            Err(kind) => *final(reader) == *old(reader) && (r matches Err(e) && e.kind == kind),
        },
{
    if !reader.is_complete_byte() {
        return Err(crate::util::misaligned("Pointer is not at a complete byte"));
    }
    reader.read_string()
}

/// The count that the scalar `value` gives.
pub fn count_of(value: ScalarValue) -> (r: Option<u64>)
    ensures
        match scalar_count(value) {
            Some(count) => r == Some(count as u64) && count <= u64::MAX,
            None => r is None,
        },
{
    match value {
        ScalarValue::Nibble(v) => Some(v as u64),
        ScalarValue::Int8(v) => if v >= 0 {
            Some(v as u64)
        } else {
            None
        },
        ScalarValue::Int16(v) => if v >= 0 {
            Some(v as u64)
        } else {
            None
        },
        ScalarValue::Int32(v) => if v >= 0 {
            Some(v as u64)
        } else {
            None
        },
        ScalarValue::Int64(v) => if v >= 0 {
            Some(v as u64)
        } else {
            None
        },
        ScalarValue::Uint8(v) => Some(v as u64),
        ScalarValue::Uint16(v) => Some(v as u64),
        ScalarValue::Uint32(v) => Some(v as u64),
        ScalarValue::Uint64(v) => Some(v),
        _ => None,
    }
}

/// Reads a value of the format at `place`. After an error the reader
/// stands where it stood.
pub fn decode_value(types: &Types, place: usize, reader: &mut CubeReader) -> (r: IoResult<
    FieldValue,
>)
    requires
        types.wf(),
        place < types@.formats.len(),
        old(reader).wf(),
    ensures
        final(reader).wf(),
        match decode(types@.formats, place as int, old(reader)@) {
            Ok((value, next)) => (r matches Ok(read) && read@ == value) && final(reader)@ == next,
            Err(kind) => *final(reader) == *old(reader) && (r matches Err(e) && e.kind == kind),
        },
{
    let start = *reader;
    match read_value(types, place, reader) {
        Ok(value) => Ok(value),
        Err(e) => {
            *reader = start;
            Err(e)
        },
    }
}

/// Reads the values of the fields `fields`, whose formats stand before
/// `bound`, one after the other. After an error the reader stands where it
/// stood.
pub fn decode_struct(
    types: &Types,
    bound: usize,
    fields: &Vec<(String, usize)>,
    reader: &mut CubeReader,
) -> (r: IoResult<Vec<FieldValue>>)
    requires
        types.wf(),
        bound <= types@.formats.len(),
        old(reader).wf(),
    ensures
        final(reader).wf(),
        match decode_fields(
            types@.formats,
            bound as int,
            crate::compiler::registry::fields_view(fields@),
            old(reader)@,
        ) {
            Ok((values, next)) => (r matches Ok(read) && crate::protocol::value::views_of(read@)
                == values) && final(reader)@ == next,
            Err(kind) => *final(reader) == *old(reader) && (r matches Err(e) && e.kind == kind),
        },
{
    let start = *reader;
    match read_fields(types, bound, fields, reader) {
        Ok(values) => Ok(values),
        Err(e) => {
            *reader = start;
            Err(e)
        },
    }
}

/// Reads a value of the format at `place`; after an error the reader may
/// stand anywhere.
fn read_value(types: &Types, place: usize, reader: &mut CubeReader) -> (r: IoResult<
    FieldValue,
>)
    requires
        types.wf(),
        place < types@.formats.len(),
        old(reader).wf(),
    ensures
        final(reader).wf(),
        match decode(types@.formats, place as int, old(reader)@) {
            Ok((value, next)) => (r matches Ok(read) && read@ == value) && final(reader)@ == next,
            Err(kind) => r matches Err(e) && e.kind == kind,
        },
    decreases 2 * place + 1, 0nat, 0nat,
{
    let ghost formats = types@.formats;
    assert(formats[place as int].refers_below(place as int));
    assert(formats[place as int] == types.formats@[place as int]@);
    match &types.formats[place] {
        FieldFormat::Nop(_) => {
            assert(formats[place as int] == FormatView::Nop);
            reader.read_nop()?;
            Ok(FieldValue::Unit)
        },
        FieldFormat::Simple(format) => {
            assert(formats[place as int] == FormatView::Simple(format.kind));
            match format.kind {
                ScalarKind::Text => {
                    let text = read_text(reader)?;
                    Ok(FieldValue::Text(text))
                },
                _ => {
                    let scalar = read_scalar(format.kind, reader)?;
                    Ok(FieldValue::Scalar(scalar))
                },
            }
        },
        FieldFormat::ByteArray(format) => {
            assert(formats[place as int] == FormatView::ByteArray(format.length));
            if !reader.is_complete_byte() {
                return Err(crate::util::misaligned("Pointer is not at a complete byte"));
            }
            if reader.source.len() < format.length {
                return Err(crate::io::reader::unexpected_eof());
            }
            let mut bytes: Vec<u8> = Vec::new();
            bytes.resize(format.length, 0);
            reader.read_bytes(bytes.as_mut_slice())?;
            Ok(FieldValue::Bytes(bytes))
        },
        FieldFormat::Optional(format) => {
            assert(formats[place as int] == FormatView::Optional(format.inner));
            let present = reader.read_bit()?;
            reader.read_nop()?;
            if present {
                let held = read_value(types, format.inner, reader)?;
                Ok(FieldValue::Optional(Some(Box::new(held))))
            } else {
                Ok(FieldValue::Optional(None))
            }
        },
        FieldFormat::Json(_) => {
            assert(formats[place as int] == FormatView::Json);
            let text = read_text(reader)?;
            Ok(FieldValue::Json(text))
        },
        FieldFormat::Struct(format) => {
            assert(formats[place as int] == FormatView::Struct(
                crate::compiler::registry::fields_view(format.properties@),
            ));
            let values = read_fields(types, place, &format.properties, reader)?;
            Ok(FieldValue::Struct(values))
        },
        FieldFormat::Array(format) => {
            assert(formats[place as int] == FormatView::Array(format.size, format.each));
            let values = read_count(types, place, format.each, format.size as u64, reader)?;
            Ok(FieldValue::List(values))
        },
        FieldFormat::Prefix(format) => {
            assert(formats[place as int] == FormatView::Prefix(format.prefix, format.each));
            assert(formats[format.prefix as int] == types.formats@[format.prefix as int]@);
            match &types.formats[format.prefix] {
                FieldFormat::Simple(counter) => {
                    let counted = read_scalar(counter.kind, reader)?;
                    match count_of(counted) {
                        Some(count) => {
                            let values = read_count(types, place, format.each, count, reader)?;
                            Ok(FieldValue::List(values))
                        },
                        None => Err(invalid_data()),
                    }
                },
                _ => Err(invalid_data()),
            }
        },
        FieldFormat::Tail(format) => {
            assert(formats[place as int] == FormatView::Tail(format.each));
            let values = read_rest(types, place, format.each, reader)?;
            Ok(FieldValue::List(values))
        },
    }
}

/// Reads the values of the fields `fields` of the structure at `bound`.
fn read_fields(
    types: &Types,
    bound: usize,
    fields: &Vec<(String, usize)>,
    reader: &mut CubeReader,
) -> (r: IoResult<Vec<FieldValue>>)
    requires
        types.wf(),
        bound <= types@.formats.len(),
        old(reader).wf(),
    ensures
        final(reader).wf(),
        match decode_fields(
            types@.formats,
            bound as int,
            crate::compiler::registry::fields_view(fields@),
            old(reader)@,
        ) {
            Ok((values, next)) => (r matches Ok(read) && crate::protocol::value::views_of(read@)
                == values) && final(reader)@ == next,
            Err(kind) => r matches Err(e) && e.kind == kind,
        },
    decreases 2 * bound, fields@.len(), 0nat,
{
    let ghost formats = types@.formats;
    let ghost names = crate::compiler::registry::fields_view(fields@);
    let mut values: Vec<FieldValue> = Vec::new();
    let mut i: usize = 0;
    assert(names.take(0) =~= Seq::empty());
    assert(crate::protocol::value::views_of(values@) =~= Seq::empty());
    while i < fields.len()
        invariant
            i <= fields.len(),
            types.wf(),
            bound <= types@.formats.len(),
            formats == types@.formats,
            names == crate::compiler::registry::fields_view(fields@),
            reader.wf(),
            decode_fields(formats, bound as int, names.take(i as int), old(reader)@) == Ok::<
                (Seq<ValueView>, ReaderView),
                IoErrorKind,
            >((crate::protocol::value::views_of(values@), reader@)),
        decreases fields.len() - i,
    {
        assert(names.take(i + 1).drop_last() =~= names.take(i as int));
        assert(names.take(i + 1).last() == (fields@[i as int].0@, fields@[i as int].1));
        let place = fields[i].1;
        if place >= bound {
            proof {
                lemma_fields_unreadable(formats, bound as int, names, old(reader)@, i + 1);
            }
            return Err(invalid_data());
        }
        match read_value(types, place, reader) {
            Ok(value) => {
                assert(crate::protocol::value::views_of(values@.push(value))
                    =~= crate::protocol::value::views_of(values@).push(value@));
                values.push(value);
            },
            Err(e) => {
                proof {
                    lemma_fields_unreadable(formats, bound as int, names, old(reader)@, i + 1);
                }
                return Err(e);
            },
        }
        i += 1;
    }
    assert(names.take(i as int) =~= names);
    Ok(values)
}

/// Reads `count` values of the format at `each`.
fn read_count(
    types: &Types,
    bound: usize,
    each: usize,
    count: u64,
    reader: &mut CubeReader,
) -> (r: IoResult<Vec<FieldValue>>)
    requires
        types.wf(),
        bound <= types@.formats.len(),
        old(reader).wf(),
    ensures
        final(reader).wf(),
        match decode_count(types@.formats, bound as int, each as int, count as nat, old(reader)@) {
            Ok((values, next)) => (r matches Ok(read) && crate::protocol::value::views_of(read@)
                == values) && final(reader)@ == next,
            Err(kind) => r matches Err(e) && e.kind == kind,
        },
    decreases 2 * bound, count, 0nat,
{
    let ghost formats = types@.formats;
    let mut values: Vec<FieldValue> = Vec::new();
    let mut i: u64 = 0;
    assert(crate::protocol::value::views_of(values@) =~= Seq::empty());
    while i < count
        invariant
            i <= count,
            types.wf(),
            bound <= types@.formats.len(),
            formats == types@.formats,
            reader.wf(),
            decode_count(formats, bound as int, each as int, i as nat, old(reader)@) == Ok::<
                (Seq<ValueView>, ReaderView),
                IoErrorKind,
            >((crate::protocol::value::views_of(values@), reader@)),
        decreases count - i,
    {
        if each >= bound {
            proof {
                lemma_count_unreadable(
                    formats,
                    bound as int,
                    each as int,
                    old(reader)@,
                    (i + 1) as nat,
                    count as nat,
                );
            }
            return Err(invalid_data());
        }
        match read_value(types, each, reader) {
            Ok(value) => {
                assert(crate::protocol::value::views_of(values@.push(value))
                    =~= crate::protocol::value::views_of(values@).push(value@));
                values.push(value);
            },
            Err(e) => {
                proof {
                    lemma_count_unreadable(
                        formats,
                        bound as int,
                        each as int,
                        old(reader)@,
                        (i + 1) as nat,
                        count as nat,
                    );
                }
                return Err(e);
            },
        }
        i += 1;
    }
    Ok(values)
}

/// Reads values of the format at `each` until the data ends.
fn read_rest(types: &Types, bound: usize, each: usize, reader: &mut CubeReader) -> (r:
    IoResult<Vec<FieldValue>>)
    requires
        types.wf(),
        bound <= types@.formats.len(),
        old(reader).wf(),
    ensures
        final(reader).wf(),
        match decode_tail(types@.formats, bound as int, each as int, old(reader)@) {
            Ok((values, next)) => (r matches Ok(read) && crate::protocol::value::views_of(read@)
                == values) && final(reader)@ == next,
            Err(kind) => r matches Err(e) && e.kind == kind,
        },
    decreases 2 * bound, bits_left(old(reader)@), 1nat,
{
    let ghost formats = types@.formats;
    let ghost whole = decode_tail(formats, bound as int, each as int, reader@);
    let mut values: Vec<FieldValue> = Vec::new();
    assert(crate::protocol::value::views_of(values@) =~= Seq::empty());
    assert(whole == read_after(
        crate::protocol::value::views_of(values@),
        decode_tail(formats, bound as int, each as int, reader@),
    )) by {
        match whole {
            Ok((found, _)) => {
                assert(Seq::<ValueView>::empty() + found =~= found);
            },
            Err(_) => {},
        }
    }
    loop
        invariant
            types.wf(),
            bound <= types@.formats.len(),
            formats == types@.formats,
            reader.wf(),
            bits_left(reader@) <= bits_left(old(reader)@),
            whole == decode_tail(formats, bound as int, each as int, old(reader)@),
            whole == read_after(
                crate::protocol::value::views_of(values@),
                decode_tail(formats, bound as int, each as int, reader@),
            ),
        decreases bits_left(reader@),
    {
        let ghost done = crate::protocol::value::views_of(values@);
        let ghost before = reader@;
        if reader.current_bit == 0 && reader.source.len() == 0 {
            assert(bits_left(before) == 0);
            assert(done + Seq::<ValueView>::empty() =~= done);
            return Ok(values);
        }
        assert(bits_left(before) > 0);
        if each >= bound {
            return Err(invalid_data());
        }
        let length = reader.source.len();
        let offset = reader.current_bit;
        match read_value(types, each, reader) {
            Ok(value) => {
                let shorter = reader.source.len() < length || (reader.source.len() == length && (
                if reader.current_bit == 0 {
                    0
                } else {
                    8 - reader.current_bit
                }) < (if offset == 0 {
                    0
                } else {
                    8 - offset
                }));
                assert(shorter == (bits_left(reader@) < bits_left(before)));
                if !shorter {
                    return Err(invalid_data());
                }
                proof {
                    let after = reader@;
                    match decode_tail(formats, bound as int, each as int, after) {
                        Ok((more, _)) => {
                            assert(done + (seq![value@] + more) =~= done.push(value@) + more);
                        },
                        Err(_) => {},
                    }
                    assert(crate::protocol::value::views_of(values@.push(value)) =~= done.push(
                        value@,
                    ));
                }
                values.push(value);
            },
            Err(e) => {
                return Err(e);
            },
        }
    }
}

} // verus!
