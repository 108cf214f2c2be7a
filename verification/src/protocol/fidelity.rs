//! Values written in a format are read back in it: the law that ties the
//! writing and the reading of fields together, for the formats that are
//! made of whole bytes.

use crate::compiler::format::{FormatView, ScalarKind};
use crate::io::reader::ReaderView;
use crate::io::writer::WriterView;
use crate::protocol::decode::{
    decode, decode_count, decode_fields, decode_scalar, decode_text, scalar_count,
};
use crate::protocol::encode::{
    count_value, encode, encode_all, encode_fields, encode_scalar, encode_text,
};
use crate::protocol::value::{ScalarValue, ValueView};
use crate::util::IoErrorKind;
use vstd::prelude::*;

verus! {

/// Whether the scalar is written as whole bytes.
pub open spec fn byte_kind(kind: ScalarKind) -> bool {
    kind != ScalarKind::Bool && kind != ScalarKind::Nibble
}

/// Whether the scalar is one of integers that are written as whole bytes.
pub open spec fn count_kind(kind: ScalarKind) -> bool {
    byte_kind(kind) && kind != ScalarKind::Text && kind != ScalarKind::Float32 && kind
        != ScalarKind::Float64
}

/// Whether the format at `place` is made of whole bytes, and says by itself
/// where its values end: any format but a lone bit, a lone nibble, or a
/// list that runs to the end of the data, and made of such formats alone.
pub open spec fn byte_format(formats: Seq<FormatView>, place: int) -> bool
    decreases 2 * place + 1, 0nat,
{
    if 0 <= place < formats.len() && formats[place].refers_below(place) {
        match formats[place] {
            FormatView::Nop => true,
            FormatView::Simple(kind) => byte_kind(kind),
            FormatView::ByteArray(_) => true,
            FormatView::Json => true,
            FormatView::Optional(inner) => byte_format(formats, inner as int),
            FormatView::Struct(fields) => byte_fields(formats, place, fields),
            FormatView::Array(_, each) => byte_format(formats, each as int),
            FormatView::Prefix(prefix, each) => (formats[prefix as int] matches FormatView::Simple(
                kind,
            ) && count_kind(kind)) && byte_format(formats, each as int),
            FormatView::Tail(_) => false,
        }
    } else {
        false
    }
}

/// Whether the formats of the fields `fields`, which stand before `bound`,
/// are all made of whole bytes.
pub open spec fn byte_fields(formats: Seq<FormatView>, bound: int, fields: Seq<(Seq<char>, usize)>) -> bool
    decreases 2 * bound, fields.len(),
{
    if fields.len() == 0 {
        true
    } else {
        fields.last().1 < bound && byte_fields(formats, bound, fields.drop_last()) && byte_format(
            formats,
            fields.last().1 as int,
        )
    }
}

/// The bytes that writing adds: what `after` holds behind what `before`
/// held.
pub open spec fn added(before: WriterView, after: WriterView) -> Seq<u8> {
    after.bytes.skip(before.bytes.len() as int)
}

/// A scalar of whole bytes survives writing and reading.
pub proof fn lemma_scalar_fidelity(kind: ScalarKind, value: ScalarValue, w: WriterView, tail: Seq<u8>)
    requires
        byte_kind(kind),
        w.aligned(),
        encode_scalar(kind, value, w) is Ok,
    ensures
        encode_scalar(kind, value, w) == Ok::<WriterView, IoErrorKind>(
            w.push_bytes(added(w, encode_scalar(kind, value, w)->Ok_0)),
        ),
        decode_scalar(kind, ReaderView::over(added(w, encode_scalar(kind, value, w)->Ok_0) + tail))
            == Ok::<(ScalarValue, ReaderView), IoErrorKind>((value, ReaderView::over(tail))),
{
    let after = encode_scalar(kind, value, w)->Ok_0;
    let bytes = added(w, after);
    assert(after.bytes =~= w.bytes + bytes);
    crate::io::laws::lemma_bytes_round_trip(bytes, tail);
    match value {
        ScalarValue::Int8(v) => {
            assert(bytes =~= seq![v as u8]);
            crate::protocol::decode::lemma_single_byte(bytes);
            crate::io::laws::lemma_int8_round_trip(v);
        },
        ScalarValue::Int16(v) => {
            assert(bytes =~= crate::io::endian::be_bytes(v as u16 as nat, 2));
            crate::io::laws::lemma_int16_round_trip(v);
        },
        ScalarValue::Int32(v) => {
            assert(bytes =~= crate::io::endian::be_bytes(v as u32 as nat, 4));
            crate::io::laws::lemma_int32_round_trip(v);
        },
        ScalarValue::Int64(v) => {
            assert(bytes =~= crate::io::endian::be_bytes(v as u64 as nat, 8));
            crate::io::laws::lemma_int64_round_trip(v);
        },
        ScalarValue::Uint8(v) => {
            assert(bytes =~= seq![v]);
            crate::protocol::decode::lemma_single_byte(bytes);
        },
        ScalarValue::Uint16(v) => {
            assert(bytes =~= crate::io::endian::be_bytes(v as nat, 2));
            crate::io::laws::lemma_uint16_round_trip(v);
        },
        ScalarValue::Uint32(v) => {
            assert(bytes =~= crate::io::endian::be_bytes(v as nat, 4));
            crate::io::laws::lemma_uint32_round_trip(v);
        },
        ScalarValue::Uint64(v) => {
            assert(bytes =~= crate::io::endian::be_bytes(v as nat, 8));
            crate::io::laws::lemma_uint64_round_trip(v);
        },
        ScalarValue::Float32(v) => {
            assert(bytes =~= crate::io::endian::be_bytes(v as nat, 4));
            crate::io::laws::lemma_uint32_round_trip(v);
        },
        ScalarValue::Float64(v) => {
            assert(bytes =~= crate::io::endian::be_bytes(v as nat, 8));
            crate::io::laws::lemma_uint64_round_trip(v);
        },
        _ => {},
    }
}

/// A text survives writing and reading.
pub proof fn lemma_text_fidelity(text: Seq<char>, w: WriterView, tail: Seq<u8>)
    requires
        encode_text(text, w) is Ok,
    ensures
        encode_text(text, w) == Ok::<WriterView, IoErrorKind>(w.push_bytes(added(w, encode_text(text, w)->Ok_0))),
        decode_text(ReaderView::over(added(w, encode_text(text, w)->Ok_0) + tail)) == Ok::<
            (Seq<char>, ReaderView),
            IoErrorKind,
        >((text, ReaderView::over(tail))),
{
    let after = encode_text(text, w)->Ok_0;
    let bytes = added(w, after);
    assert(after.bytes =~= w.bytes + bytes);
    assert(bytes =~= crate::io::writer::string_bytes(text));
    crate::io::laws::lemma_string_round_trip(text, tail);
}

/// A count survives being held by a scalar of integers.
pub proof fn lemma_count_fidelity(kind: ScalarKind, count: nat)
    requires
        count_value(kind, count) is Some,
    ensures
        count_value(kind, count)->Some_0.is_of(kind),
        kind != ScalarKind::Nibble ==> scalar_count(count_value(kind, count)->Some_0) == Some(count),
{
}

/// A single bit survives writing, padding and reading.
pub proof fn lemma_bool_fidelity(flag: bool, w: WriterView, tail: Seq<u8>)
    requires
        w.aligned(),
    ensures
        encode_scalar(ScalarKind::Bool, ScalarValue::Bool(flag), w) matches Ok(after)
            && after.pad() == w.push_bytes(seq![crate::io::bits::flag_byte(flag)]),
        decode_scalar(
            ScalarKind::Bool,
            ReaderView::over(seq![crate::io::bits::flag_byte(flag)] + tail),
        ) matches Ok((read, next)) && read == ScalarValue::Bool(flag) && next.skip()
            == ReaderView::over(tail),
{
    crate::io::laws::lemma_flag_written(w, flag);
    crate::io::laws::lemma_flag_read(flag, tail);
}

/// A single nibble survives writing, padding and reading.
pub proof fn lemma_nibble_fidelity(nibble: u8, w: WriterView, tail: Seq<u8>)
    requires
        w.aligned(),
        nibble < 16,
    ensures
        encode_scalar(ScalarKind::Nibble, ScalarValue::Nibble(nibble), w) matches Ok(after)
            && after.pad() == w.push_bytes(seq![crate::io::bits::nibble_pair(nibble, 0)]),
        decode_scalar(
            ScalarKind::Nibble,
            ReaderView::over(seq![crate::io::bits::nibble_pair(nibble, 0)] + tail),
        ) matches Ok((read, next)) && read == ScalarValue::Nibble(nibble) && next.skip()
            == ReaderView::over(tail),
{
    assert(w.pending =~= Seq::empty());
    crate::io::laws::lemma_nibble_round_trip(w, nibble, tail);
}

/// A value of a format of whole bytes, written at a byte boundary, adds
/// whole bytes; and wherever these bytes stand, reading a value of the
/// format gives the value back and leaves what follows the bytes.
#[verifier::rlimit(50)]
pub proof fn lemma_fidelity(
    formats: Seq<FormatView>,
    place: int,
    value: ValueView,
    w: WriterView,
    tail: Seq<u8>,
)
    requires
        byte_format(formats, place),
        w.aligned(),
        encode(formats, place, value, w) is Ok,
    ensures
        encode(formats, place, value, w) == Ok::<WriterView, IoErrorKind>(
            w.push_bytes(added(w, encode(formats, place, value, w)->Ok_0)),
        ),
        decode(
            formats,
            place,
            ReaderView::over(added(w, encode(formats, place, value, w)->Ok_0) + tail),
        ) == Ok::<(ValueView, ReaderView), IoErrorKind>((value, ReaderView::over(tail))),
    decreases 2 * place + 1, 0nat,
{
    let after = encode(formats, place, value, w)->Ok_0;
    let bytes = added(w, after);
    assert(w.pending =~= Seq::empty());
    match (formats[place], value) {
        (FormatView::Nop, ValueView::Unit) => {
            assert(bytes =~= Seq::empty());
            assert(after.bytes =~= w.bytes + bytes);
            assert(bytes + tail =~= tail);
        },
        (FormatView::Simple(ScalarKind::Text), ValueView::Text(text)) => {
            lemma_text_fidelity(text, w, tail);
        },
        (FormatView::Simple(kind), ValueView::Scalar(scalar)) => {
            lemma_scalar_fidelity(kind, scalar, w, tail);
        },
        (FormatView::ByteArray(length), ValueView::Bytes(held)) => {
            assert(bytes =~= held);
            assert(after.bytes =~= w.bytes + bytes);
            crate::io::laws::lemma_bytes_round_trip(held, tail);
        },
        (FormatView::Optional(_), ValueView::Optional(None)) => {
            crate::io::laws::lemma_flag_written(w, false);
            crate::io::laws::lemma_flag_read(false, tail);
            assert(bytes =~= seq![crate::io::bits::flag_byte(false)]);
            assert(after.bytes =~= w.bytes + bytes);
        },
        (FormatView::Optional(inner), ValueView::Optional(Some(held))) => {
            let flagged = w.push_bit(true).pad();
            crate::io::laws::lemma_flag_written(w, true);
            lemma_fidelity(formats, inner as int, *held, flagged, tail);
            let inside = added(flagged, after);
            let flag = seq![crate::io::bits::flag_byte(true)];
            assert(bytes =~= flag + inside);
            assert(after.bytes =~= w.bytes + bytes);
            crate::io::laws::lemma_flag_read(true, inside + tail);
            assert(bytes + tail =~= flag + (inside + tail));
        },
        (FormatView::Json, ValueView::Json(text)) => {
            lemma_text_fidelity(text, w, tail);
        },
        (FormatView::Struct(fields), ValueView::Struct(values)) => {
            lemma_fields_fidelity(formats, place, fields, values, w, tail);
        },
        (FormatView::Array(size, each), ValueView::List(values)) => {
            lemma_all_fidelity(formats, place, each as int, values, w, tail);
        },
        (FormatView::Prefix(prefix, each), ValueView::List(values)) => {
            let kind = formats[prefix as int]->Simple_0;
            let count = count_value(kind, values.len())->Some_0;
            let counted = encode_scalar(kind, count, w)->Ok_0;
            let head = added(w, counted);
            lemma_count_fidelity(kind, values.len());
            lemma_scalar_fidelity(kind, count, w, Seq::empty());
            assert(counted == w.push_bytes(head));
            lemma_all_fidelity(formats, place, each as int, values, counted, tail);
            let inside = added(counted, after);
            lemma_scalar_fidelity(kind, count, w, inside + tail);
            assert(bytes =~= head + inside);
            assert(after.bytes =~= w.bytes + bytes);
            assert(bytes + tail =~= head + (inside + tail));
        },
        _ => {},
    }
}

/// The values of fields of whole bytes survive writing and reading.
pub proof fn lemma_fields_fidelity(
    formats: Seq<FormatView>,
    bound: int,
    fields: Seq<(Seq<char>, usize)>,
    values: Seq<ValueView>,
    w: WriterView,
    tail: Seq<u8>,
)
    requires
        byte_fields(formats, bound, fields),
        w.aligned(),
        encode_fields(formats, bound, fields, values, w) is Ok,
    ensures
        encode_fields(formats, bound, fields, values, w) == Ok::<WriterView, IoErrorKind>(
            w.push_bytes(added(w, encode_fields(formats, bound, fields, values, w)->Ok_0)),
        ),
        decode_fields(
            formats,
            bound,
            fields,
            ReaderView::over(
                added(w, encode_fields(formats, bound, fields, values, w)->Ok_0) + tail,
            ),
        ) == Ok::<(Seq<ValueView>, ReaderView), IoErrorKind>((values, ReaderView::over(tail))),
    decreases 2 * bound, fields.len(),
{
    let after = encode_fields(formats, bound, fields, values, w)->Ok_0;
    let bytes = added(w, after);
    assert(w.pending =~= Seq::empty());
    if fields.len() == 0 {
        assert(bytes =~= Seq::empty());
        assert(after.bytes =~= w.bytes + bytes);
        assert(bytes + tail =~= tail);
        assert(values =~= Seq::empty());
    } else {
        let before = encode_fields(formats, bound, fields.drop_last(), values.drop_last(), w)->Ok_0;
        let first = added(w, before);
        lemma_fields_fidelity(formats, bound, fields.drop_last(), values.drop_last(), w, Seq::empty());
        assert(before == w.push_bytes(first));
        lemma_fidelity(formats, fields.last().1 as int, values.last(), before, tail);
        let last = added(before, after);
        assert(bytes =~= first + last);
        assert(after.bytes =~= w.bytes + bytes);
        lemma_fields_fidelity(formats, bound, fields.drop_last(), values.drop_last(), w, last + tail);
        assert(bytes + tail =~= first + (last + tail));
        assert(values.drop_last().push(values.last()) =~= values);
    }
}

/// The values of a list of whole bytes survive writing and reading.
pub proof fn lemma_all_fidelity(
    formats: Seq<FormatView>,
    bound: int,
    each: int,
    values: Seq<ValueView>,
    w: WriterView,
    tail: Seq<u8>,
)
    requires
        0 <= each < bound,
        byte_format(formats, each),
        w.aligned(),
        encode_all(formats, bound, each, values, w) is Ok,
    ensures
        encode_all(formats, bound, each, values, w) == Ok::<WriterView, IoErrorKind>(
            w.push_bytes(added(w, encode_all(formats, bound, each, values, w)->Ok_0)),
        ),
        decode_count(
            formats,
            bound,
            each,
            values.len(),
            ReaderView::over(added(w, encode_all(formats, bound, each, values, w)->Ok_0) + tail),
        ) == Ok::<(Seq<ValueView>, ReaderView), IoErrorKind>((values, ReaderView::over(tail))),
    decreases 2 * bound, values.len(),
{
    let after = encode_all(formats, bound, each, values, w)->Ok_0;
    let bytes = added(w, after);
    assert(w.pending =~= Seq::empty());
    if values.len() == 0 {
        assert(bytes =~= Seq::empty());
        assert(after.bytes =~= w.bytes + bytes);
        assert(bytes + tail =~= tail);
        assert(values =~= Seq::empty());
    } else {
        let before = encode_all(formats, bound, each, values.drop_last(), w)->Ok_0;
        let first = added(w, before);
        lemma_all_fidelity(formats, bound, each, values.drop_last(), w, Seq::empty());
        assert(before == w.push_bytes(first));
        lemma_fidelity(formats, each, values.last(), before, tail);
        let last = added(before, after);
        assert(bytes =~= first + last);
        assert(after.bytes =~= w.bytes + bytes);
        lemma_all_fidelity(formats, bound, each, values.drop_last(), w, last + tail);
        assert(bytes + tail =~= first + (last + tail));
        assert(values.drop_last().push(values.last()) =~= values);
    }
}

} // verus!
