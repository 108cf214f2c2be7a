//! Off a byte boundary: what the writing and the reading of fields refuse
//! behind a bit or a nibble that left a byte open.

use crate::compiler::format::ScalarKind;
use crate::io::bits::nibble_bits;
use crate::io::reader::ReaderView;
use crate::io::writer::WriterView;
use crate::protocol::decode::{decode_scalar, decode_text};
use crate::protocol::encode::{encode_scalar, encode_text};
use crate::protocol::fidelity::byte_kind;
use crate::protocol::value::ScalarValue;
use crate::util::IoErrorKind;
use vstd::prelude::*;

verus! {

/// Behind a bit or a nibble that was written at a byte boundary, nothing
/// that needs a byte boundary is written: the error is of the kind
/// `Misaligned`, whatever the value. Nor is a nibble written behind a bit.
/// Once the byte is padded, the same value is written.
pub proof fn lemma_written_off_boundary(
    w: WriterView,
    bit: bool,
    nibble: u8,
    kind: ScalarKind,
    value: ScalarValue,
    text: Seq<char>,
)
    requires
        w.aligned(),
        byte_kind(kind),
        kind != ScalarKind::Text,
        value.is_of(kind),
    ensures
        encode_scalar(kind, value, w.push_bit(bit)) == Err::<WriterView, IoErrorKind>(
            IoErrorKind::Misaligned,
        ),
        encode_scalar(kind, value, w.push_bits(nibble_bits(nibble))) == Err::<
            WriterView,
            IoErrorKind,
        >(IoErrorKind::Misaligned),
        encode_text(text, w.push_bit(bit)) == Err::<WriterView, IoErrorKind>(
            IoErrorKind::Misaligned,
        ),
        encode_text(text, w.push_bits(nibble_bits(nibble))) == Err::<WriterView, IoErrorKind>(
            IoErrorKind::Misaligned,
        ),
        nibble < 16 ==> encode_scalar(
            ScalarKind::Nibble,
            ScalarValue::Nibble(nibble),
            w.push_bit(bit),
        ) == Err::<WriterView, IoErrorKind>(IoErrorKind::Misaligned),
        encode_scalar(kind, value, w.push_bit(bit).pad()) is Ok,
        encode_scalar(kind, value, w.push_bits(nibble_bits(nibble)).pad()) is Ok,
{
    crate::io::writer::lemma_push_bits_pending(w, nibble_bits(nibble));
}

/// Behind a bit or a nibble that was read at a byte boundary, nothing that
/// needs a byte boundary is read: the error is of the kind `Misaligned`,
/// whatever follows. Nor is a nibble read behind a bit.
pub proof fn lemma_read_off_boundary(r: ReaderView, kind: ScalarKind)
    requires
        r.aligned(),
        r.rest.len() > 0,
        byte_kind(kind),
        kind != ScalarKind::Text,
    ensures
        r.take_bit() matches Some((_, after)) && decode_scalar(kind, after) == Err::<
            (ScalarValue, ReaderView),
            IoErrorKind,
        >(IoErrorKind::Misaligned) && decode_text(after) == Err::<(Seq<char>, ReaderView), IoErrorKind>(
            IoErrorKind::Misaligned,
        ) && decode_scalar(ScalarKind::Nibble, after) == Err::<
            (ScalarValue, ReaderView),
            IoErrorKind,
        >(IoErrorKind::Misaligned),
        r.take_nibble() matches Some((_, after)) && decode_scalar(kind, after) == Err::<
            (ScalarValue, ReaderView),
            IoErrorKind,
        >(IoErrorKind::Misaligned) && decode_text(after) == Err::<(Seq<char>, ReaderView), IoErrorKind>(
            IoErrorKind::Misaligned,
        ),
{
    crate::io::reader::lemma_take_nibble_high(r);
}

} // verus!
