//! The formats of fields: a closed set of encodings, each a node in the
//! registry's row of formats, which refers to the formats it is made of by
//! their places in that row.

use crate::compiler::document::{Declaration, Entry};
use crate::compiler::error::{Fault, SchemaError, SchemaErrorKind};
use crate::compiler::types::Types;
use vstd::prelude::*;

verus! {

broadcast use {
    vstd::std_specs::vec::axiom_vec_index_decreases,
    vstd::std_specs::vec::axiom_vec_decreases_to_view,
    vstd::seq::axiom_seq_index_decreases,
    vstd::seq::axiom_seq_subrange_decreases,
};

/// The scalars that a field can hold.
#[derive(Debug, Clone, Copy, PartialEq, Eq, Structural)]
pub enum ScalarKind {
    Bool,
    Nibble,
    Int8,
    Int16,
    Int32,
    Int64,
    Uint8,
    Uint16,
    Uint32,
    Uint64,
    Vint32,
    Vint64,
    Uvint32,
    Uvint64,
    Text,
    Float32,
    Float64,
}

/// Marks an explicit alignment to the next byte; holds no value.
#[derive(Debug, Clone, Copy, PartialEq, Eq, Structural)]
pub struct NopFieldFormat {}

/// One scalar.
#[derive(Debug, Clone, Copy, PartialEq, Eq, Structural)]
pub struct SimpleFieldFormat {
    pub kind: ScalarKind,
}

/// Raw bytes, `length` of them.
#[derive(Debug, Clone, Copy, PartialEq, Eq, Structural)]
pub struct ByteArrayFieldFormat {
    pub length: usize,
}

/// A flag, and where it is set the value of the format at `inner`.
#[derive(Debug, Clone, Copy, PartialEq, Eq, Structural)]
pub struct OptionalFieldFormat {
    pub inner: usize,
}

/// A structured value, carried as the text that spells it.
#[derive(Debug, Clone, Copy, PartialEq, Eq, Structural)]
pub struct JsonFieldFormat {}

/// `size` values of the format at `each`.
#[derive(Debug, Clone, Copy, PartialEq, Eq, Structural)]
pub struct ArrayFieldFormat {
    pub size: usize,
    pub each: usize,
}

/// A count in the format at `prefix`, then as many values of the format at
/// `each`.
#[derive(Debug, Clone, Copy, PartialEq, Eq, Structural)]
pub struct PrefixFieldFormat {
    pub prefix: usize,
    pub each: usize,
}

/// Values of the format at `each` until the data ends.
#[derive(Debug, Clone, Copy, PartialEq, Eq, Structural)]
pub struct TailFieldFormat {
    pub each: usize,
}

/// Named fields in their order. Where the struct stands for a named type,
/// its fields are the type's own: the same names at the same places.
#[derive(Debug, Clone)]
pub struct StructFieldFormat {
    pub properties: Vec<(String, usize)>,
}

/// How one value is encoded.
#[derive(Debug, Clone)]
pub enum FieldFormat {
    Nop(NopFieldFormat),
    Simple(SimpleFieldFormat),
    ByteArray(ByteArrayFieldFormat),
    Optional(OptionalFieldFormat),
    Json(JsonFieldFormat),
    Struct(StructFieldFormat),
    Array(ArrayFieldFormat),
    Prefix(PrefixFieldFormat),
    Tail(TailFieldFormat),
}

/// A [`FieldFormat`] by value.
pub enum FormatView {
    Nop,
    Simple(ScalarKind),
    ByteArray(usize),
    Optional(usize),
    Json,
    Struct(Seq<(Seq<char>, usize)>),
    Array(usize, usize),
    Prefix(usize, usize),
    Tail(usize),
}

impl View for FieldFormat {
    type V = FormatView;

    open spec fn view(&self) -> FormatView {
        match self {
            FieldFormat::Nop(_) => FormatView::Nop,
            FieldFormat::Simple(format) => FormatView::Simple(format.kind),
            FieldFormat::ByteArray(format) => FormatView::ByteArray(format.length),
            FieldFormat::Optional(format) => FormatView::Optional(format.inner),
            FieldFormat::Json(_) => FormatView::Json,
            FieldFormat::Struct(format) => FormatView::Struct(
                crate::compiler::registry::fields_view(format.properties@),
            ),
            FieldFormat::Array(format) => FormatView::Array(format.size, format.each),
            FieldFormat::Prefix(format) => FormatView::Prefix(format.prefix, format.each),
            FieldFormat::Tail(format) => FormatView::Tail(format.each),
        }
    }
}

impl FormatView {
    /// Whether every format that this one is made of stands before `place`.
    pub open spec fn refers_below(self, place: int) -> bool {
        match self {
            FormatView::Optional(inner) => inner < place,
            FormatView::Struct(fields) => forall|i: int|
                0 <= i < fields.len() ==> (#[trigger] fields[i]).1 < place,
            FormatView::Array(_, each) => each < place,
            FormatView::Prefix(prefix, each) => prefix < place && each < place,
            FormatView::Tail(each) => each < place,
            _ => true,
        }
    }
}

/// Whether each format of the row is made of formats that stand before it.
pub open spec fn well_founded(formats: Seq<FormatView>) -> bool {
    forall|i: int| 0 <= i < formats.len() ==> (#[trigger] formats[i]).refers_below(i)
}

impl ScalarKind {
    /// The keyword that declares the scalar.
    pub open spec fn keyword(self) -> Seq<char> {
        match self {
            ScalarKind::Bool => "bool"@,
            ScalarKind::Nibble => "nibble"@,
            ScalarKind::Int8 => "int8"@,
            ScalarKind::Int16 => "int16"@,
            ScalarKind::Int32 => "int32"@,
            ScalarKind::Int64 => "int64"@,
            ScalarKind::Uint8 => "uint8"@,
            ScalarKind::Uint16 => "uint16"@,
            ScalarKind::Uint32 => "uint32"@,
            ScalarKind::Uint64 => "uint64"@,
            ScalarKind::Vint32 => "vint32"@,
            ScalarKind::Vint64 => "vint64"@,
            ScalarKind::Uvint32 => "uvint32"@,
            ScalarKind::Uvint64 => "uvint64"@,
            ScalarKind::Text => "string"@,
            ScalarKind::Float32 => "float32"@,
            ScalarKind::Float64 => "float64"@,
        }
    }

    /// The scalar that `text` declares, the keywords tried in the order of
    /// the catalogue.
    pub open spec fn of_keyword(text: Seq<char>) -> Option<ScalarKind> {
        if text == "bool"@ {
            Some(ScalarKind::Bool)
        } else if text == "nibble"@ {
            Some(ScalarKind::Nibble)
        } else if text == "int8"@ {
            Some(ScalarKind::Int8)
        } else if text == "int16"@ {
            Some(ScalarKind::Int16)
        } else if text == "int32"@ {
            Some(ScalarKind::Int32)
        } else if text == "int64"@ {
            Some(ScalarKind::Int64)
        } else if text == "uint8"@ {
            Some(ScalarKind::Uint8)
        } else if text == "uint16"@ {
            Some(ScalarKind::Uint16)
        } else if text == "uint32"@ {
            Some(ScalarKind::Uint32)
        } else if text == "uint64"@ {
            Some(ScalarKind::Uint64)
        } else if text == "vint32"@ {
            Some(ScalarKind::Vint32)
        } else if text == "vint64"@ {
            Some(ScalarKind::Vint64)
        } else if text == "uvint32"@ {
            Some(ScalarKind::Uvint32)
        } else if text == "uvint64"@ {
            Some(ScalarKind::Uvint64)
        } else if text == "string"@ {
            Some(ScalarKind::Text)
        } else if text == "float32"@ {
            Some(ScalarKind::Float32)
        } else if text == "float64"@ {
            Some(ScalarKind::Float64)
        } else {
            None
        }
    }

    /// The keyword that declares the scalar.
    pub fn name(&self) -> (name: &'static str)
        ensures
            name@ == self.keyword(),
    {
        match self {
            ScalarKind::Bool => "bool",
            ScalarKind::Nibble => "nibble",
            ScalarKind::Int8 => "int8",
            ScalarKind::Int16 => "int16",
            ScalarKind::Int32 => "int32",
            ScalarKind::Int64 => "int64",
            ScalarKind::Uint8 => "uint8",
            ScalarKind::Uint16 => "uint16",
            ScalarKind::Uint32 => "uint32",
            ScalarKind::Uint64 => "uint64",
            ScalarKind::Vint32 => "vint32",
            ScalarKind::Vint64 => "vint64",
            ScalarKind::Uvint32 => "uvint32",
            ScalarKind::Uvint64 => "uvint64",
            ScalarKind::Text => "string",
            ScalarKind::Float32 => "float32",
            ScalarKind::Float64 => "float64",
        }
    }

    /// The scalar that `text` declares.
    pub fn from_name(text: &str) -> (kind: Option<ScalarKind>)
        ensures
            kind == ScalarKind::of_keyword(text@),
    {
        if crate::compiler::document::same_text(text, "bool") {
            Some(ScalarKind::Bool)
        } else if crate::compiler::document::same_text(text, "nibble") {
            Some(ScalarKind::Nibble)
        } else if crate::compiler::document::same_text(text, "int8") {
            Some(ScalarKind::Int8)
        } else if crate::compiler::document::same_text(text, "int16") {
            Some(ScalarKind::Int16)
        } else if crate::compiler::document::same_text(text, "int32") {
            Some(ScalarKind::Int32)
        } else if crate::compiler::document::same_text(text, "int64") {
            Some(ScalarKind::Int64)
        } else if crate::compiler::document::same_text(text, "uint8") {
            Some(ScalarKind::Uint8)
        } else if crate::compiler::document::same_text(text, "uint16") {
            Some(ScalarKind::Uint16)
        } else if crate::compiler::document::same_text(text, "uint32") {
            Some(ScalarKind::Uint32)
        } else if crate::compiler::document::same_text(text, "uint64") {
            Some(ScalarKind::Uint64)
        } else if crate::compiler::document::same_text(text, "vint32") {
            Some(ScalarKind::Vint32)
        } else if crate::compiler::document::same_text(text, "vint64") {
            Some(ScalarKind::Vint64)
        } else if crate::compiler::document::same_text(text, "uvint32") {
            Some(ScalarKind::Uvint32)
        } else if crate::compiler::document::same_text(text, "uvint64") {
            Some(ScalarKind::Uvint64)
        } else if crate::compiler::document::same_text(text, "string") {
            Some(ScalarKind::Text)
        } else if crate::compiler::document::same_text(text, "float32") {
            Some(ScalarKind::Float32)
        } else if crate::compiler::document::same_text(text, "float64") {
            Some(ScalarKind::Float64)
        } else {
            None
        }
    }
}

/// The fault `kind` with the field `field`.
pub open spec fn fault(kind: SchemaErrorKind, field: Seq<char>) -> Fault {
    Fault { kind, subject: field }
}

/// The formats that the text `text` adds to a row of `base` formats, the
/// last of them the format that the text declares. The text is tried, in
/// this order, as the name of a type (where `named` allows it), as an
/// optional, as a byte array, as the structured text, as a scalar.
pub open spec fn resolve_text(
    types: Seq<(Seq<char>, Seq<(Seq<char>, usize)>)>,
    named: bool,
    base: int,
    text: Seq<char>,
) -> Result<Seq<FormatView>, SchemaErrorKind>
    decreases text.len(),
{
    if named && crate::compiler::registry::fields_named(types, text) is Some {
        Ok(seq![FormatView::Struct(crate::compiler::registry::fields_named(types, text)->Some_0)])
    } else if crate::compiler::text::begins_with(text, "optional:"@) {
        proof {
            reveal_strlit("optional:");
        }
        match resolve_text(types, named, base, text.skip("optional:"@.len() as int)) {
            Err(kind) => Err(kind),
            Ok(inner) => Ok(inner.push(FormatView::Optional((base + inner.len() - 1) as usize))),
        }
    } else if crate::compiler::text::begins_with(text, "byte:"@) {
        match crate::compiler::text::size_of(text.skip("byte:"@.len() as int)) {
            None => Err(SchemaErrorKind::BadLength),
            Some(length) => Ok(seq![FormatView::ByteArray(length)]),
        }
    } else if text == "string:json"@ {
        Ok(seq![FormatView::Json])
    } else {
        match ScalarKind::of_keyword(text) {
            Some(kind) => Ok(seq![FormatView::Simple(kind)]),
            None => Err(SchemaErrorKind::UnsupportedFormat),
        }
    }
}

/// The formats that the field `name`, declared as `declaration`, adds to a
/// row of `base` formats, the last of them the field's own. A field whose
/// name begins with `_nop_` is an alignment mark whatever it declares; any
/// other field whose name begins with `_` is no field, and adds nothing.
pub open spec fn resolve_field(
    types: Seq<(Seq<char>, Seq<(Seq<char>, usize)>)>,
    base: int,
    name: Seq<char>,
    declaration: Declaration,
) -> Result<Seq<FormatView>, Fault>
    decreases declaration, 0nat,
{
    if crate::compiler::text::begins_with(name, "_nop_"@) {
        Ok(seq![FormatView::Nop])
    } else if crate::compiler::text::begins_with(name, "_"@) {
        Ok(Seq::empty())
    } else {
        match declaration {
            Declaration::Text(text) => match resolve_text(types, true, base, text@) {
                Ok(formats) => Ok(formats),
                Err(kind) => Err(fault(kind, name)),
            },
            Declaration::Mapping(entries) => resolve_list(types, base, name, entries@),
            Declaration::Other => Err(fault(SchemaErrorKind::UnsupportedFormat, name)),
        }
    }
}

/// The formats that a list adds: those of the fields of one element, the
/// struct of those fields, what the method needs, and the list itself. The
/// mapping `entries` says under `_list` how the field is a list, as a method
/// and its data with a colon between them, and holds the fields of each
/// element beside it.
pub open spec fn resolve_list(
    types: Seq<(Seq<char>, Seq<(Seq<char>, usize)>)>,
    base: int,
    name: Seq<char>,
    entries: Seq<Entry>,
) -> Result<Seq<FormatView>, Fault>
    decreases entries, 2nat,
{
    match crate::compiler::document::lookup_text(entries, "_list"@) {
        None => Err(fault(SchemaErrorKind::MissingList, name)),
        Some(directive) => if crate::compiler::text::first_colon(directive) is None {
            Err(fault(SchemaErrorKind::MissingColon, name))
        } else {
            let colon = crate::compiler::text::first_colon(directive)->Some_0;
            let method = directive.subrange(0, colon);
            let data = directive.skip(colon + 1);
            match resolve_fields(types, base, entries) {
                Err(found) => Err(found),
                Ok((formats, fields)) => {
                    let each = (base + formats.len()) as usize;
                    let element = formats.push(FormatView::Struct(fields));
                    if method == "const"@ {
                        match crate::compiler::text::size_of(data) {
                            None => Err(fault(SchemaErrorKind::BadLength, name)),
                            Some(size) => Ok(element.push(FormatView::Array(size, each))),
                        }
                    } else if method == "prefix"@ {
                        match resolve_text(types, false, base + element.len(), data) {
                            Err(kind) => Err(fault(kind, name)),
                            Ok(count) => Ok(
                                (element + count).push(
                                    FormatView::Prefix(
                                        (base + element.len() + count.len() - 1) as usize,
                                        each,
                                    ),
                                ),
                            ),
                        }
                    } else if method == "tail"@ {
                        Ok(element.push(FormatView::Tail(each)))
                    } else {
                        Err(fault(SchemaErrorKind::UnknownListMethod, name))
                    }
                },
            }
        },
    }
}

/// The formats that the fields declared by `entries` add to a row of `base`
/// formats, and the fields themselves: the name of each with the place of
/// its format.
pub open spec fn resolve_fields(
    types: Seq<(Seq<char>, Seq<(Seq<char>, usize)>)>,
    base: int,
    entries: Seq<Entry>,
) -> Result<(Seq<FormatView>, Seq<(Seq<char>, usize)>), Fault>
    decreases entries, 1nat,
{
    if entries.len() == 0 {
        Ok((Seq::empty(), Seq::empty()))
    } else {
        match resolve_fields(types, base, entries.drop_last()) {
            Err(found) => Err(found),
            Ok((formats, fields)) => match resolve_field(
                types,
                base + formats.len(),
                entries.last().key@,
                entries.last().value,
            ) {
                Err(found) => Err(found),
                Ok(added) => if added.len() == 0 {
                    Ok((formats, fields))
                } else {
                    Ok(
                        (
                            formats + added,
                            fields.push(
                                (
                                    entries.last().key@,
                                    (base + formats.len() + added.len() - 1) as usize,
                                ),
                            ),
                        ),
                    )
                },
            },
        }
    }
}

/// Resolves the text `s`, adding its formats to the row of `types`, and says
/// where the format that the text declares stands. On a fault nothing is
/// added.
pub fn create_string_field_format(types: &mut Types, s: &str, named: bool) -> (r: Result<
    usize,
    SchemaErrorKind,
>)
    requires
        old(types).wf(),
    ensures
        final(types).wf(),
        final(types)@.entries == old(types)@.entries,
        match resolve_text(old(types)@.entries, named, old(types)@.formats.len() as int, s@) {
            Ok(formats) => formats.len() > 0 && final(types)@.formats == old(types)@.formats
                + formats && r == Ok::<usize, SchemaErrorKind>(
                (old(types)@.formats.len() + formats.len() - 1) as usize,
            ),
            Err(kind) => final(types)@ == old(types)@ && r == Err::<usize, SchemaErrorKind>(kind),
        },
    decreases s@.len(),
{
    let ghost row = types@.formats;
    if named {
        match types.get(s) {
            Some(fields) => {
                let format = FieldFormat::Struct(StructFieldFormat { properties: fields });
                assert(format@.refers_below(row.len() as int)) by {
                    let entries = types@.entries;
                    let found = crate::compiler::registry::fields_view(fields@);
                    let i = choose|i: int|
                        0 <= i < entries.len() && (#[trigger] entries[i]).0 == s@;
                    assert(entries[i].1 == found);
                    assert forall|j: int| 0 <= j < found.len() implies (#[trigger] found[j]).1
                        < row.len() by {
                        assert(entries[i].1[j].1 < row.len());
                    }
                }
                let place = types.add(format);
                assert(types@.formats =~= row + seq![format@]);
                return Ok(place);
            },
            None => {},
        }
    }
    proof {
        reveal_strlit("optional:");
    }
    match crate::compiler::text::strip_prefix(s, "optional:") {
        Some(rest) => {
            let inner = create_string_field_format(types, rest, named)?;
            let ghost added = types@.formats.skip(row.len() as int);
            assert(types@.formats =~= row + added);
            let place = types.add(FieldFormat::Optional(OptionalFieldFormat { inner }));
            assert(types@.formats =~= row + added.push(FormatView::Optional(inner)));
            return Ok(place);
        },
        None => {},
    }
    match crate::compiler::text::strip_prefix(s, "byte:") {
        Some(rest) => {
            return match crate::compiler::text::parse_size(rest) {
                Some(length) => {
                    let place = types.add(FieldFormat::ByteArray(ByteArrayFieldFormat { length }));
                    assert(types@.formats =~= row + seq![FormatView::ByteArray(length)]);
                    Ok(place)
                },
                None => Err(SchemaErrorKind::BadLength),
            };
        },
        None => {},
    }
    if crate::compiler::document::same_text(s, "string:json") {
        let place = types.add(FieldFormat::Json(JsonFieldFormat {  }));
        assert(types@.formats =~= row + seq![FormatView::Json]);
        return Ok(place);
    }
    match ScalarKind::from_name(s) {
        Some(kind) => {
            let place = types.add(FieldFormat::Simple(SimpleFieldFormat { kind }));
            assert(types@.formats =~= row + seq![FormatView::Simple(kind)]);
            Ok(place)
        },
        None => Err(SchemaErrorKind::UnsupportedFormat),
    }
}

/// A field declared by the name of a type that is defined is a structure of
/// the type's own fields: the same names, and the same formats at the same
/// places of the row.
pub proof fn lemma_named_type_is_shared(
    types: Seq<(Seq<char>, Seq<(Seq<char>, usize)>)>,
    base: int,
    name: Seq<char>,
    declaration: Declaration,
)
    requires
        !crate::compiler::text::begins_with(name, "_nop_"@),
        !crate::compiler::text::begins_with(name, "_"@),
        declaration matches Declaration::Text(text) && crate::compiler::registry::fields_named(
            types,
            text@,
        ) is Some,
    ensures
        declaration matches Declaration::Text(text) && resolve_field(
            types,
            base,
            name,
            declaration,
        ) == Ok::<Seq<FormatView>, Fault>(
            seq![
                FormatView::Struct(crate::compiler::registry::fields_named(types, text@)->Some_0),
            ],
        ),
{
}

/// A text that names no type that is defined, and is none of the other
/// formats, declares nothing: a type that is defined later cannot be
/// referred to.
pub proof fn lemma_unknown_name_is_rejected(
    types: Seq<(Seq<char>, Seq<(Seq<char>, usize)>)>,
    base: int,
    text: Seq<char>,
)
    requires
        crate::compiler::registry::fields_named(types, text) is None,
        !crate::compiler::text::begins_with(text, "optional:"@),
        !crate::compiler::text::begins_with(text, "byte:"@),
        text != "string:json"@,
        ScalarKind::of_keyword(text) is None,
    ensures
        resolve_text(types, true, base, text) == Err::<Seq<FormatView>, SchemaErrorKind>(
            SchemaErrorKind::UnsupportedFormat,
        ),
{
}

/// A fault among the first fields is the fault of them all.
pub proof fn lemma_fields_fault(
    types: Seq<(Seq<char>, Seq<(Seq<char>, usize)>)>,
    base: int,
    entries: Seq<Entry>,
    count: int,
)
    requires
        0 <= count <= entries.len(),
        resolve_fields(types, base, entries.take(count)) is Err,
    ensures
        resolve_fields(types, base, entries) == resolve_fields(types, base, entries.take(count)),
    decreases entries.len() - count,
{
    if count < entries.len() {
        assert(entries.take(count + 1).drop_last() =~= entries.take(count));
        lemma_fields_fault(types, base, entries, count + 1);
    } else {
        assert(entries.take(count) =~= entries);
    }
}

/// Resolves the field `field_name`, declared as `declaration` within
/// `field_src`, adding its formats to the row of `types`, and says where the
/// field's own format stands; `None` for a name that declares no field. On a
/// fault nothing is added.
pub fn create_field_format(
    types: &mut Types,
    field_name: &str,
    declaration: &Declaration,
    field_src: &str,
) -> (r: Result<Option<usize>, SchemaError>)
    requires
        old(types).wf(),
    ensures
        final(types).wf(),
        final(types)@.entries == old(types)@.entries,
        match resolve_field(
            old(types)@.entries,
            old(types)@.formats.len() as int,
            field_name@,
            *declaration,
        ) {
            Ok(formats) => final(types)@.formats == old(types)@.formats + formats && (
            r matches Ok(found) && found == (if formats.len() == 0 {
                None
            } else {
                Some((old(types)@.formats.len() + formats.len() - 1) as usize)
            })),
            Err(found) => final(types)@ == old(types)@ && (r matches Err(e) && e.is(
                found,
                field_src@,
            )),
        },
    decreases *declaration, 0nat,
{
    let ghost row = types@.formats;
    if crate::compiler::text::strip_prefix(field_name, "_nop_").is_some() {
        let place = types.add(FieldFormat::Nop(NopFieldFormat {  }));
        assert(types@.formats =~= row + seq![FormatView::Nop]);
        return Ok(Some(place));
    }
    if crate::compiler::text::strip_prefix(field_name, "_").is_some() {
        assert(types@.formats =~= row + Seq::<FormatView>::empty());
        return Ok(None);
    }
    match declaration {
        Declaration::Text(text) => match create_string_field_format(types, text.as_str(), true) {
            Ok(place) => Ok(Some(place)),
            Err(kind) => Err(SchemaError::new(kind, field_name, field_src)),
        },
        Declaration::Mapping(entries) => match create_hash_field_format(
            types,
            entries,
            field_name,
            field_src,
        ) {
            Ok(place) => Ok(Some(place)),
            Err(e) => Err(e),
        },
        Declaration::Other => Err(
            SchemaError::new(SchemaErrorKind::UnsupportedFormat, field_name, field_src),
        ),
    }
}

/// Resolves the list that the mapping `entries` declares for the field
/// `field_name`, and says where the list's format stands. On a fault nothing
/// is added.
#[verifier::rlimit(30)]
pub fn create_hash_field_format(
    types: &mut Types,
    entries: &Vec<Entry>,
    field_name: &str,
    field_src: &str,
) -> (r: Result<usize, SchemaError>)
    requires
        old(types).wf(),
    ensures
        final(types).wf(),
        final(types)@.entries == old(types)@.entries,
        match resolve_list(
            old(types)@.entries,
            old(types)@.formats.len() as int,
            field_name@,
            entries@,
        ) {
            Ok(formats) => formats.len() > 0 && final(types)@.formats == old(types)@.formats
                + formats && (r matches Ok(place) && place == old(types)@.formats.len()
                + formats.len() - 1),
            Err(found) => final(types)@ == old(types)@ && (r matches Err(e) && e.is(
                found,
                field_src@,
            )),
        },
    decreases entries@, 2nat,
{
    let ghost row = types@.formats;
    let start = types.formats.len();
    let directive = match crate::compiler::document::find_text(entries, "_list") {
        Some(directive) => directive,
        None => {
            return Err(SchemaError::new(SchemaErrorKind::MissingList, field_name, field_src));
        },
    };
    let (method, data) = match crate::compiler::text::split_at_colon(directive) {
        Some(parts) => parts,
        None => {
            return Err(SchemaError::new(SchemaErrorKind::MissingColon, field_name, field_src));
        },
    };
    let fields = read_fields(types, entries, field_src)?;
    let ghost formats = types@.formats.skip(row.len() as int);
    let ghost shape = FormatView::Struct(crate::compiler::registry::fields_view(fields@));
    assert(types@.formats =~= row + formats);
    let each = types.add(FieldFormat::Struct(StructFieldFormat { properties: fields }));
    let ghost element = formats.push(shape);
    assert(types@.formats =~= row + element);
    if crate::compiler::document::same_text(method, "const") {
        match crate::compiler::text::parse_size(data) {
            Some(size) => {
                let place = types.add(FieldFormat::Array(ArrayFieldFormat { size, each }));
                assert(types@.formats =~= row + element.push(FormatView::Array(size, each)));
                Ok(place)
            },
            None => {
                types.cut(start);
                assert(types@.formats =~= row);
                Err(SchemaError::new(SchemaErrorKind::BadLength, field_name, field_src))
            },
        }
    } else if crate::compiler::document::same_text(method, "prefix") {
        match create_string_field_format(types, data, false) {
            Ok(prefix) => {
                let ghost count = types@.formats.skip((row.len() + element.len()) as int);
                assert(types@.formats =~= row + (element + count));
                let place = types.add(FieldFormat::Prefix(PrefixFieldFormat { prefix, each }));
                assert(types@.formats =~= row + (element + count).push(
                    FormatView::Prefix(prefix, each),
                ));
                Ok(place)
            },
            Err(kind) => {
                types.cut(start);
                assert(types@.formats =~= row);
                Err(SchemaError::new(kind, field_name, field_src))
            },
        }
    } else if crate::compiler::document::same_text(method, "tail") {
        let place = types.add(FieldFormat::Tail(TailFieldFormat { each }));
        assert(types@.formats =~= row + element.push(FormatView::Tail(each)));
        Ok(place)
    } else {
        types.cut(start);
        assert(types@.formats =~= row);
        Err(SchemaError::new(SchemaErrorKind::UnknownListMethod, field_name, field_src))
    }
}

/// Resolves the fields that `entries` declare within `field_src`, adding
/// their formats to the row of `types`, and gives the fields: the name of
/// each with the place of its format. On a fault nothing is added.
pub fn read_fields(types: &mut Types, entries: &Vec<Entry>, field_src: &str) -> (r: Result<
    Vec<(String, usize)>,
    SchemaError,
>)
    requires
        old(types).wf(),
    ensures
        final(types).wf(),
        final(types)@.entries == old(types)@.entries,
        match resolve_fields(old(types)@.entries, old(types)@.formats.len() as int, entries@) {
            Ok((formats, fields)) => final(types)@.formats == old(types)@.formats + formats && (
            r matches Ok(read) && crate::compiler::registry::fields_view(read@) == fields && (
            forall|j: int|
                0 <= j < read@.len() ==> (#[trigger] read@[j]).1 < final(types)@.formats.len())),
            Err(found) => final(types)@ == old(types)@ && (r matches Err(e) && e.is(
                found,
                field_src@,
            )),
        },
    decreases entries@, 1nat,
{
    let ghost row = types@.formats;
    let ghost names = types@.entries;
    let start = types.formats.len();
    let mut fields: Vec<(String, usize)> = Vec::new();
    let mut i: usize = 0;
    assert(entries@.take(0) =~= Seq::<Entry>::empty());
    assert(types@.formats =~= row + Seq::<FormatView>::empty());
    assert(crate::compiler::registry::fields_view(fields@) =~= Seq::empty());
    assert(types@.formats.skip(row.len() as int) =~= Seq::empty());
    assert(types@.formats.take(row.len() as int) =~= row);
    while i < entries.len()
        invariant
            i <= entries.len(),
            types.wf(),
            old(types).wf(),
            row == old(types)@.formats,
            names == old(types)@.entries,
            types@.entries == names,
            start == row.len(),
            row.len() <= types@.formats.len(),
            types@.formats.take(row.len() as int) == row,
            resolve_fields(names, row.len() as int, entries@.take(i as int)) == Ok::<
                (Seq<FormatView>, Seq<(Seq<char>, usize)>),
                Fault,
            >(
                (
                    types@.formats.skip(row.len() as int),
                    crate::compiler::registry::fields_view(fields@),
                ),
            ),
            forall|j: int| 0 <= j < fields@.len() ==> (#[trigger] fields@[j]).1
                < types@.formats.len(),
        decreases entries.len() - i,
    {
        let ghost before = types@.formats;
        let ghost done = before.skip(row.len() as int);
        assert(before =~= row + done);
        assert(entries@.take(i + 1).drop_last() =~= entries@.take(i as int));
        assert(entries@.take(i + 1).last() == entries@[i as int]);
        let entry = &entries[i];
        let ghost step = resolve_field(
            names,
            (row.len() + done.len()) as int,
            entry.key@,
            entry.value,
        );
        match create_field_format(types, entry.key.as_str(), &entry.value, field_src) {
            Ok(Some(place)) => {
                let ghost added = types@.formats.skip(before.len() as int);
                assert(types@.formats =~= before + added);
                assert(step is Ok);
                assert(added =~= step->Ok_0);
                assert(types@.formats.skip(row.len() as int) =~= done + added);
                assert(types@.formats.take(row.len() as int) =~= row);
                let name = entry.key.clone();
                assert(crate::compiler::registry::fields_view(fields@.push((name, place)))
                    =~= crate::compiler::registry::fields_view(fields@).push((name@, place)));
                fields.push((name, place));
            },
            Ok(None) => {
                assert(step == Ok::<Seq<FormatView>, Fault>(Seq::empty()));
                assert(types@.formats =~= before);
                assert(types@.formats.skip(row.len() as int) =~= done);
                assert(types@.formats.take(row.len() as int) =~= row);
            },
            Err(e) => {
                proof {
                    lemma_fields_fault(names, row.len() as int, entries@, i + 1);
                }
                types.cut(start);
                assert(types@.formats =~= row);
                return Err(e);
            },
        }
        i += 1;
    }
    assert(entries@.take(i as int) =~= entries@);
    assert(types@.formats =~= row + types@.formats.skip(row.len() as int));
    Ok(fields)
}

} // verus!
