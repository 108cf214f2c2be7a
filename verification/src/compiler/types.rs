//! The registry of named types.

use crate::compiler::document::{Declaration, Entry};
use crate::compiler::error::{Failure, SchemaError, SchemaErrorKind};
use crate::compiler::format::{read_fields, FieldFormat};
use linked_hash_map::LinkedHashMap;
use vstd::prelude::*;
use vstd::string::StringExecFns;

verus! {

/// The fields of a type in their order: the name of each, and the place of
/// its format in the registry's row of formats.
pub type Type = Vec<(String, usize)>;

/// The registry: the row of all formats resolved so far, and the named
/// types in the order of their definition.
pub struct Types {
    pub formats: Vec<FieldFormat>,
    pub map: LinkedHashMap<String, Type>,
}

/// A [`Types`] by value.
pub struct TypesView {
    pub formats: Seq<crate::compiler::format::FormatView>,
    pub entries: Seq<(Seq<char>, Seq<(Seq<char>, usize)>)>,
}

impl View for Types {
    type V = TypesView;

    open spec fn view(&self) -> TypesView {
        TypesView {
            formats: self.formats@.map_values(|format: FieldFormat| format@),
            entries: crate::compiler::registry::registry_entries(self.map),
        }
    }
}

impl TypesView {
    /// The invariant of a registry: no two types have the same name, each
    /// field of each type has its format in the row, and each format of the
    /// row is made of formats that stand before it.
    pub open spec fn wf(self) -> bool {
        &&& crate::compiler::registry::distinct_names(self.entries)
        &&& forall|i: int, j: int|
            0 <= i < self.entries.len() && 0 <= j < self.entries[i].1.len() ==> (
            #[trigger] self.entries[i].1[j]).1 < self.formats.len()
        &&& crate::compiler::format::well_founded(self.formats)
    }

    /// The fields of the type named `name`.
    pub open spec fn fields_of(self, name: Seq<char>) -> Option<Seq<(Seq<char>, usize)>> {
        crate::compiler::registry::fields_named(self.entries, name)
    }
}

impl Types {
    /// The invariant of a registry, as its view states it.
    pub open spec fn wf(&self) -> bool {
        self@.wf()
    }

    /// A registry without types.
    pub fn new() -> (types: Types)
        ensures
            types.wf(),
            types@.formats.len() == 0,
            types@.entries.len() == 0,
    {
        let types = Types { formats: Vec::new(), map: crate::compiler::registry::registry_new() };
        assert(types@.formats =~= Seq::empty());
        types
    }

    /// Adds `format` to the row, and says where it stands.
    pub fn add(&mut self, format: FieldFormat) -> (place: usize)
        requires
            old(self).wf(),
            format@.refers_below(old(self)@.formats.len() as int),
        ensures
            final(self).wf(),
            final(self)@.entries == old(self)@.entries,
            final(self)@.formats == old(self)@.formats.push(format@),
            place == old(self)@.formats.len(),
    {
        let place = self.formats.len();
        self.formats.push(format);
        assert(self@.formats =~= old(self)@.formats.push(format@));
        place
    }

    /// Takes away the formats from place `length` on.
    pub(crate) fn cut(&mut self, length: usize)
        requires
            length <= old(self)@.formats.len(),
        ensures
            final(self)@.entries == old(self)@.entries,
            final(self)@.formats == old(self)@.formats.take(length as int),
    {
        self.formats.truncate(length);
        assert(self@.formats =~= old(self)@.formats.take(length as int));
    }

    /// A copy of the fields of the type named `name`.
    pub fn get(&self, name: &str) -> (r: Option<Type>)
        requires
            self.wf(),
        ensures
            match self@.fields_of(name@) {
                Some(fields) => r matches Some(found) && crate::compiler::registry::fields_view(
                    found@,
                ) == fields,
                None => r is None,
            },
    {
        crate::compiler::registry::registry_get(&self.map, name)
    }

    /// Defines the type `name` with the fields `fields`, as the last of the
    /// types.
    pub fn insert(&mut self, name: String, fields: Type)
        requires
            old(self).wf(),
            old(self)@.fields_of(name@) is None,
            forall|j: int|
                0 <= j < fields@.len() ==> (#[trigger] fields@[j]).1 < old(self)@.formats.len(),
        ensures
            final(self).wf(),
            final(self)@.formats == old(self)@.formats,
            final(self)@.entries == old(self)@.entries.push(
                (name@, crate::compiler::registry::fields_view(fields@)),
            ),
    {
        let ghost entries = self@.entries;
        let ghost added = (name@, crate::compiler::registry::fields_view(fields@));
        crate::compiler::registry::registry_insert(&mut self.map, name, fields);
        proof {
            let after = self@.entries;
            assert forall|i: int, j: int|
                0 <= i < after.len() && 0 <= j < after[i].1.len() implies (
            #[trigger] after[i].1[j]).1 < self@.formats.len() by {
                if i < entries.len() {
                    assert(after[i] == entries[i]);
                    assert(entries[i].1[j].1 < self@.formats.len());
                } else {
                    assert(after[i].1[j].1 == fields@[j].1);
                }
            }
        }
    }
}

/// What stands in the context of the fields of the type `name`.
pub open spec fn type_label(name: Seq<char>) -> Seq<char> {
    "type "@ + name
}

/// The formats and the fields that the type `name`, declared as `content`,
/// adds to the registry.
pub open spec fn resolve_type(
    types: TypesView,
    name: Seq<char>,
    content: Declaration,
) -> Result<(Seq<crate::compiler::format::FormatView>, Seq<(Seq<char>, usize)>), Failure> {
    match content {
        Declaration::Mapping(entries) => match crate::compiler::format::resolve_fields(
            types.entries,
            types.formats.len() as int,
            entries@,
        ) {
            Ok(resolved) => Ok(resolved),
            Err(fault) => Err(Failure { fault, context: type_label(name) }),
        },
        _ => Err(
            crate::compiler::error::failure(SchemaErrorKind::NotAMapping, name, type_label(name)),
        ),
    }
}

/// The registry after the types that `entries` declare, each resolved
/// against those before it.
pub open spec fn resolve_types(entries: Seq<Entry>) -> Result<TypesView, Failure>
    decreases entries.len(),
{
    if entries.len() == 0 {
        Ok(TypesView { formats: Seq::empty(), entries: Seq::empty() })
    } else {
        match resolve_types(entries.drop_last()) {
            Err(failure) => Err(failure),
            Ok(types) => {
                let name = entries.last().key@;
                if types.fields_of(name) is Some {
                    Err(
                        crate::compiler::error::failure(
                            SchemaErrorKind::DuplicateName,
                            name,
                            "TYPES"@,
                        ),
                    )
                } else {
                    match resolve_type(types, name, entries.last().value) {
                        Err(failure) => Err(failure),
                        Ok((formats, fields)) => Ok(
                            TypesView {
                                formats: types.formats + formats,
                                entries: types.entries.push((name, fields)),
                            },
                        ),
                    }
                }
            },
        }
    }
}

/// The registry that the declarations `data` make.
pub open spec fn resolve_registry(data: Declaration) -> Result<TypesView, Failure> {
    match data {
        Declaration::Mapping(entries) => resolve_types(entries@),
        _ => Err(crate::compiler::error::failure(SchemaErrorKind::NotAMapping, "TYPES"@, "TYPES"@)),
    }
}

/// A failure among the first types is the failure of them all.
pub proof fn lemma_types_failure(entries: Seq<Entry>, count: int)
    requires
        0 <= count <= entries.len(),
        resolve_types(entries.take(count)) is Err,
    ensures
        resolve_types(entries) == resolve_types(entries.take(count)),
    decreases entries.len() - count,
{
    if count < entries.len() {
        assert(entries.take(count + 1).drop_last() =~= entries.take(count));
        lemma_types_failure(entries, count + 1);
    } else {
        assert(entries.take(count) =~= entries);
    }
}

/// The types of a registry are those that were declared, in their order.
pub proof fn lemma_registry_names(entries: Seq<Entry>)
    ensures
        resolve_types(entries) matches Ok(types) ==> types.entries.len() == entries.len()
            && forall|i: int|
            0 <= i < entries.len() ==> (#[trigger] types.entries[i]).0 == entries[i].key@,
    decreases entries.len(),
{
    if entries.len() > 0 {
        lemma_registry_names(entries.drop_last());
    }
}

/// No type can refer to one that is declared after it: where a field of the
/// type at `user` is declared by a text that names no type before it, and
/// is none of the other formats, the registry is rejected; so it is where
/// the text names a type declared later.
pub proof fn lemma_no_forward_reference(entries: Seq<Entry>, user: int, field: int)
    requires
        0 <= user < entries.len(),
        entries[user].value matches Declaration::Mapping(fields) && 0 <= field < fields@.len() && (
        fields@[field].value matches Declaration::Text(text) && {
            &&& forall|k: int| 0 <= k < user ==> (#[trigger] entries[k]).key@ != text@
            &&& !crate::compiler::text::begins_with(text@, "optional:"@)
            &&& !crate::compiler::text::begins_with(text@, "byte:"@)
            &&& text@ != "string:json"@
            &&& crate::compiler::format::ScalarKind::of_keyword(text@) is None
        }) && !crate::compiler::text::begins_with(fields@[field].key@, "_nop_"@)
            && !crate::compiler::text::begins_with(fields@[field].key@, "_"@),
    ensures
        resolve_types(entries) is Err,
{
    let before = entries.take(user);
    let upto = entries.take(user + 1);
    assert(upto.drop_last() =~= before);
    assert(upto.last() == entries[user]);
    match resolve_types(before) {
        Err(_) => {},
        Ok(types) => {
            lemma_registry_names(before);
            let fields = entries[user].value->Mapping_0@;
            let text = fields[field].value->Text_0@;
            if types.fields_of(entries[user].key@) is None {
                assert(crate::compiler::registry::fields_named(types.entries, text) is None) by {
                    if crate::compiler::registry::fields_named(types.entries, text) is Some {
                        let k = choose|k: int|
                            0 <= k < types.entries.len() && (#[trigger] types.entries[k]).0 == text;
                        assert(before[k] == entries[k]);
                    }
                }
                let base = types.formats.len() as int;
                let first = fields.take(field + 1);
                assert(first.drop_last() =~= fields.take(field));
                assert(first.last() == fields[field]);
                match crate::compiler::format::resolve_fields(types.entries, base, fields.take(field)) {
                    Err(_) => {},
                    Ok((formats, _)) => {
                        crate::compiler::format::lemma_unknown_name_is_rejected(
                            types.entries,
                            base + formats.len(),
                            text,
                        );
                        assert(crate::compiler::format::resolve_field(
                            types.entries,
                            base + formats.len(),
                            fields[field].key@,
                            fields[field].value,
                        ) is Err);
                    },
                }
                assert(crate::compiler::format::resolve_fields(types.entries, base, first) is Err);
                crate::compiler::format::lemma_fields_fault(
                    types.entries,
                    base,
                    fields,
                    field + 1,
                );
                assert(resolve_type(types, entries[user].key@, entries[user].value) is Err);
            }
            assert(resolve_types(upto) is Err);
        },
    }
    lemma_types_failure(entries, user + 1);
}

/// Resolves the fields of the type `name`, declared as `content`, against
/// the types defined so far, adding their formats to the row. On a failure
/// nothing is added.
pub fn new_type(types: &mut Types, name: &str, content: &Declaration) -> (r: Result<
    Type,
    SchemaError,
>)
    requires
        old(types).wf(),
    ensures
        final(types).wf(),
        final(types)@.entries == old(types)@.entries,
        match resolve_type(old(types)@, name@, *content) {
            Ok((formats, fields)) => final(types)@.formats == old(types)@.formats + formats && (
            r matches Ok(read) && crate::compiler::registry::fields_view(read@) == fields && (
            forall|j: int|
                0 <= j < read@.len() ==> (#[trigger] read@[j]).1 < final(types)@.formats.len())),
            Err(failure) => final(types)@ == old(types)@ && (r matches Err(e) && e.is_failure(
                failure,
            )),
        },
{
    let label = String::from_str("type ").concat(name);
    match content.as_hash() {
        Some(entries) => read_fields(types, entries, label.as_str()),
        None => Err(SchemaError::new(SchemaErrorKind::NotAMapping, name, label.as_str())),
    }
}

/// Builds the registry of the types that `data` declares, in their order:
/// each type may refer to those before it, and to no other.
pub fn new_types(data: &Declaration) -> (r: Result<Types, SchemaError>)
    ensures
        match resolve_registry(*data) {
            Ok(registry) => r matches Ok(types) && types.wf() && types@ == registry,
            Err(failure) => r matches Err(e) && e.is_failure(failure),
        },
{
    let entries = match data.as_hash() {
        Some(entries) => entries,
        None => {
            return Err(SchemaError::new(SchemaErrorKind::NotAMapping, "TYPES", "TYPES"));
        },
    };
    let mut types = Types::new();
    let mut i: usize = 0;
    assert(entries@.take(0) =~= Seq::<Entry>::empty());
    assert(types@ =~= (TypesView { formats: Seq::empty(), entries: Seq::empty() })) by {
        assert(types@.formats =~= Seq::empty());
        assert(types@.entries =~= Seq::empty());
    }
    while i < entries.len()
        invariant
            i <= entries.len(),
            types.wf(),
            *data == Declaration::Mapping(*entries),
            resolve_types(entries@.take(i as int)) == Ok::<TypesView, Failure>(types@),
        decreases entries.len() - i,
    {
        assert(entries@.take(i + 1).drop_last() =~= entries@.take(i as int));
        assert(entries@.take(i + 1).last() == entries@[i as int]);
        let entry = &entries[i];
        let ghost before = types@;
        if types.get(entry.key.as_str()).is_some() {
            proof {
                lemma_types_failure(entries@, i + 1);
            }
            return Err(
                SchemaError::new(SchemaErrorKind::DuplicateName, entry.key.as_str(), "TYPES"),
            );
        }
        match new_type(&mut types, entry.key.as_str(), &entry.value) {
            Ok(fields) => {
                types.insert(entry.key.clone(), fields);
                assert(types@ =~= (TypesView {
                    formats: types@.formats,
                    entries: types@.entries,
                }));
            },
            Err(e) => {
                proof {
                    lemma_types_failure(entries@, i + 1);
                }
                return Err(e);
            },
        }
        i += 1;
    }
    assert(entries@.take(i as int) =~= entries@);
    Ok(types)
}

} // verus!
