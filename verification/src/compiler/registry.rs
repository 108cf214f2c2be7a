//! The map from the names of types to their fields, in the order in which
//! the types were defined.

use linked_hash_map::LinkedHashMap;
use vstd::prelude::*;

verus! {

/// `linked_hash_map::LinkedHashMap`, a hash map that also keeps its entries
/// in the order of their insertion.
#[verifier::external_type_specification]
#[verifier::external_body]
#[verifier::reject_recursive_types(K)]
#[verifier::reject_recursive_types(V)]
#[verifier::reject_recursive_types(S)]
pub struct ExLinkedHashMap<K, V, S>(LinkedHashMap<K, V, S>);

/// The fields of a type by value: the name of each, and where its format
/// stands among the formats of the registry.
pub open spec fn fields_view(fields: Seq<(String, usize)>) -> Seq<(Seq<char>, usize)> {
    fields.map_values(|field: (String, usize)| (field.0@, field.1))
}

/// The entries of the map, oldest first: the name of each type, and its
/// fields.
pub uninterp spec fn registry_entries(map: LinkedHashMap<String, Vec<(String, usize)>>) -> Seq<
    (Seq<char>, Seq<(Seq<char>, usize)>),
>;

/// The fields of the type named `name` among `entries`.
pub open spec fn fields_named(
    entries: Seq<(Seq<char>, Seq<(Seq<char>, usize)>)>,
    name: Seq<char>,
) -> Option<Seq<(Seq<char>, usize)>> {
    if exists|i: int| 0 <= i < entries.len() && (#[trigger] entries[i]).0 == name {
        let i = choose|i: int| 0 <= i < entries.len() && (#[trigger] entries[i]).0 == name;
        Some(entries[i].1)
    } else {
        None
    }
}

/// Whether no two of `entries` have the same name.
pub open spec fn distinct_names(entries: Seq<(Seq<char>, Seq<(Seq<char>, usize)>)>) -> bool {
    forall|i: int, j: int|
        0 <= i < j < entries.len() ==> (#[trigger] entries[i]).0 != (#[trigger] entries[j]).0
}

/// An empty map, as `LinkedHashMap::new` makes it.
#[verifier::external_body]
pub(crate) fn registry_new() -> (map: LinkedHashMap<String, Vec<(String, usize)>>)
    ensures
        registry_entries(map) == Seq::<(Seq<char>, Seq<(Seq<char>, usize)>)>::empty(),
{
    LinkedHashMap::new()
}

/// A copy of the fields that `LinkedHashMap::get` finds under `name`: those
/// of an entry of that name where it finds some, and where it finds none no
/// entry has that name.
#[verifier::external_body]
pub(crate) fn registry_get(map: &LinkedHashMap<String, Vec<(String, usize)>>, name: &str) -> (r:
    Option<Vec<(String, usize)>>)
    ensures
        match r {
            Some(fields) => exists|i: int|
                0 <= i < registry_entries(*map).len() && (#[trigger] registry_entries(*map)[i])
                    == (name@, fields_view(fields@)),
            None => forall|i: int|
                0 <= i < registry_entries(*map).len() ==> (#[trigger] registry_entries(*map)[i]).0
                    != name@,
        },
{
    map.get(name).cloned()
}

/// `LinkedHashMap::insert` of a name that the map does not hold yet: the new
/// entry becomes the last.
#[verifier::external_body]
pub(crate) fn registry_insert(
    map: &mut LinkedHashMap<String, Vec<(String, usize)>>,
    name: String,
    fields: Vec<(String, usize)>,
)
    requires
        forall|i: int|
            0 <= i < registry_entries(*old(map)).len() ==> (#[trigger] registry_entries(
                *old(map),
            )[i]).0 != name@,
    ensures
        registry_entries(*final(map)) == registry_entries(*old(map)).push(
            (name@, fields_view(fields@)),
        ),
{
    map.insert(name, fields);
}

/// Copies of the entries that `LinkedHashMap::iter` visits, in its order,
/// which is that of insertion.
#[verifier::external_body]
pub(crate) fn registry_list(map: &LinkedHashMap<String, Vec<(String, usize)>>) -> (list: Vec<
    (String, Vec<(String, usize)>),
>)
    ensures
        list@.map_values(|entry: (String, Vec<(String, usize)>)| (entry.0@, fields_view(entry.1@)))
            == registry_entries(*map),
{
    map.iter().map(|(name, fields)| (name.clone(), fields.clone())).collect()
}

} // verus!
