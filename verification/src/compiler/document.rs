//! The declarative document that a protocol is written in, once parsed:
//! texts, and mappings from keys to further declarations, in the order in
//! which they were written.

use vstd::prelude::*;

verus! {

/// One declaration of the document.
#[derive(Debug)]
pub enum Declaration {
    /// A text.
    Text(String),
    /// A mapping: its entries in the order of the document.
    Mapping(Vec<Entry>),
    /// Anything else that a document may hold: a number, a list, nothing.
    Other,
}

/// One entry of a mapping.
#[derive(Debug)]
pub struct Entry {
    pub key: String,
    pub value: Declaration,
}

/// The value of the first entry whose key is `key`.
pub open spec fn lookup(entries: Seq<Entry>, key: Seq<char>) -> Option<Declaration>
    decreases entries.len(),
{
    if entries.len() == 0 {
        None
    } else if entries[0].key@ == key {
        Some(entries[0].value)
    } else {
        lookup(entries.drop_first(), key)
    }
}

/// The text that stands under `key`, where a text stands there.
pub open spec fn lookup_text(entries: Seq<Entry>, key: Seq<char>) -> Option<Seq<char>> {
    match lookup(entries, key) {
        Some(Declaration::Text(text)) => Some(text@),
        _ => None,
    }
}

impl Declaration {
    /// The text, where the declaration is one.
    pub fn as_str(&self) -> (r: Option<&str>)
        ensures
            match *self {
                Declaration::Text(text) => r matches Some(s) && s@ == text@,
                _ => r is None,
            },
    {
        match self {
            Declaration::Text(text) => Some(text.as_str()),
            _ => None,
        }
    }

    /// The entries, where the declaration is a mapping.
    pub fn as_hash(&self) -> (r: Option<&Vec<Entry>>)
        ensures
            match *self {
                Declaration::Mapping(entries) => r == Some(&entries),
                _ => r is None,
            },
    {
        match self {
            Declaration::Mapping(entries) => Some(entries),
            _ => None,
        }
    }
}

/// The value of the first entry of `entries` whose key is `key`.
pub fn find<'a>(entries: &'a Vec<Entry>, key: &str) -> (r: Option<&'a Declaration>)
    ensures
        match lookup(entries@, key@) {
            Some(value) => r == Some(&value),
            None => r is None,
        },
{
    let mut i: usize = 0;
    assert(entries@.skip(0) =~= entries@);
    while i < entries.len()
        invariant
            i <= entries.len(),
            lookup(entries@, key@) == lookup(entries@.skip(i as int), key@),
        decreases entries.len() - i,
    {
        assert(entries@.skip(i as int).drop_first() =~= entries@.skip(i + 1));
        if same_text(entries[i].key.as_str(), key) {
            return Some(&entries[i].value);
        }
        i += 1;
    }
    None
}

/// The text that stands under `key` in `entries`, where a text stands there.
pub fn find_text<'a>(entries: &'a Vec<Entry>, key: &str) -> (r: Option<&'a str>)
    ensures
        match lookup_text(entries@, key@) {
            Some(text) => r matches Some(s) && s@ == text,
            None => r is None,
        },
{
    match find(entries, key) {
        Some(value) => value.as_str(),
        None => None,
    }
}

/// Whether two texts are the same.
pub fn same_text(left: &str, right: &str) -> (same: bool)
    ensures
        same == (left@ == right@),
{
    let a = left.as_bytes();
    let b = right.as_bytes();
    proof {
        vstd::utf8::encode_utf8_decode_utf8(left@);
        vstd::utf8::encode_utf8_decode_utf8(right@);
    }
    if a.len() != b.len() {
        return false;
    }
    let mut i: usize = 0;
    while i < a.len()
        invariant
            i <= a.len(),
            a@.len() == b@.len(),
            a@ == vstd::utf8::encode_utf8(left@),
            b@ == vstd::utf8::encode_utf8(right@),
            forall|j: int| 0 <= j < i ==> a@[j] == b@[j],
        decreases a.len() - i,
    {
        if a[i] != b[i] {
            return false;
        }
        i += 1;
    }
    assert(a@ =~= b@);
    true
}

} // verus!
