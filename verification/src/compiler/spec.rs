//! A protocol as a whole: its machine of states, its types, and its groups
//! of signals.

use crate::compiler::document::{find, same_text, Declaration, Entry};
use crate::compiler::error::{Failure, SchemaError, SchemaErrorKind};
use crate::compiler::fsm::{StateView, FSM};
use crate::compiler::signal::{GroupView, SignalGroup};
use crate::compiler::types::{new_types, Types, TypesView};
use vstd::prelude::*;

verus! {

/// A group of signals under its name.
#[derive(Debug)]
pub struct NamedGroup {
    pub name: String,
    pub group: SignalGroup,
}

/// The protocol that a document describes. The groups stand in the order
/// of the document; no two have the same name.
pub struct Spec {
    pub fsm: FSM,
    pub types: Types,
    pub groups: Vec<NamedGroup>,
}

/// A [`Spec`] by value.
pub struct SpecView {
    pub fsm: Seq<StateView>,
    pub types: TypesView,
    pub groups: Seq<(Seq<char>, GroupView)>,
}

impl View for NamedGroup {
    type V = (Seq<char>, GroupView);

    open spec fn view(&self) -> (Seq<char>, GroupView) {
        (self.name@, self.group@)
    }
}

impl View for Spec {
    type V = SpecView;

    open spec fn view(&self) -> SpecView {
        SpecView {
            fsm: self.fsm@,
            types: self.types@,
            groups: self.groups@.map_values(|group: NamedGroup| group@),
        }
    }
}

/// Whether one of `groups` has the name `name`.
pub open spec fn has_group(groups: Seq<(Seq<char>, GroupView)>, name: Seq<char>) -> bool {
    exists|i: int| 0 <= i < groups.len() && (#[trigger] groups[i]).0 == name
}

/// The groups that `entries` declare, one for each entry but the machine
/// and the types, and the formats that their signals add to the registry.
pub open spec fn parse_groups(types: TypesView, entries: Seq<Entry>) -> Result<
    (Seq<(Seq<char>, GroupView)>, Seq<crate::compiler::format::FormatView>),
    Failure,
>
    decreases entries.len(),
{
    if entries.len() == 0 {
        Ok((Seq::empty(), Seq::empty()))
    } else {
        match parse_groups(types, entries.drop_last()) {
            Err(failure) => Err(failure),
            Ok((groups, formats)) => {
                let name = entries.last().key@;
                if name == "FSM"@ || name == "TYPES"@ {
                    Ok((groups, formats))
                } else if has_group(groups, name) {
                    Err(
                        crate::compiler::error::failure(
                            SchemaErrorKind::DuplicateName,
                            name,
                            "document"@,
                        ),
                    )
                } else {
                    match crate::compiler::signal::parse_group(
                        crate::compiler::signal::grown(types, formats),
                        name,
                        entries.last().value,
                    ) {
                        Err(failure) => Err(failure),
                        Ok((group, added)) => Ok((groups.push((name, group)), formats + added)),
                    }
                }
            },
        }
    }
}

/// What stands under `key`, or something that is no mapping where nothing
/// stands there.
pub open spec fn section(entries: Seq<Entry>, key: Seq<char>) -> Declaration {
    match crate::compiler::document::lookup(entries, key) {
        Some(found) => found,
        None => Declaration::Other,
    }
}

/// The protocol that `document` describes: the machine under `FSM`, the
/// types under `TYPES`, and a group of signals under every other key. No two
/// signals of one class may have the same identifier.
pub open spec fn parse_spec(document: Declaration) -> Result<SpecView, Failure> {
    match document {
        Declaration::Mapping(entries) => match crate::compiler::fsm::parse_fsm(
            section(entries@, "FSM"@),
        ) {
            Err(failure) => Err(failure),
            Ok(fsm) => match crate::compiler::types::resolve_registry(
                section(entries@, "TYPES"@),
            ) {
                Err(failure) => Err(failure),
                Ok(types) => match parse_groups(types, entries@) {
                    Err(failure) => Err(failure),
                    Ok((groups, formats)) => match crate::compiler::ids::clash_failure(
                        crate::compiler::ids::all_keys(groups),
                    ) {
                        Some(failure) => Err(failure),
                        None => Ok(
                            SpecView {
                                fsm,
                                types: crate::compiler::signal::grown(types, formats),
                                groups,
                            },
                        ),
                    },
                },
            },
        },
        _ => Err(
            crate::compiler::error::failure(
                SchemaErrorKind::NotAMapping,
                "document"@,
                "document"@,
            ),
        ),
    }
}

/// A failure among the first groups is the failure of them all.
pub proof fn lemma_groups_failure(types: TypesView, entries: Seq<Entry>, count: int)
    requires
        0 <= count <= entries.len(),
        parse_groups(types, entries.take(count)) is Err,
    ensures
        parse_groups(types, entries) == parse_groups(types, entries.take(count)),
    decreases entries.len() - count,
{
    if count < entries.len() {
        assert(entries.take(count + 1).drop_last() =~= entries.take(count));
        lemma_groups_failure(types, entries, count + 1);
    } else {
        assert(entries.take(count) =~= entries);
    }
}

impl SpecView {
    /// The invariant of a protocol: its machine and its registry are well
    /// formed, no two groups have the same name, and the format of every
    /// field of every signal stands in the registry's row.
    pub open spec fn wf(self) -> bool {
        &&& crate::compiler::fsm::distinct_states(self.fsm)
        &&& crate::compiler::fsm::closed(self.fsm)
        &&& self.types.wf()
        &&& forall|i: int, j: int|
            0 <= i < j < self.groups.len() ==> (#[trigger] self.groups[i]).0 != (
            #[trigger] self.groups[j]).0
        &&& forall|i: int|
            0 <= i < self.groups.len() ==> (#[trigger] self.groups[i]).1.fits(
                self.types.formats.len() as int,
            )
    }
}

/// Whether one of `groups` has the name `name`.
fn named(groups: &Vec<NamedGroup>, name: &str) -> (r: bool)
    ensures
        r == has_group(groups@.map_values(|group: NamedGroup| group@), name@),
{
    let ghost views = groups@.map_values(|group: NamedGroup| group@);
    let mut i: usize = 0;
    while i < groups.len()
        invariant
            i <= groups.len(),
            views == groups@.map_values(|group: NamedGroup| group@),
            forall|j: int| 0 <= j < i ==> (#[trigger] views[j]).0 != name@,
        decreases groups.len() - i,
    {
        if same_text(groups[i].name.as_str(), name) {
            assert(views[i as int].0 == name@);
            return true;
        }
        i += 1;
    }
    false
}

impl Spec {
    /// The invariant of a protocol, as its view states it.
    pub open spec fn wf(&self) -> bool {
        self@.wf()
    }

    /// Builds the protocol that `document` describes.
    pub fn new(document: &Declaration) -> (r: Result<Spec, SchemaError>)
        ensures
            match parse_spec(*document) {
                Ok(spec) => r matches Ok(built) && built@ == spec && built.wf()
                    && crate::compiler::ids::clash_failure(
                    crate::compiler::ids::all_keys(spec.groups),
                ) is None,
                Err(failure) => r matches Err(e) && e.is_failure(failure),
            },
    {
        let entries = match document.as_hash() {
            Some(entries) => entries,
            None => {
                return Err(SchemaError::new(SchemaErrorKind::NotAMapping, "document", "document"));
            },
        };
        let nothing = Declaration::Other;
        let fsm = FSM::new(
            match find(entries, "FSM") {
                Some(found) => found,
                None => &nothing,
            },
        )?;
        let mut types = new_types(
            match find(entries, "TYPES") {
                Some(found) => found,
                None => &nothing,
            },
        )?;
        let ghost start = types@;
        let length = types.formats.len();
        let mut groups: Vec<NamedGroup> = Vec::new();
        let mut i: usize = 0;
        assert(entries@.take(0) =~= Seq::<Entry>::empty());
        assert(groups@.map_values(|group: NamedGroup| group@) =~= Seq::<
            (Seq<char>, GroupView),
        >::empty());
        assert(types@.formats.skip(length as int) =~= Seq::empty());
        assert(types@.formats.take(length as int) =~= start.formats);
        while i < entries.len()
            invariant
                i <= entries.len(),
                types.wf(),
                fsm.wf(),
                *document == Declaration::Mapping(*entries),
                crate::compiler::fsm::parse_fsm(section(entries@, "FSM"@)) == Ok::<
                    Seq<StateView>,
                    Failure,
                >(fsm@),
                crate::compiler::types::resolve_registry(section(entries@, "TYPES"@)) == Ok::<
                    TypesView,
                    Failure,
                >(start),
                types@.entries == start.entries,
                length == start.formats.len(),
                length <= types@.formats.len(),
                types@.formats.take(length as int) == start.formats,
                forall|a: int, b: int|
                    0 <= a < b < groups@.len() ==> (#[trigger] groups@[a]).name@ != (
                    #[trigger] groups@[b]).name@,
                forall|k: int|
                    0 <= k < groups@.len() ==> (#[trigger] groups@[k]).group@.fits(
                        types@.formats.len() as int,
                    ),
                parse_groups(start, entries@.take(i as int)) == Ok::<
                    (Seq<(Seq<char>, GroupView)>, Seq<crate::compiler::format::FormatView>),
                    Failure,
                >(
                    (
                        groups@.map_values(|group: NamedGroup| group@),
                        types@.formats.skip(length as int),
                    ),
                ),
            decreases entries.len() - i,
        {
            assert(entries@.take(i + 1).drop_last() =~= entries@.take(i as int));
            assert(entries@.take(i + 1).last() == entries@[i as int]);
            let entry = &entries[i];
            let ghost before = types@;
            let ghost done = before.formats.skip(length as int);
            let ghost views = groups@.map_values(|group: NamedGroup| group@);
            assert(before.formats =~= start.formats + done);
            assert(before == crate::compiler::signal::grown(start, done));
            if !same_text(entry.key.as_str(), "FSM") && !same_text(entry.key.as_str(), "TYPES") {
                if named(&groups, entry.key.as_str()) {
                    proof {
                        lemma_groups_failure(start, entries@, i + 1);
                    }
                    return Err(
                        SchemaError::new(
                            SchemaErrorKind::DuplicateName,
                            entry.key.as_str(),
                            "document",
                        ),
                    );
                }
                match SignalGroup::new(&mut types, entry.key.as_str(), &entry.value) {
                    Ok(group) => {
                        let named = NamedGroup { name: entry.key.clone(), group };
                        proof {
                            let added = crate::compiler::signal::parse_group(
                                before,
                                entry.key@,
                                entry.value,
                            )->Ok_0.1;
                            assert(types@.formats =~= start.formats + (done + added));
                            assert(types@.formats.skip(length as int) =~= done + added);
                            assert(types@.formats.take(length as int) =~= start.formats);
                            assert(groups@.push(named).map_values(|group: NamedGroup| group@)
                                =~= views.push(named@));
                            assert forall|a: int| 0 <= a < groups@.len() implies (
                            #[trigger] groups@[a]).name@ != named.name@ by {
                                assert(views[a].0 == groups@[a].name@);
                            }
                        }
                        groups.push(named);
                    },
                    Err(e) => {
                        proof {
                            lemma_groups_failure(start, entries@, i + 1);
                        }
                        return Err(e);
                    },
                }
            }
            i += 1;
        }
        assert(entries@.take(i as int) =~= entries@);
        assert(types@.formats =~= start.formats + types@.formats.skip(length as int));
        let spec = Spec { fsm, types, groups };
        proof {
            let views = spec@.groups;
            assert forall|a: int, b: int| 0 <= a < b < views.len() implies (#[trigger] views[a]).0
                != (#[trigger] views[b]).0 by {
                assert(views[a].0 == spec.groups@[a].name@);
                assert(views[b].0 == spec.groups@[b].name@);
            }
            assert forall|k: int| 0 <= k < views.len() implies (#[trigger] views[k]).1.fits(
                spec@.types.formats.len() as int,
            ) by {
                assert(views[k].1 == spec.groups@[k].group@);
            }
        }
        match crate::compiler::ids::check_signal_ids(&spec) {
            Ok(()) => Ok(spec),
            Err(e) => Err(e),
        }
    }
}

} // verus!
