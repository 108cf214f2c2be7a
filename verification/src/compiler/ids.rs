//! The identifiers of signals, and the check that no two signals of one
//! class share one.

use crate::compiler::error::{Failure, SchemaError, SchemaErrorKind};
use crate::compiler::signal::{identifier_of, GroupView, Signal, SignalClass, SignalId, SignalView};
use crate::compiler::spec::Spec;
use std::collections::HashMap;
use vstd::prelude::*;

verus! {

/// What identifies a signal on the wire: its class and its name.
pub struct SignalKeyView {
    pub class: SignalClass,
    pub name: Seq<char>,
}

/// A signal's class, identifier and name.
#[derive(Debug)]
pub struct SignalKey {
    pub class: SignalClass,
    pub id: SignalId,
    pub name: String,
}

impl View for SignalKey {
    type V = SignalKeyView;

    open spec fn view(&self) -> SignalKeyView {
        SignalKeyView { class: self.class, name: self.name@ }
    }
}

impl SignalKeyView {
    /// The identifier of the signal.
    pub open spec fn id(self) -> SignalId {
        identifier_of(self.name, self.class)
    }

    /// Whether the two signals would be taken for each other: they are of
    /// one class and have one identifier.
    pub open spec fn clashes(self, other: SignalKeyView) -> bool {
        self.class == other.class && self.id() == other.id()
    }
}

/// The keys of `signals`, which are of the class `class`.
pub open spec fn group_keys(class: SignalClass, signals: Seq<SignalView>) -> Seq<SignalKeyView> {
    signals.map_values(|signal: SignalView| SignalKeyView { class, name: signal.name })
}

/// The keys of all signals of `groups`, group after group.
pub open spec fn all_keys(groups: Seq<(Seq<char>, GroupView)>) -> Seq<SignalKeyView>
    decreases groups.len(),
{
    if groups.len() == 0 {
        Seq::empty()
    } else {
        all_keys(groups.drop_last()) + group_keys(groups.last().1.class, groups.last().1.signals)
    }
}

/// The first of the first `count` keys that clashes with the key at
/// `place`.
pub open spec fn clash_before(keys: Seq<SignalKeyView>, place: int, count: int) -> Option<int>
    decreases count,
{
    if count <= 0 {
        None
    } else {
        match clash_before(keys, place, count - 1) {
            Some(first) => Some(first),
            None => if keys[count - 1].clashes(keys[place]) {
                Some(count - 1)
            } else {
                None
            },
        }
    }
}

/// The first clash among the first `count` keys: the first key that clashes
/// with one before it, and the first that it clashes with.
pub open spec fn first_clash(keys: Seq<SignalKeyView>, count: int) -> Option<(int, int)>
    decreases count,
{
    if count <= 0 {
        None
    } else {
        match first_clash(keys, count - 1) {
            Some(found) => Some(found),
            None => match clash_before(keys, count - 1, count - 1) {
                Some(first) => Some((first, count - 1)),
                None => None,
            },
        }
    }
}

/// The failure that the first clash among `keys` is.
pub open spec fn clash_failure(keys: Seq<SignalKeyView>) -> Option<Failure> {
    match first_clash(keys, keys.len() as int) {
        None => None,
        Some((first, second)) => Some(
            crate::compiler::error::failure(
                SchemaErrorKind::DuplicateSignalId,
                keys[second].name,
                keys[first].name,
            ),
        ),
    }
}

/// No key before `count` clashes with the key at `place` exactly where
/// `clash_before` finds none; what it finds is a clash.
pub proof fn lemma_clash_before(keys: Seq<SignalKeyView>, place: int, count: int)
    requires
        0 <= count <= place < keys.len(),
    ensures
        match clash_before(keys, place, count) {
            Some(first) => 0 <= first < count && keys[first].clashes(keys[place]),
            None => forall|i: int| 0 <= i < count ==> !(#[trigger] keys[i]).clashes(keys[place]),
        },
    decreases count,
{
    if count > 0 {
        lemma_clash_before(keys, place, count - 1);
    }
}

/// No two of the first `count` keys clash exactly where `first_clash` finds
/// none; what it finds is a clash.
pub proof fn lemma_first_clash(keys: Seq<SignalKeyView>, count: int)
    requires
        0 <= count <= keys.len(),
    ensures
        match first_clash(keys, count) {
            Some((first, second)) => 0 <= first < second < count && keys[first].clashes(
                keys[second],
            ),
            None => forall|i: int, j: int|
                0 <= i < j < count ==> !(#[trigger] keys[i]).clashes(#[trigger] keys[j]),
        },
    decreases count,
{
    if count > 0 {
        lemma_first_clash(keys, count - 1);
        lemma_clash_before(keys, count - 1, count - 1);
    }
}

/// A protocol is rejected for its identifiers exactly where two of its
/// signals are of one class and have one identifier.
pub proof fn lemma_clash_exactly(keys: Seq<SignalKeyView>)
    ensures
        clash_failure(keys) is Some <==> exists|i: int, j: int|
            0 <= i < j < keys.len() && (#[trigger] keys[i]).clashes(#[trigger] keys[j]),
{
    lemma_first_clash(keys, keys.len() as int);
    match first_clash(keys, keys.len() as int) {
        Some((first, second)) => {
            assert(keys[first].clashes(keys[second]));
        },
        None => {},
    }
}

/// A clash among the first keys is the first clash of them all.
pub proof fn lemma_clash_stays(keys: Seq<SignalKeyView>, count: int, more: int)
    requires
        0 <= count <= more,
        first_clash(keys, count) is Some,
    ensures
        first_clash(keys, more) == first_clash(keys, count),
    decreases more - count,
{
    if count < more {
        lemma_clash_stays(keys, count, more - 1);
    }
}

/// The keys of the signals of `spec`, group after group.
pub fn signal_keys(spec: &Spec) -> (keys: Vec<SignalKey>)
    ensures
        keys@.map_values(|key: SignalKey| key@) == all_keys(spec@.groups),
        forall|k: int| 0 <= k < keys@.len() ==> (#[trigger] keys@[k]).id == keys@[k]@.id(),
{
    let mut keys: Vec<SignalKey> = Vec::new();
    let ghost groups = spec@.groups;
    let mut i: usize = 0;
    assert(groups.take(0) =~= Seq::empty());
    assert(keys@.map_values(|key: SignalKey| key@) =~= Seq::<SignalKeyView>::empty());
    while i < spec.groups.len()
        invariant
            i <= spec.groups.len(),
            groups == spec@.groups,
            groups.len() == spec.groups@.len(),
            keys@.map_values(|key: SignalKey| key@) == all_keys(groups.take(i as int)),
            forall|k: int| 0 <= k < keys@.len() ==> (#[trigger] keys@[k]).id == keys@[k]@.id(),
        decreases spec.groups.len() - i,
    {
        assert(groups.take(i + 1).drop_last() =~= groups.take(i as int));
        assert(groups.take(i + 1).last() == groups[i as int]);
        let group = &spec.groups[i].group;
        assert(groups[i as int].1 == group@);
        let ghost before = keys@.map_values(|key: SignalKey| key@);
        let ghost signals = group@.signals;
        let mut j: usize = 0;
        assert(before + group_keys(group.class, signals.take(0)) =~= before);
        while j < group.signals.len()
            invariant
                j <= group.signals.len(),
                signals == group@.signals,
                signals.len() == group.signals@.len(),
                keys@.map_values(|key: SignalKey| key@) == before + group_keys(
                    group.class,
                    signals.take(j as int),
                ),
                forall|k: int| 0 <= k < keys@.len() ==> (#[trigger] keys@[k]).id == keys@[k]@.id(),
            decreases group.signals.len() - j,
        {
            let signal = &group.signals[j];
            assert(signals[j as int] == signal@);
            let key = SignalKey {
                class: group.class,
                id: signal.identifier(group.class),
                name: signal.name.clone(),
            };
            proof {
                let so_far = group_keys(group.class, signals.take(j as int));
                let next = group_keys(group.class, signals.take(j + 1));
                assert(key@ == (SignalKeyView { class: group.class, name: signals[j as int].name }));
                assert(next.len() == j + 1);
                assert forall|k: int| 0 <= k < next.len() implies next[k] == so_far.push(key@)[k] by {
                    if k < j {
                        assert(signals.take(j + 1)[k] == signals.take(j as int)[k]);
                    }
                }
                assert(next =~= so_far.push(key@));
                assert(keys@.push(key).map_values(|key: SignalKey| key@) =~= keys@.map_values(
                    |key: SignalKey| key@,
                ).push(key@));
                assert(before + so_far.push(key@) =~= (before + so_far).push(key@));
            }
            keys.push(key);
            j += 1;
        }
        assert(signals.take(j as int) =~= signals);
        i += 1;
    }
    assert(groups.take(i as int) =~= groups);
    keys
}

/// Whether `seen` holds, for each identifier of the first `count` keys of
/// the class `class`, the place of a key that has it, and nothing else.
pub open spec fn seen_of(
    seen: Map<SignalId, usize>,
    keys: Seq<SignalKeyView>,
    class: SignalClass,
    count: int,
) -> bool {
    &&& forall|k: int|
        0 <= k < count && (#[trigger] keys[k]).class == class ==> seen.contains_key(keys[k].id())
    &&& forall|id: SignalId| #[trigger]
        seen.contains_key(id) ==> seen[id] < count && keys[seen[id] as int].class == class
            && keys[seen[id] as int].id() == id
}

/// Finds the first signal that has the identifier of one before it in its
/// class; there must be none. The identifiers met so far are kept in one
/// map for each class, each with the place of the signal that has it.
pub fn check_signal_ids(spec: &Spec) -> (r: Result<(), SchemaError>)
    ensures
        match clash_failure(all_keys(spec@.groups)) {
            Some(failure) => r matches Err(e) && e.is_failure(failure),
            None => r is Ok,
        },
{
    let keys = signal_keys(spec);
    let ghost views = keys@.map_values(|key: SignalKey| key@);
    let mut low = HashMap::<SignalId, usize>::new();
    let mut packed = HashMap::<SignalId, usize>::new();
    let mut j: usize = 0;
    while j < keys.len()
        invariant
            j <= keys.len(),
            views == keys@.map_values(|key: SignalKey| key@),
            views == all_keys(spec@.groups),
            forall|k: int| 0 <= k < keys@.len() ==> (#[trigger] keys@[k]).id == keys@[k]@.id(),
            first_clash(views, j as int) is None,
            seen_of(low@, views, SignalClass::LowLevel, j as int),
            seen_of(packed@, views, SignalClass::Packed, j as int),
        decreases keys.len() - j,
    {
        let key = &keys[j];
        assert(views[j as int] == key@);
        let found = match key.class {
            SignalClass::LowLevel => low.get(&key.id),
            SignalClass::Packed => packed.get(&key.id),
        };
        proof {
            lemma_first_clash(views, j as int);
            lemma_clash_before(views, j as int, j as int);
        }
        match found {
            Some(first) => {
                let i = *first;
                proof {
                    assert(views[i as int].clashes(views[j as int]));
                    let f = clash_before(views, j as int, j as int)->Some_0;
                    if f != i as int {
                        assert(views[f].clashes(views[i as int]));
                    }
                    assert(first_clash(views, j + 1) == Some((i as int, j as int)));
                    lemma_clash_stays(views, j + 1, views.len() as int);
                }
                assert(views[i as int] == keys@[i as int]@);
                return Err(
                    SchemaError::new(
                        SchemaErrorKind::DuplicateSignalId,
                        key.name.as_str(),
                        keys[i].name.as_str(),
                    ),
                );
            },
            None => {},
        }
        let class = key.class;
        let id = key.id;
        match class {
            SignalClass::LowLevel => {
                low.insert(id, j);
            },
            SignalClass::Packed => {
                packed.insert(id, j);
            },
        }
        j += 1;
    }
    Ok(())
}

} // verus!
