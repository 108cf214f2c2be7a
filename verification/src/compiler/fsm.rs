//! The machine of states that a connection moves through.

use crate::compiler::document::{same_text, Declaration, Entry};
use crate::compiler::error::{Failure, SchemaError, SchemaErrorKind};
use vstd::prelude::*;
use vstd::string::StringExecFns;

verus! {

/// While in the state that holds this edge, any signal of the group
/// `group_name` takes the connection to the state `to_name`.
#[derive(Debug)]
pub struct StateEdge {
    pub to_name: String,
    pub group_name: String,
}

/// One state of the machine: its name, what it means, and where signals
/// lead from it.
#[derive(Debug)]
pub struct State {
    pub name: String,
    pub description: String,
    pub edges: Vec<StateEdge>,
}

/// The states in the order of the document; no two have the same name.
#[derive(Debug)]
pub struct FSM {
    pub states: Vec<State>,
}

/// A [`StateEdge`] by value.
pub struct EdgeView {
    pub to_name: Seq<char>,
    pub group_name: Seq<char>,
}

/// A [`State`] by value.
pub struct StateView {
    pub name: Seq<char>,
    pub description: Seq<char>,
    pub edges: Seq<EdgeView>,
}

impl View for StateEdge {
    type V = EdgeView;

    open spec fn view(&self) -> EdgeView {
        EdgeView { to_name: self.to_name@, group_name: self.group_name@ }
    }
}

impl View for State {
    type V = StateView;

    open spec fn view(&self) -> StateView {
        StateView {
            name: self.name@,
            description: self.description@,
            edges: self.edges@.map_values(|edge: StateEdge| edge@),
        }
    }
}

impl View for FSM {
    type V = Seq<StateView>;

    open spec fn view(&self) -> Seq<StateView> {
        self.states@.map_values(|state: State| state@)
    }
}

/// Where the state named `name` stands among `states`.
pub open spec fn state_named(states: Seq<StateView>, name: Seq<char>) -> Option<int>
    decreases states.len(),
{
    if states.len() == 0 {
        None
    } else if states.last().name == name {
        match state_named(states.drop_last(), name) {
            Some(place) => Some(place),
            None => Some(states.len() - 1),
        }
    } else {
        state_named(states.drop_last(), name)
    }
}

/// Whether no two of `states` have the same name.
pub open spec fn distinct_states(states: Seq<StateView>) -> bool {
    forall|i: int, j: int|
        0 <= i < j < states.len() ==> (#[trigger] states[i]).name != (#[trigger] states[j]).name
}

/// The edges that the entries of a state declare: one for each entry but
/// the description, the key the group and the text the target.
pub open spec fn parse_edges(entries: Seq<Entry>, state: Seq<char>) -> Result<Seq<EdgeView>, Failure>
    decreases entries.len(),
{
    if entries.len() == 0 {
        Ok(Seq::empty())
    } else {
        match parse_edges(entries.drop_last(), state) {
            Err(failure) => Err(failure),
            Ok(edges) => {
                let entry = entries.last();
                if entry.key@ == "_description"@ {
                    Ok(edges)
                } else {
                    match entry.value {
                        Declaration::Text(target) => Ok(
                            edges.push(EdgeView { to_name: target@, group_name: entry.key@ }),
                        ),
                        _ => Err(
                            crate::compiler::error::failure(
                                SchemaErrorKind::NotAText,
                                entry.key@,
                                state,
                            ),
                        ),
                    }
                }
            },
        }
    }
}

/// The state that `table` declares under the name `name`.
pub open spec fn parse_state(name: Seq<char>, table: Declaration) -> Result<StateView, Failure> {
    match table {
        Declaration::Mapping(entries) => match crate::compiler::document::lookup_text(
            entries@,
            "_description"@,
        ) {
            None => Err(
                crate::compiler::error::failure(SchemaErrorKind::MissingDescription, name, "FSM"@),
            ),
            Some(description) => match parse_edges(entries@, name) {
                Err(failure) => Err(failure),
                Ok(edges) => Ok(StateView { name, description, edges }),
            },
        },
        _ => Err(crate::compiler::error::failure(SchemaErrorKind::NotAMapping, name, "FSM"@)),
    }
}

/// The states that `entries` declare.
pub open spec fn parse_states(entries: Seq<Entry>) -> Result<Seq<StateView>, Failure>
    decreases entries.len(),
{
    if entries.len() == 0 {
        Ok(Seq::empty())
    } else {
        match parse_states(entries.drop_last()) {
            Err(failure) => Err(failure),
            Ok(states) => {
                let name = entries.last().key@;
                if state_named(states, name) is Some {
                    Err(
                        crate::compiler::error::failure(SchemaErrorKind::DuplicateName, name, "FSM"@),
                    )
                } else {
                    match parse_state(name, entries.last().value) {
                        Err(failure) => Err(failure),
                        Ok(state) => Ok(states.push(state)),
                    }
                }
            },
        }
    }
}

/// The first of `edges` that leads to no state of `states`.
pub open spec fn stray_edge(edges: Seq<EdgeView>, states: Seq<StateView>) -> Option<EdgeView>
    decreases edges.len(),
{
    if edges.len() == 0 {
        None
    } else {
        match stray_edge(edges.drop_last(), states) {
            Some(edge) => Some(edge),
            None => if state_named(states, edges.last().to_name) is None {
                Some(edges.last())
            } else {
                None
            },
        }
    }
}

/// The first edge of the first of `some` that has one that leads to no
/// state of `states`, as the failure that it is.
pub open spec fn stray_target(some: Seq<StateView>, states: Seq<StateView>) -> Option<Failure>
    decreases some.len(),
{
    if some.len() == 0 {
        None
    } else {
        match stray_target(some.drop_last(), states) {
            Some(failure) => Some(failure),
            None => match stray_edge(some.last().edges, states) {
                Some(edge) => Some(
                    crate::compiler::error::failure(
                        SchemaErrorKind::UnknownState,
                        edge.to_name,
                        some.last().name,
                    ),
                ),
                None => None,
            },
        }
    }
}

/// Whether every edge of `states` leads to one of them.
pub open spec fn closed(states: Seq<StateView>) -> bool {
    forall|i: int, j: int|
        0 <= i < states.len() && 0 <= j < states[i].edges.len() ==> state_named(
            states,
            (#[trigger] states[i].edges[j]).to_name,
        ) is Some
}

/// The machine that `data` declares: its states, each edge of which must
/// lead to one of them.
pub open spec fn parse_fsm(data: Declaration) -> Result<Seq<StateView>, Failure> {
    match data {
        Declaration::Mapping(entries) => match parse_states(entries@) {
            Err(failure) => Err(failure),
            Ok(states) => match stray_target(states, states) {
                Some(failure) => Err(failure),
                None => Ok(states),
            },
        },
        _ => Err(crate::compiler::error::failure(SchemaErrorKind::NotAMapping, "FSM"@, "FSM"@)),
    }
}

/// A stray edge among the first edges is the stray edge of them all.
pub proof fn lemma_stray_edge(edges: Seq<EdgeView>, states: Seq<StateView>, count: int)
    requires
        0 <= count <= edges.len(),
        stray_edge(edges.take(count), states) is Some,
    ensures
        stray_edge(edges, states) == stray_edge(edges.take(count), states),
    decreases edges.len() - count,
{
    if count < edges.len() {
        assert(edges.take(count + 1).drop_last() =~= edges.take(count));
        lemma_stray_edge(edges, states, count + 1);
    } else {
        assert(edges.take(count) =~= edges);
    }
}

/// A stray target among the first states is the stray target of them all.
pub proof fn lemma_stray_target(some: Seq<StateView>, states: Seq<StateView>, count: int)
    requires
        0 <= count <= some.len(),
        stray_target(some.take(count), states) is Some,
    ensures
        stray_target(some, states) == stray_target(some.take(count), states),
    decreases some.len() - count,
{
    if count < some.len() {
        assert(some.take(count + 1).drop_last() =~= some.take(count));
        lemma_stray_target(some, states, count + 1);
    } else {
        assert(some.take(count) =~= some);
    }
}

/// A failure among the first edges is the failure of them all.
pub proof fn lemma_edges_failure(entries: Seq<Entry>, state: Seq<char>, count: int)
    requires
        0 <= count <= entries.len(),
        parse_edges(entries.take(count), state) is Err,
    ensures
        parse_edges(entries, state) == parse_edges(entries.take(count), state),
    decreases entries.len() - count,
{
    if count < entries.len() {
        assert(entries.take(count + 1).drop_last() =~= entries.take(count));
        lemma_edges_failure(entries, state, count + 1);
    } else {
        assert(entries.take(count) =~= entries);
    }
}

/// A failure among the first states is the failure of them all.
pub proof fn lemma_states_failure(entries: Seq<Entry>, count: int)
    requires
        0 <= count <= entries.len(),
        parse_states(entries.take(count)) is Err,
    ensures
        parse_states(entries) == parse_states(entries.take(count)),
    decreases entries.len() - count,
{
    if count < entries.len() {
        assert(entries.take(count + 1).drop_last() =~= entries.take(count));
        lemma_states_failure(entries, count + 1);
    } else {
        assert(entries.take(count) =~= entries);
    }
}

/// A name that no state has stands nowhere; one that the state at `place`
/// has, no state before it having it, stands there.
pub proof fn lemma_state_named(states: Seq<StateView>, name: Seq<char>, place: int)
    requires
        0 <= place <= states.len(),
        forall|i: int| 0 <= i < place ==> (#[trigger] states[i]).name != name,
        place < states.len() ==> states[place].name == name,
    ensures
        state_named(states, name) == (if place < states.len() {
            Some(place)
        } else {
            None
        }),
    decreases states.len(),
{
    if states.len() > 0 {
        if place < states.len() {
            if place < states.len() - 1 {
                lemma_state_named(states.drop_last(), name, place);
            } else {
                lemma_state_named(states.drop_last(), name, place);
            }
        } else {
            lemma_state_named(states.drop_last(), name, place - 1);
        }
    }
}

/// The transitions that the group `group` makes from the state at place
/// `from`, whose edges are `edges`: one for each edge of the group, in
/// their order.
pub open spec fn edge_transitions(
    states: Seq<StateView>,
    from: int,
    edges: Seq<EdgeView>,
    group: Seq<char>,
) -> Seq<crate::compiler::api::Transition>
    decreases edges.len(),
{
    if edges.len() == 0 {
        Seq::empty()
    } else {
        let before = edge_transitions(states, from, edges.drop_last(), group);
        if edges.last().group_name == group && state_named(states, edges.last().to_name) is Some {
            before.push(
                crate::compiler::api::Transition {
                    from: from as usize,
                    to: state_named(states, edges.last().to_name)->Some_0 as usize,
                },
            )
        } else {
            before
        }
    }
}

/// The transitions that the group `group` makes from the first `count`
/// states, state after state.
pub open spec fn group_transitions(states: Seq<StateView>, count: int, group: Seq<char>) -> Seq<
    crate::compiler::api::Transition,
>
    decreases count,
{
    if count <= 0 {
        Seq::empty()
    } else {
        group_transitions(states, count - 1, group) + edge_transitions(
            states,
            count - 1,
            states[count - 1].edges,
            group,
        )
    }
}

/// Every transition of a group leaves one of the states and leads to one.
pub proof fn lemma_edge_transitions_within(
    states: Seq<StateView>,
    from: int,
    edges: Seq<EdgeView>,
    group: Seq<char>,
)
    requires
        0 <= from < states.len(),
        states.len() <= usize::MAX,
    ensures
        forall|k: int|
            0 <= k < edge_transitions(states, from, edges, group).len() ==> (
            #[trigger] edge_transitions(states, from, edges, group)[k]).from == from
                && edge_transitions(states, from, edges, group)[k].to < states.len(),
    decreases edges.len(),
{
    if edges.len() > 0 {
        lemma_edge_transitions_within(states, from, edges.drop_last(), group);
        lemma_state_named_within(states, edges.last().to_name);
        let all = edge_transitions(states, from, edges, group);
        let before = edge_transitions(states, from, edges.drop_last(), group);
        assert forall|k: int| 0 <= k < all.len() implies (#[trigger] all[k]).from == from && all[k].to
            < states.len() by {
            if k < before.len() {
                assert(all[k] == before[k]);
            }
        }
    }
}

/// A state that is named stands among the states.
pub proof fn lemma_state_named_within(states: Seq<StateView>, name: Seq<char>)
    ensures
        state_named(states, name) matches Some(place) ==> 0 <= place < states.len()
            && states[place].name == name,
    decreases states.len(),
{
    if states.len() > 0 {
        lemma_state_named_within(states.drop_last(), name);
    }
}

/// Every transition of a group leaves one of the states and leads to one.
pub proof fn lemma_group_transitions_within(states: Seq<StateView>, count: int, group: Seq<char>)
    requires
        0 <= count <= states.len(),
        states.len() <= usize::MAX,
    ensures
        forall|k: int|
            0 <= k < group_transitions(states, count, group).len() ==> (
            #[trigger] group_transitions(states, count, group)[k]).from < states.len()
                && group_transitions(states, count, group)[k].to < states.len(),
    decreases count,
{
    if count > 0 {
        lemma_group_transitions_within(states, count - 1, group);
        lemma_edge_transitions_within(states, count - 1, states[count - 1].edges, group);
        let all = group_transitions(states, count, group);
        let before = group_transitions(states, count - 1, group);
        let last = edge_transitions(states, count - 1, states[count - 1].edges, group);
        assert forall|k: int| 0 <= k < all.len() implies (#[trigger] all[k]).from < states.len()
            && all[k].to < states.len() by {
            if k < before.len() {
                assert(all[k] == before[k]);
            } else {
                assert(all[k] == last[k - before.len()]);
            }
        }
    }
}

impl FSM {
    /// The transitions that the signals of the group `group` make, in the
    /// order of the states and of their edges.
    pub fn transitions(&self, group: &str) -> (r: Vec<crate::compiler::api::Transition>)
        ensures
            r@ == group_transitions(self@, self@.len() as int, group@),
    {
        let mut found: Vec<crate::compiler::api::Transition> = Vec::new();
        let mut i: usize = 0;
        while i < self.states.len()
            invariant
                i <= self.states.len(),
                found@ == group_transitions(self@, i as int, group@),
            decreases self.states.len() - i,
        {
            let state = &self.states[i];
            let ghost edges = self@[i as int].edges;
            let ghost before = found@;
            assert(edges == state@.edges);
            let mut j: usize = 0;
            assert(edges.take(0) =~= Seq::<EdgeView>::empty());
            assert(before + edge_transitions(self@, i as int, edges.take(0), group@) =~= before);
            while j < state.edges.len()
                invariant
                    i < self.states.len(),
                    j <= state.edges.len(),
                    edges == state@.edges,
                    edges.len() == state.edges@.len(),
                    found@ == before + edge_transitions(
                        self@,
                        i as int,
                        edges.take(j as int),
                        group@,
                    ),
                decreases state.edges.len() - j,
            {
                assert(edges.take(j + 1).drop_last() =~= edges.take(j as int));
                assert(edges.take(j + 1).last() == edges[j as int]);
                assert(edges[j as int] == state.edges@[j as int]@);
                let edge = &state.edges[j];
                if same_text(edge.group_name.as_str(), group) {
                    match self.find(edge.to_name.as_str()) {
                        Some(to) => {
                            found.push(crate::compiler::api::Transition { from: i, to });
                            assert(found@ =~= before + edge_transitions(
                                self@,
                                i as int,
                                edges.take(j + 1),
                                group@,
                            ));
                        },
                        None => {},
                    }
                }
                j += 1;
            }
            assert(edges.take(j as int) =~= edges);
            i += 1;
        }
        found
    }

    /// The invariant of a machine: no two states have the same name, and
    /// every edge leads to a state.
    pub open spec fn wf(&self) -> bool {
        distinct_states(self@) && closed(self@)
    }

    /// The first edge that leads to no state, as the error that it is.
    fn check_targets(&self) -> (r: Result<(), SchemaError>)
        ensures
            match stray_target(self@, self@) {
                Some(failure) => r matches Err(e) && e.is_failure(failure),
                None => r is Ok && closed(self@),
            },
    {
        let mut i: usize = 0;
        assert(self@.take(0) =~= Seq::<StateView>::empty());
        while i < self.states.len()
            invariant
                i <= self.states.len(),
                stray_target(self@.take(i as int), self@) is None,
                forall|k: int, j: int|
                    0 <= k < i && 0 <= j < self@[k].edges.len() ==> state_named(
                        self@,
                        (#[trigger] self@[k].edges[j]).to_name,
                    ) is Some,
            decreases self.states.len() - i,
        {
            assert(self@.take(i + 1).drop_last() =~= self@.take(i as int));
            assert(self@.take(i + 1).last() == self@[i as int]);
            let state = &self.states[i];
            let ghost edges = self@[i as int].edges;
            assert(edges == state@.edges);
            let mut j: usize = 0;
            assert(edges.take(0) =~= Seq::<EdgeView>::empty());
            while j < state.edges.len()
                invariant
                    i < self.states.len(),
                    j <= state.edges.len(),
                    state == &self.states[i as int],
                    edges == state@.edges,
                    edges == self@[i as int].edges,
                    edges.len() == state.edges@.len(),
                    self@.take(i + 1).drop_last() == self@.take(i as int),
                    self@.take(i + 1).last() == self@[i as int],
                    stray_target(self@.take(i as int), self@) is None,
                    stray_edge(edges.take(j as int), self@) is None,
                    forall|k: int|
                        0 <= k < j ==> state_named(self@, (#[trigger] edges[k]).to_name) is Some,
                decreases state.edges.len() - j,
            {
                assert(edges.take(j + 1).drop_last() =~= edges.take(j as int));
                assert(edges.take(j + 1).last() == edges[j as int]);
                assert(edges[j as int] == state.edges@[j as int]@);
                if self.find(state.edges[j].to_name.as_str()).is_none() {
                    proof {
                        lemma_stray_edge(edges, self@, j + 1);
                        lemma_stray_target(self@, self@, i + 1);
                    }
                    return Err(
                        SchemaError::new(
                            SchemaErrorKind::UnknownState,
                            state.edges[j].to_name.as_str(),
                            state.name.as_str(),
                        ),
                    );
                }
                j += 1;
            }
            assert(edges.take(j as int) =~= edges);
            i += 1;
        }
        assert(self@.take(i as int) =~= self@);
        Ok(())
    }

    /// Where the state named `name` stands.
    pub fn find(&self, name: &str) -> (r: Option<usize>)
        ensures
            match state_named(self@, name@) {
                Some(place) => r == Some(place as usize) && 0 <= place < self.states@.len()
                    && self@[place].name == name@,
                None => r is None && forall|j: int|
                    0 <= j < self@.len() ==> (#[trigger] self@[j]).name != name@,
            },
    {
        let mut i: usize = 0;
        while i < self.states.len()
            invariant
                i <= self.states.len(),
                forall|j: int| 0 <= j < i ==> (#[trigger] self@[j]).name != name@,
            decreases self.states.len() - i,
        {
            if same_text(self.states[i].name.as_str(), name) {
                proof {
                    lemma_state_named(self@, name@, i as int);
                }
                return Some(i);
            }
            i += 1;
        }
        proof {
            lemma_state_named(self@, name@, i as int);
        }
        None
    }

    /// Builds the machine that `data` declares: a mapping from the name of
    /// each state to its description and its edges.
    pub fn new(data: &Declaration) -> (r: Result<FSM, SchemaError>)
        ensures
            match parse_fsm(*data) {
                Ok(states) => r matches Ok(fsm) && fsm@ == states && fsm.wf(),
                Err(failure) => r matches Err(e) && e.is_failure(failure),
            },
    {
        let entries = match data.as_hash() {
            Some(entries) => entries,
            None => {
                return Err(SchemaError::new(SchemaErrorKind::NotAMapping, "FSM", "FSM"));
            },
        };
        let mut fsm = FSM { states: Vec::new() };
        let mut i: usize = 0;
        assert(entries@.take(0) =~= Seq::<Entry>::empty());
        assert(fsm@ =~= Seq::<StateView>::empty());
        while i < entries.len()
            invariant
                i <= entries.len(),
                *data == Declaration::Mapping(*entries),
                distinct_states(fsm@),
                parse_states(entries@.take(i as int)) == Ok::<Seq<StateView>, Failure>(fsm@),
            decreases entries.len() - i,
        {
            assert(entries@.take(i + 1).drop_last() =~= entries@.take(i as int));
            assert(entries@.take(i + 1).last() == entries@[i as int]);
            let entry = &entries[i];
            if fsm.find(entry.key.as_str()).is_some() {
                proof {
                    lemma_states_failure(entries@, i + 1);
                }
                return Err(
                    SchemaError::new(SchemaErrorKind::DuplicateName, entry.key.as_str(), "FSM"),
                );
            }
            match State::new(entry.key.as_str(), &entry.value) {
                Ok(state) => {
                    assert(fsm@.push(state@) =~= fsm.states@.push(state).map_values(
                        |state: State| state@,
                    ));
                    fsm.states.push(state);
                },
                Err(e) => {
                    proof {
                        lemma_states_failure(entries@, i + 1);
                    }
                    return Err(e);
                },
            }
            i += 1;
        }
        assert(entries@.take(i as int) =~= entries@);
        match fsm.check_targets() {
            Ok(()) => Ok(fsm),
            Err(e) => Err(e),
        }
    }
}

impl State {
    /// Builds the state that `table` declares under the name `name`.
    pub fn new(name: &str, table: &Declaration) -> (r: Result<State, SchemaError>)
        ensures
            match parse_state(name@, *table) {
                Ok(state) => r matches Ok(built) && built@ == state,
                Err(failure) => r matches Err(e) && e.is_failure(failure),
            },
    {
        let entries = match table.as_hash() {
            Some(entries) => entries,
            None => {
                return Err(SchemaError::new(SchemaErrorKind::NotAMapping, name, "FSM"));
            },
        };
        let description = match crate::compiler::document::find_text(entries, "_description") {
            Some(description) => description,
            None => {
                return Err(SchemaError::new(SchemaErrorKind::MissingDescription, name, "FSM"));
            },
        };
        let mut edges: Vec<StateEdge> = Vec::new();
        let mut i: usize = 0;
        assert(entries@.take(0) =~= Seq::<Entry>::empty());
        assert(edges@.map_values(|edge: StateEdge| edge@) =~= Seq::<EdgeView>::empty());
        while i < entries.len()
            invariant
                i <= entries.len(),
                *table == Declaration::Mapping(*entries),
                crate::compiler::document::lookup_text(entries@, "_description"@) == Some(
                    description@,
                ),
                parse_edges(entries@.take(i as int), name@) == Ok::<Seq<EdgeView>, Failure>(
                    edges@.map_values(|edge: StateEdge| edge@),
                ),
            decreases entries.len() - i,
        {
            assert(entries@.take(i + 1).drop_last() =~= entries@.take(i as int));
            assert(entries@.take(i + 1).last() == entries@[i as int]);
            let entry = &entries[i];
            if !same_text(entry.key.as_str(), "_description") {
                match entry.value.as_str() {
                    Some(target) => {
                        let edge = StateEdge {
                            to_name: String::from_str(target),
                            group_name: entry.key.clone(),
                        };
                        assert(edges@.push(edge).map_values(|edge: StateEdge| edge@)
                            =~= edges@.map_values(|edge: StateEdge| edge@).push(edge@));
                        edges.push(edge);
                    },
                    None => {
                        proof {
                            lemma_edges_failure(entries@, name@, i + 1);
                        }
                        return Err(
                            SchemaError::new(SchemaErrorKind::NotAText, entry.key.as_str(), name),
                        );
                    },
                }
            }
            i += 1;
        }
        assert(entries@.take(i as int) =~= entries@);
        Ok(
            State {
                name: String::from_str(name),
                description: String::from_str(description),
                edges,
            },
        )
    }
}

} // verus!
