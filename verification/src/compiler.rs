//! The compiler of protocols: from a declarative document to the formats of
//! the fields, the machine of states, and the operations of each endpoint.

use crate::compiler::api::{
    EndpointApi, FieldDecl, FieldDeclView, GeneratedApi, GeneratedView, Operation, OperationView,
    SignalDecl, SignalDeclView, TypeDecl, TypeDeclView,
};
use crate::compiler::error::SchemaError;
use crate::compiler::format::FormatView;
use crate::compiler::fsm::StateView;
use crate::compiler::names::{to_camel_case, to_snake_case};
use crate::compiler::signal::{
    GroupView, Signal, SignalClass, SignalDirection, SignalGroup, SignalView,
};
use crate::compiler::spec::{Spec, SpecView};
use crate::compiler::types::{Type, Types};
use vstd::prelude::*;
use vstd::string::StringExecFns;

pub mod api;
pub mod document;
pub mod error;
pub mod format;
pub mod fsm;
pub mod ids;
pub mod names;
pub mod registry;
pub mod signal;
pub mod spec;
pub mod text;
pub mod types;

verus! {

/// The name of the type that holds a signal's identifier.
pub const SIGNAL_ID_TYPE: &'static str = "u16";

/// The fields of the structure generated for `fields`: alignment marks left
/// out, each other field under its name in snake case, with the type of its
/// values.
pub open spec fn field_decls(formats: Seq<FormatView>, fields: Seq<(Seq<char>, usize)>) -> Seq<
    FieldDeclView,
>
    decreases fields.len(),
{
    if fields.len() == 0 {
        Seq::empty()
    } else {
        let before = field_decls(formats, fields.drop_last());
        if crate::compiler::text::begins_with(fields.last().0, "_nop_"@) {
            before
        } else {
            before.push(
                FieldDeclView {
                    name: crate::compiler::names::snake_case(fields.last().0),
                    typ: crate::compiler::api::return_type_of(formats, fields.last().1 as int),
                },
            )
        }
    }
}

/// The fields of the structure generated for `typ`.
pub fn quote_fields(types: &Types, typ: &Type) -> (r: Vec<FieldDecl>)
    requires
        types.wf(),
        forall|j: int| 0 <= j < typ@.len() ==> (#[trigger] typ@[j]).1 < types@.formats.len(),
    ensures
        r@.map_values(|decl: FieldDecl| decl@) == field_decls(
            types@.formats,
            crate::compiler::registry::fields_view(typ@),
        ),
{
    let ghost fields = crate::compiler::registry::fields_view(typ@);
    let mut decls: Vec<FieldDecl> = Vec::new();
    let mut i: usize = 0;
    assert(fields.take(0) =~= Seq::empty());
    assert(decls@.map_values(|decl: FieldDecl| decl@) =~= Seq::<FieldDeclView>::empty());
    while i < typ.len()
        invariant
            i <= typ.len(),
            types.wf(),
            fields == crate::compiler::registry::fields_view(typ@),
            forall|j: int| 0 <= j < typ@.len() ==> (#[trigger] typ@[j]).1 < types@.formats.len(),
            decls@.map_values(|decl: FieldDecl| decl@) == field_decls(
                types@.formats,
                fields.take(i as int),
            ),
        decreases typ.len() - i,
    {
        assert(fields.take(i + 1).drop_last() =~= fields.take(i as int));
        assert(fields.take(i + 1).last() == fields[i as int]);
        assert(fields[i as int] == (typ@[i as int].0@, typ@[i as int].1));
        let field = &typ[i];
        if crate::compiler::text::strip_prefix(field.0.as_str(), "_nop_").is_none() {
            let decl = FieldDecl {
                name: to_snake_case(field.0.as_str()),
                typ: types.return_type(field.1),
            };
            assert(decls@.push(decl).map_values(|decl: FieldDecl| decl@) =~= decls@.map_values(
                |decl: FieldDecl| decl@,
            ).push(decl@));
            decls.push(decl);
        }
        i += 1;
    }
    assert(fields.take(i as int) =~= fields);
    decls
}

/// A copy of `typ`.
pub fn copy_fields(typ: &Type) -> (r: Type)
    ensures
        r@ == typ@,
{
    let mut copy: Type = Vec::new();
    let mut i: usize = 0;
    while i < typ.len()
        invariant
            i <= typ.len(),
            copy@ == typ@.take(i as int),
        decreases typ.len() - i,
    {
        let name = typ[i].0.clone();
        copy.push((name, typ[i].1));
        assert(copy@ =~= typ@.take(i + 1));
        i += 1;
    }
    assert(typ@.take(i as int) =~= typ@);
    copy
}

/// Whether an endpoint writes the signals of a direction, and whether it
/// reads them.
pub open spec fn capabilities(direction: SignalDirection, server: bool) -> (bool, bool) {
    match direction {
        SignalDirection::ClientToServer => (!server, server),
        SignalDirection::ServerToClient => (server, !server),
        SignalDirection::Mutual => (true, true),
    }
}

/// The operation that writes, or reads, the signal `signal` of the group
/// `group`.
pub open spec fn operation_of(
    fsm: Seq<StateView>,
    group: Seq<char>,
    class: SignalClass,
    signal: SignalView,
    writes: bool,
) -> OperationView {
    OperationView {
        writes,
        method: (if writes {
            "write_"@
        } else {
            "read_"@
        }) + crate::compiler::names::snake_case(signal.name),
        description: signal.description,
        signal: signal.name,
        signal_type: crate::compiler::names::camel_case(signal.name) + "Signal"@,
        class,
        id: crate::compiler::signal::identifier_of(signal.name, class),
        transitions: crate::compiler::fsm::group_transitions(fsm, fsm.len() as int, group),
        fields: signal.fields,
    }
}

/// The operations that an endpoint has for one signal: the writing where it
/// writes it, then the reading where it reads it.
pub open spec fn signal_operations(
    fsm: Seq<StateView>,
    group: Seq<char>,
    class: SignalClass,
    signal: SignalView,
    server: bool,
) -> Seq<OperationView> {
    let (write, read) = capabilities(signal.direction, server);
    (if write {
        seq![operation_of(fsm, group, class, signal, true)]
    } else {
        Seq::empty()
    }) + (if read {
        seq![operation_of(fsm, group, class, signal, false)]
    } else {
        Seq::empty()
    })
}

/// The operations that an endpoint has for the first `count` signals of a
/// group.
pub open spec fn group_operations(
    fsm: Seq<StateView>,
    name: Seq<char>,
    group: GroupView,
    count: int,
    server: bool,
) -> Seq<OperationView>
    decreases count,
{
    if count <= 0 {
        Seq::empty()
    } else {
        group_operations(fsm, name, group, count - 1, server) + signal_operations(
            fsm,
            name,
            group.class,
            group.signals[count - 1],
            server,
        )
    }
}

/// The operations that an endpoint has for the first `count` groups of a
/// protocol.
pub open spec fn endpoint_operations(spec: SpecView, count: int, server: bool) -> Seq<
    OperationView,
>
    decreases count,
{
    if count <= 0 {
        Seq::empty()
    } else {
        endpoint_operations(spec, count - 1, server) + group_operations(
            spec.fsm,
            spec.groups[count - 1].0,
            spec.groups[count - 1].1,
            spec.groups[count - 1].1.signals.len() as int,
            server,
        )
    }
}

/// The operations of the signals of a group move among the states of the
/// machine.
pub proof fn lemma_group_operations_within(
    fsm: Seq<StateView>,
    name: Seq<char>,
    group: GroupView,
    count: int,
    server: bool,
)
    requires
        0 <= count <= group.signals.len(),
        fsm.len() <= usize::MAX,
    ensures
        forall|k: int|
            0 <= k < group_operations(fsm, name, group, count, server).len()
                ==> crate::compiler::api::transitions_within(
                (#[trigger] group_operations(fsm, name, group, count, server)[k]).transitions,
                fsm.len() as int,
            ),
    decreases count,
{
    if count > 0 {
        lemma_group_operations_within(fsm, name, group, count - 1, server);
        crate::compiler::fsm::lemma_group_transitions_within(fsm, fsm.len() as int, name);
        let all = group_operations(fsm, name, group, count, server);
        let before = group_operations(fsm, name, group, count - 1, server);
        let last = signal_operations(fsm, name, group.class, group.signals[count - 1], server);
        assert forall|k: int| 0 <= k < all.len() implies crate::compiler::api::transitions_within(
            (#[trigger] all[k]).transitions,
            fsm.len() as int,
        ) by {
            if k < before.len() {
                assert(all[k] == before[k]);
            } else {
                assert(all[k] == last[k - before.len()]);
            }
        }
    }
}

/// The operations of an endpoint move among the states of the machine.
pub proof fn lemma_endpoint_operations_within(spec: SpecView, count: int, server: bool)
    requires
        0 <= count <= spec.groups.len(),
        spec.fsm.len() <= usize::MAX,
    ensures
        forall|k: int|
            0 <= k < endpoint_operations(spec, count, server).len()
                ==> crate::compiler::api::transitions_within(
                (#[trigger] endpoint_operations(spec, count, server)[k]).transitions,
                spec.fsm.len() as int,
            ),
    decreases count,
{
    if count > 0 {
        lemma_endpoint_operations_within(spec, count - 1, server);
        let group = spec.groups[count - 1];
        lemma_group_operations_within(
            spec.fsm,
            group.0,
            group.1,
            group.1.signals.len() as int,
            server,
        );
        let all = endpoint_operations(spec, count, server);
        let before = endpoint_operations(spec, count - 1, server);
        let last = group_operations(
            spec.fsm,
            group.0,
            group.1,
            group.1.signals.len() as int,
            server,
        );
        assert forall|k: int| 0 <= k < all.len() implies crate::compiler::api::transitions_within(
            (#[trigger] all[k]).transitions,
            spec.fsm.len() as int,
        ) by {
            if k < before.len() {
                assert(all[k] == before[k]);
            } else {
                assert(all[k] == last[k - before.len()]);
            }
        }
    }
}

/// The operation that writes, or reads, `signal`.
fn make_operation(spec: &Spec, group: &str, class: SignalClass, signal: &Signal, writes: bool) -> (r:
    Operation)
    ensures
        r@ == operation_of(spec@.fsm, group@, class, signal@, writes),
{
    let operation = Operation {
        writes,
        method: crate::compiler::names::method_name(
            writes,
            to_snake_case(signal.name.as_str()).as_str(),
        ),
        description: signal.description.clone(),
        signal: signal.name.clone(),
        signal_type: signal.signal_type(),
        class,
        id: signal.identifier(class),
        transitions: spec.fsm.transitions(group),
        fields: copy_fields(&signal.fields),
    };
    assert(operation@.method =~= operation_of(spec@.fsm, group@, class, signal@, writes).method);
    operation
}

/// The operations of one end of the connection: for each group and each of
/// its signals, in their order, the writing of the signal where this end
/// writes it and the reading where this end reads it. Each operation holds
/// the transitions that the signal's group makes.
pub fn generate_endpoint_impl(spec: &Spec, server: bool) -> (r: EndpointApi)
    ensures
        r@.name == (if server {
            "Server"@
        } else {
            "Client"@
        }),
        r@.operations == endpoint_operations(spec@, spec@.groups.len() as int, server),
        r@.within(spec@.fsm.len() as int),
{
    let states = spec.fsm.states.len();
    proof {
        assert(spec@.fsm.len() == states);
        lemma_endpoint_operations_within(spec@, spec@.groups.len() as int, server);
    }
    let mut operations: Vec<Operation> = Vec::new();
    let ghost view = spec@;
    let mut i: usize = 0;
    assert(operations@.map_values(|operation: Operation| operation@) =~= Seq::<
        OperationView,
    >::empty());
    while i < spec.groups.len()
        invariant
            i <= spec.groups.len(),
            view == spec@,
            view.groups.len() == spec.groups@.len(),
            operations@.map_values(|operation: Operation| operation@) == endpoint_operations(
                view,
                i as int,
                server,
            ),
        decreases spec.groups.len() - i,
    {
        let named = &spec.groups[i];
        let group = &named.group;
        assert(view.groups[i as int] == named@);
        let ghost before = operations@.map_values(|operation: Operation| operation@);
        let mut j: usize = 0;
        assert(before + group_operations(view.fsm, named.name@, group@, 0, server) =~= before);
        while j < group.signals.len()
            invariant
                j <= group.signals.len(),
                view == spec@,
                group@.signals.len() == group.signals@.len(),
                operations@.map_values(|operation: Operation| operation@) == before
                    + group_operations(view.fsm, named.name@, group@, j as int, server),
            decreases group.signals.len() - j,
        {
            let signal = &group.signals[j];
            assert(group@.signals[j as int] == signal@);
            let ghost so_far = operations@.map_values(|operation: Operation| operation@);
            let (write, read) = match signal.direction {
                SignalDirection::ClientToServer => (!server, server),
                SignalDirection::ServerToClient => (server, !server),
                SignalDirection::Mutual => (true, true),
            };
            let ghost mut added: Seq<OperationView> = Seq::empty();
            assert(so_far + added =~= so_far);
            if write {
                let operation = make_operation(
                    spec,
                    named.name.as_str(),
                    group.class,
                    signal,
                    true,
                );
                proof {
                    assert(operations@.push(operation).map_values(
                        |operation: Operation| operation@,
                    ) =~= so_far + added.push(operation@));
                    added = added.push(operation@);
                }
                operations.push(operation);
            }
            if read {
                let operation = make_operation(
                    spec,
                    named.name.as_str(),
                    group.class,
                    signal,
                    false,
                );
                proof {
                    assert(operations@.push(operation).map_values(
                        |operation: Operation| operation@,
                    ) =~= so_far + added.push(operation@));
                    added = added.push(operation@);
                }
                operations.push(operation);
            }
            assert(added =~= signal_operations(
                view.fsm,
                named.name@,
                group.class,
                signal@,
                server,
            ));
            assert(so_far + added =~= before + group_operations(
                view.fsm,
                named.name@,
                group@,
                j + 1,
                server,
            ));
            j += 1;
        }
        i += 1;
    }
    EndpointApi {
        name: String::from_str(
            if server {
                "Server"
            } else {
                "Client"
            },
        ),
        operations,
    }
}

/// What is generated for the signal `signal` of the class `class`.
pub open spec fn signal_decl(formats: Seq<FormatView>, class: SignalClass, signal: SignalView) -> SignalDeclView {
    SignalDeclView {
        id_name: "SIGNAL_"@ + crate::compiler::names::shouty_snake_case(signal.name),
        id: crate::compiler::signal::identifier_of(signal.name, class),
        struct_name: crate::compiler::names::camel_case(signal.name) + "Signal"@,
        fields: field_decls(formats, signal.fields),
    }
}

/// What is generated for the signals of the first `count` groups, group
/// after group.
pub open spec fn signal_decls(spec: SpecView, count: int) -> Seq<SignalDeclView>
    decreases count,
{
    if count <= 0 {
        Seq::empty()
    } else {
        signal_decls(spec, count - 1) + spec.groups[count - 1].1.signals.map_values(
            |signal: SignalView|
                signal_decl(spec.types.formats, spec.groups[count - 1].1.class, signal),
        )
    }
}

/// All that is generated for the protocol `spec`.
pub open spec fn generated(spec: SpecView) -> GeneratedView {
    GeneratedView {
        states: spec.fsm.map_values(
            |state: StateView| crate::compiler::names::camel_case(state.name),
        ),
        types: spec.types.entries.map_values(
            |entry: (Seq<char>, Seq<(Seq<char>, usize)>)|
                TypeDeclView {
                    name: crate::compiler::names::camel_case(entry.0),
                    fields: field_decls(spec.types.formats, entry.1),
                },
        ),
        signals: signal_decls(spec, spec.groups.len() as int),
        client: crate::compiler::api::EndpointView {
            name: "Client"@,
            operations: endpoint_operations(spec, spec.groups.len() as int, false),
        },
        server: crate::compiler::api::EndpointView {
            name: "Server"@,
            operations: endpoint_operations(spec, spec.groups.len() as int, true),
        },
    }
}

/// The variants of the connection's state.
fn state_names(spec: &Spec) -> (r: Vec<String>)
    ensures
        r@.map_values(|state: String| state@) == generated(spec@).states,
{
    let mut names: Vec<String> = Vec::new();
    let mut i: usize = 0;
    while i < spec.fsm.states.len()
        invariant
            i <= spec.fsm.states.len(),
            names@.len() == i,
            forall|k: int|
                0 <= k < i ==> (#[trigger] names@[k])@ == crate::compiler::names::camel_case(
                    spec.fsm.states@[k].name@,
                ),
        decreases spec.fsm.states.len() - i,
    {
        names.push(to_camel_case(spec.fsm.states[i].name.as_str()));
        i += 1;
    }
    assert(names@.map_values(|state: String| state@) =~= generated(spec@).states);
    names
}

/// The structures generated for the named types.
fn type_decls(spec: &Spec) -> (r: Vec<TypeDecl>)
    requires
        spec.wf(),
    ensures
        r@.map_values(|decl: TypeDecl| decl@) == generated(spec@).types,
{
    let list = crate::compiler::registry::registry_list(&spec.types.map);
    let ghost entries = spec@.types.entries;
    let mut decls: Vec<TypeDecl> = Vec::new();
    let mut i: usize = 0;
    while i < list.len()
        invariant
            i <= list.len(),
            spec.wf(),
            entries == spec@.types.entries,
            list@.map_values(
                |entry: (String, Vec<(String, usize)>)|
                    (entry.0@, crate::compiler::registry::fields_view(entry.1@)),
            ) == entries,
            decls@.len() == i,
            forall|k: int|
                0 <= k < i ==> (#[trigger] decls@[k])@ == (TypeDeclView {
                    name: crate::compiler::names::camel_case(entries[k].0),
                    fields: field_decls(spec@.types.formats, entries[k].1),
                }),
        decreases list.len() - i,
    {
        let entry = &list[i];
        proof {
            let mapped = list@.map_values(
                |entry: (String, Vec<(String, usize)>)|
                    (entry.0@, crate::compiler::registry::fields_view(entry.1@)),
            );
            assert(mapped[i as int] == (
                entry.0@,
                crate::compiler::registry::fields_view(entry.1@),
            ));
            assert forall|j: int| 0 <= j < entry.1@.len() implies (#[trigger] entry.1@[j]).1
                < spec.types@.formats.len() by {
                assert(entries[i as int].1[j].1 == entry.1@[j].1);
            }
        }
        let decl = TypeDecl {
            name: to_camel_case(entry.0.as_str()),
            fields: quote_fields(&spec.types, &entry.1),
        };
        decls.push(decl);
        i += 1;
    }
    assert(decls@.map_values(|decl: TypeDecl| decl@) =~= generated(spec@).types);
    decls
}

/// The constants and structures generated for the signals.
fn declare_signals(spec: &Spec) -> (r: Vec<SignalDecl>)
    requires
        spec.wf(),
    ensures
        r@.map_values(|decl: SignalDecl| decl@) == generated(spec@).signals,
{
    let mut decls: Vec<SignalDecl> = Vec::new();
    let ghost view = spec@;
    let mut i: usize = 0;
    assert(decls@.map_values(|decl: SignalDecl| decl@) =~= Seq::<SignalDeclView>::empty());
    while i < spec.groups.len()
        invariant
            i <= spec.groups.len(),
            spec.wf(),
            view == spec@,
            view.groups.len() == spec.groups@.len(),
            decls@.map_values(|decl: SignalDecl| decl@) == signal_decls(view, i as int),
        decreases spec.groups.len() - i,
    {
        let group = &spec.groups[i].group;
        assert(view.groups[i as int].1 == group@);
        let ghost before = decls@.map_values(|decl: SignalDecl| decl@);
        let ghost wanted = group@.signals.map_values(
            |signal: SignalView| signal_decl(view.types.formats, group.class, signal),
        );
        let mut j: usize = 0;
        assert(before + wanted.take(0) =~= before);
        while j < group.signals.len()
            invariant
                j <= group.signals.len(),
                spec.wf(),
                view == spec@,
                i < spec.groups@.len(),
                view.groups[i as int].1 == group@,
                group@.signals.len() == group.signals@.len(),
                wanted == group@.signals.map_values(
                    |signal: SignalView| signal_decl(view.types.formats, group.class, signal),
                ),
                decls@.map_values(|decl: SignalDecl| decl@) == before + wanted.take(j as int),
            decreases group.signals.len() - j,
        {
            let signal = &group.signals[j];
            assert(group@.signals[j as int] == signal@);
            proof {
                assert(view.groups[i as int].1.fits(view.types.formats.len() as int));
                assert(group@.signals[j as int].fits(view.types.formats.len() as int));
                assert forall|k: int| 0 <= k < signal.fields@.len() implies (
                #[trigger] signal.fields@[k]).1 < spec.types@.formats.len() by {
                    assert(signal@.fields[k].1 == signal.fields@[k].1);
                }
            }
            let decl = SignalDecl {
                id_name: signal.signal_id_name(),
                id: signal.identifier(group.class),
                struct_name: signal.signal_type(),
                fields: quote_fields(&spec.types, &signal.fields),
            };
            assert(decl@ == wanted[j as int]);
            proof {
                let so_far = decls@.map_values(|decl: SignalDecl| decl@);
                assert(decls@.push(decl).map_values(|decl: SignalDecl| decl@) =~= so_far.push(
                    decl@,
                ));
                assert(wanted.take(j + 1) =~= wanted.take(j as int).push(wanted[j as int]));
                assert((before + wanted.take(j as int)).push(decl@) =~= before + wanted.take(
                    j + 1,
                ));
            }
            decls.push(decl);
            j += 1;
        }
        assert(wanted.take(j as int) =~= wanted);
        i += 1;
    }
    decls
}

/// Compiles the protocol `spec`: the states of a connection, a structure
/// for each named type, a constant and a structure for each signal, and the
/// operations of the client and of the server. A protocol in which two
/// signals of one class have the same identifier is rejected.
pub fn generate(spec: &Spec) -> (r: Result<GeneratedApi, SchemaError>)
    requires
        spec.wf(),
    ensures
        match crate::compiler::ids::clash_failure(crate::compiler::ids::all_keys(spec@.groups)) {
            Some(failure) => r matches Err(e) && e.is_failure(failure),
            None => r matches Ok(api) && api@ == generated(spec@) && api@.sound(),
        },
{
    crate::compiler::ids::check_signal_ids(spec)?;
    let states = state_names(spec);
    let types = type_decls(spec);
    let signals = declare_signals(spec);
    let client = generate_endpoint_impl(spec, false);
    let server = generate_endpoint_impl(spec, true);
    Ok(GeneratedApi { states, types, signals, client, server })
}

} // verus!
