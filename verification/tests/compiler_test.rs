use cube_engine::compiler::api::{ReturnType, Transition};
use cube_engine::compiler::document::{find, find_text, same_text, Declaration, Entry};
use cube_engine::compiler::error::SchemaErrorKind;
use cube_engine::compiler::format::{
    create_field_format, create_string_field_format, FieldFormat, ScalarKind,
};
use cube_engine::compiler::fsm::FSM;
use cube_engine::compiler::ids::{check_signal_ids, signal_keys};
use cube_engine::compiler::names::{constant_name, method_name, structure_name};
use cube_engine::compiler::signal::{Signal, SignalClass, SignalDirection, SignalGroup};
use cube_engine::compiler::spec::Spec;
use cube_engine::compiler::text::{parse_size, split_at_colon, strip_prefix};
use cube_engine::compiler::types::{new_type, new_types, Types};
use cube_engine::compiler::{generate, generate_endpoint_impl, quote_fields, SIGNAL_ID_TYPE};

fn text(s: &str) -> Declaration {
    Declaration::Text(s.to_string())
}

fn map(entries: Vec<(&str, Declaration)>) -> Declaration {
    Declaration::Mapping(
        entries.into_iter().map(|(key, value)| Entry { key: key.to_string(), value }).collect(),
    )
}

fn sample() -> Declaration {
    map(vec![
        (
            "FSM",
            map(vec![
                ("start", map(vec![("_description", text("before login")), ("auth", text("play"))])),
                (
                    "play",
                    map(vec![
                        ("_description", text("in the game")),
                        ("world", text("play")),
                        ("auth", text("start")),
                    ]),
                ),
            ]),
        ),
        (
            "TYPES",
            map(vec![
                ("pos", map(vec![("x", text("int32")), ("y", text("int32"))])),
                (
                    "entity",
                    map(vec![
                        ("id", text("uint64")),
                        ("at", text("pos")),
                        ("_nop_1", text("ignored")),
                        ("_comment", text("not a field")),
                        ("tag", text("optional:byte:4")),
                    ]),
                ),
            ]),
        ),
        (
            "auth",
            map(vec![
                ("_class", text("ll")),
                (
                    "login_request",
                    map(vec![
                        ("_description", text("asks to log in")),
                        ("_direction", text("CS")),
                        ("name", text("string")),
                    ]),
                ),
                (
                    "login_accept",
                    map(vec![("_description", text("lets in")), ("_direction", text("SC"))]),
                ),
            ]),
        ),
        (
            "world",
            map(vec![
                ("_class", text("pk")),
                (
                    "chat",
                    map(vec![
                        ("_description", text("says something")),
                        ("_direction", text("MT")),
                        ("who", text("entity")),
                        ("words", map(vec![("_list", text("prefix:uint8")), ("word", text("string"))])),
                    ]),
                ),
            ]),
        ),
    ])
}

#[test]
fn texts_are_taken_apart() {
    assert!(same_text("abc", "abc"));
    assert!(!same_text("abc", "abd"));
    assert_eq!(strip_prefix("optional:int8", "optional:"), Some("int8"));
    assert_eq!(strip_prefix("optional", "optional:"), None);
    assert_eq!(strip_prefix("\u{e9}t\u{e9}", "\u{e9}"), Some("t\u{e9}"));
    assert_eq!(split_at_colon("prefix:uint8:x"), Some(("prefix", "uint8:x")));
    assert_eq!(split_at_colon(":"), Some(("", "")));
    assert_eq!(split_at_colon("tail"), None);
    assert_eq!(parse_size("0"), Some(0));
    assert_eq!(parse_size("+20"), Some(20));
    assert_eq!(parse_size("007"), Some(7));
    assert_eq!(parse_size(""), None);
    assert_eq!(parse_size("+"), None);
    assert_eq!(parse_size("-1"), None);
    assert_eq!(parse_size("1x"), None);
    assert_eq!(parse_size("18446744073709551615"), "18446744073709551615".parse::<usize>().ok());
    assert_eq!(parse_size("99999999999999999999999"), None);
}

#[test]
fn documents_are_searched_in_order() {
    let doc = map(vec![("a", text("1")), ("b", Declaration::Other), ("a", text("2"))]);
    let entries = doc.as_hash().unwrap();
    assert_eq!(find_text(entries, "a"), Some("1"));
    assert_eq!(find_text(entries, "b"), None);
    assert!(find(entries, "b").is_some());
    assert!(find(entries, "c").is_none());
    assert!(text("x").as_hash().is_none());
    assert_eq!(text("x").as_str(), Some("x"));
}

#[test]
fn scalars_have_their_keywords() {
    assert_eq!(ScalarKind::from_name("bool"), Some(ScalarKind::Bool));
    assert_eq!(ScalarKind::from_name("uvint64"), Some(ScalarKind::Uvint64));
    assert_eq!(ScalarKind::from_name("string"), Some(ScalarKind::Text));
    assert_eq!(ScalarKind::from_name("int"), None);
    assert_eq!(ScalarKind::Nibble.name(), "nibble");
    assert_eq!(ScalarKind::Nibble.typ(), "u8");
    assert_eq!(ScalarKind::Vint32.typ(), "i32");
    assert_eq!(ScalarKind::Text.typ(), "String");
    assert_eq!(ScalarKind::Float64.typ(), "f64");
}

#[test]
fn text_declarations_resolve_in_order() {
    let mut types = Types::new();
    let place = create_string_field_format(&mut types, "optional:optional:int8", true).unwrap();
    assert_eq!(place, 2);
    assert!(matches!(&types.formats[0], FieldFormat::Simple(f) if f.kind == ScalarKind::Int8));
    assert!(matches!(&types.formats[1], FieldFormat::Optional(f) if f.inner == 0));
    assert!(matches!(&types.formats[2], FieldFormat::Optional(f) if f.inner == 1));
    let place = create_string_field_format(&mut types, "byte:20", true).unwrap();
    assert!(matches!(&types.formats[place], FieldFormat::ByteArray(f) if f.length == 20));
    let place = create_string_field_format(&mut types, "string:json", true).unwrap();
    assert!(matches!(&types.formats[place], FieldFormat::Json(_)));
    let place = create_string_field_format(&mut types, "string", true).unwrap();
    assert!(matches!(&types.formats[place], FieldFormat::Simple(f) if f.kind == ScalarKind::Text));
    assert_eq!(types.formats.len(), 6);
    assert_eq!(
        create_string_field_format(&mut types, "byte:x", true),
        Err(SchemaErrorKind::BadLength)
    );
    assert_eq!(
        create_string_field_format(&mut types, "optional:nothing", true),
        Err(SchemaErrorKind::UnsupportedFormat)
    );
    assert_eq!(types.formats.len(), 6);
}

#[test]
fn reserved_names_mark_alignment_or_nothing() {
    let mut types = Types::new();
    let nop = create_field_format(&mut types, "_nop_x", &Declaration::Other, "type t").unwrap();
    assert_eq!(nop, Some(0));
    assert!(matches!(&types.formats[0], FieldFormat::Nop(_)));
    let none = create_field_format(&mut types, "_note", &text("int8"), "type t").unwrap();
    assert_eq!(none, None);
    assert_eq!(types.formats.len(), 1);
    let e = create_field_format(&mut types, "f", &Declaration::Other, "type t").unwrap_err();
    assert_eq!(e.kind, SchemaErrorKind::UnsupportedFormat);
    assert_eq!(e.subject, "f");
    assert_eq!(e.context, "type t");
}

#[test]
fn lists_resolve_their_elements() {
    let mut types = Types::new();
    let decl = map(vec![("_list", text("const:3")), ("a", text("int8")), ("b", text("bool"))]);
    let place = create_field_format(&mut types, "items", &decl, "type t").unwrap().unwrap();
    assert_eq!(place, 3);
    assert!(matches!(&types.formats[2], FieldFormat::Struct(s)
        if s.properties == vec![("a".to_string(), 0), ("b".to_string(), 1)]));
    assert!(matches!(&types.formats[3], FieldFormat::Array(a) if a.size == 3 && a.each == 2));
    let decl = map(vec![("_list", text("prefix:uint16")), ("a", text("int8"))]);
    let place = create_field_format(&mut types, "more", &decl, "type t").unwrap().unwrap();
    assert_eq!(place, 7);
    assert!(matches!(&types.formats[6], FieldFormat::Simple(f) if f.kind == ScalarKind::Uint16));
    assert!(matches!(&types.formats[7], FieldFormat::Prefix(p) if p.prefix == 6 && p.each == 5));
    let decl = map(vec![("_list", text("tail:"))]);
    let place = create_field_format(&mut types, "rest", &decl, "type t").unwrap().unwrap();
    assert!(matches!(&types.formats[place], FieldFormat::Tail(t) if t.each == place - 1));
    assert!(matches!(&types.formats[place - 1], FieldFormat::Struct(s) if s.properties.is_empty()));
}

#[test]
fn faulty_lists_are_rejected_and_add_nothing() {
    let mut types = Types::new();
    let cases = vec![
        (map(vec![("a", text("int8"))]), SchemaErrorKind::MissingList, "f"),
        (map(vec![("_list", Declaration::Other)]), SchemaErrorKind::MissingList, "f"),
        (map(vec![("_list", text("const"))]), SchemaErrorKind::MissingColon, "f"),
        (map(vec![("_list", text("const:many"))]), SchemaErrorKind::BadLength, "f"),
        (map(vec![("_list", text("prefix:pos")), ("a", text("int8"))]), SchemaErrorKind::UnsupportedFormat, "f"),
        (map(vec![("_list", text("loop:1")), ("a", text("int8"))]), SchemaErrorKind::UnknownListMethod, "f"),
        (map(vec![("_list", text("tail:")), ("a", text("what"))]), SchemaErrorKind::UnsupportedFormat, "a"),
    ];
    for (decl, kind, subject) in cases {
        let e = create_field_format(&mut types, "f", &decl, "type t").unwrap_err();
        assert_eq!(e.kind, kind);
        assert_eq!(e.subject, subject);
        assert_eq!(e.context, "type t");
        assert_eq!(types.formats.len(), 0);
    }
}

#[test]
fn a_named_type_shares_its_fields() {
    let doc = sample();
    let types = new_types(find(doc.as_hash().unwrap(), "TYPES").unwrap()).unwrap();
    let pos = types.get("pos").unwrap();
    assert_eq!(pos, vec![("x".to_string(), 0), ("y".to_string(), 1)]);
    let entity = types.get("entity").unwrap();
    assert_eq!(entity.len(), 4);
    assert_eq!(entity[0].0, "id");
    assert_eq!(entity[1].0, "at");
    assert_eq!(entity[2].0, "_nop_1");
    assert_eq!(entity[3].0, "tag");
    assert!(matches!(&types.formats[entity[1].1], FieldFormat::Struct(s) if s.properties == pos));
    assert!(matches!(&types.formats[entity[2].1], FieldFormat::Nop(_)));
    assert!(matches!(&types.formats[entity[3].1], FieldFormat::Optional(_)));
    assert!(types.get("nothing").is_none());
    assert!(types.get("int32").is_none());
}

#[test]
fn a_type_shadows_a_keyword() {
    let decl = map(vec![
        ("int8", map(vec![("v", text("int16"))])),
        ("user", map(vec![("n", text("int8"))])),
    ]);
    let types = new_types(&decl).unwrap();
    let user = types.get("user").unwrap();
    assert!(matches!(&types.formats[user[0].1], FieldFormat::Struct(s) if s.properties.len() == 1));
}

#[test]
fn forward_references_are_rejected() {
    let decl = map(vec![
        ("first", map(vec![("other", text("second"))])),
        ("second", map(vec![("back", text("first"))])),
    ]);
    let e = new_types(&decl).err().unwrap();
    assert_eq!(e.kind, SchemaErrorKind::UnsupportedFormat);
    assert_eq!(e.subject, "other");
    assert_eq!(e.context, "type first");
    let decl = map(vec![
        ("second", map(vec![("v", text("int8"))])),
        ("first", map(vec![("other", text("second"))])),
    ]);
    assert!(new_types(&decl).is_ok());
}

#[test]
fn faulty_registries_are_rejected() {
    assert_eq!(new_types(&text("x")).err().unwrap().kind, SchemaErrorKind::NotAMapping);
    let decl = map(vec![("a", map(vec![])), ("a", map(vec![]))]);
    let e = new_types(&decl).err().unwrap();
    assert_eq!(e.kind, SchemaErrorKind::DuplicateName);
    assert_eq!(e.subject, "a");
    assert_eq!(e.context, "TYPES");
    let decl = map(vec![("a", text("int8"))]);
    let e = new_types(&decl).err().unwrap();
    assert_eq!(e.kind, SchemaErrorKind::NotAMapping);
    assert_eq!(e.context, "type a");
    let mut types = Types::new();
    let fields = new_type(&mut types, "t", &map(vec![("v", text("bool"))])).unwrap();
    assert_eq!(fields, vec![("v".to_string(), 0)]);
}

#[test]
fn machine_is_read_with_its_edges() {
    let doc = sample();
    let fsm = FSM::new(find(doc.as_hash().unwrap(), "FSM").unwrap()).unwrap();
    assert_eq!(fsm.states.len(), 2);
    assert_eq!(fsm.states[0].name, "start");
    assert_eq!(fsm.states[0].description, "before login");
    assert_eq!(fsm.states[0].edges.len(), 1);
    assert_eq!(fsm.states[0].edges[0].group_name, "auth");
    assert_eq!(fsm.states[0].edges[0].to_name, "play");
    assert_eq!(fsm.states[1].edges.len(), 2);
    assert_eq!(fsm.find("play"), Some(1));
    assert_eq!(fsm.find("stop"), None);
    assert_eq!(
        fsm.transitions("auth"),
        vec![Transition { from: 0, to: 1 }, Transition { from: 1, to: 0 }]
    );
    assert_eq!(fsm.transitions("world"), vec![Transition { from: 1, to: 1 }]);
    assert!(fsm.transitions("none").is_empty());
}

#[test]
fn faulty_machines_are_rejected() {
    let cases = vec![
        (text("x"), SchemaErrorKind::NotAMapping, "FSM", "FSM"),
        (map(vec![("a", text("x"))]), SchemaErrorKind::NotAMapping, "a", "FSM"),
        (map(vec![("a", map(vec![("g", text("a"))]))]), SchemaErrorKind::MissingDescription, "a", "FSM"),
        (
            map(vec![("a", map(vec![("_description", text("d")), ("g", Declaration::Other)]))]),
            SchemaErrorKind::NotAText,
            "g",
            "a",
        ),
        (
            map(vec![("a", map(vec![("_description", text("d")), ("g", text("b"))]))]),
            SchemaErrorKind::UnknownState,
            "b",
            "a",
        ),
        (
            map(vec![
                ("a", map(vec![("_description", text("d"))])),
                ("a", map(vec![("_description", text("e"))])),
            ]),
            SchemaErrorKind::DuplicateName,
            "a",
            "FSM",
        ),
    ];
    for (decl, kind, subject, context) in cases {
        let e = FSM::new(&decl).err().unwrap();
        assert_eq!(e.kind, kind);
        assert_eq!(e.subject, subject);
        assert_eq!(e.context, context);
    }
}

#[test]
fn signals_have_identifiers_and_names() {
    let mut types = Types::new();
    let decl = map(vec![
        ("_description", text("d")),
        ("_direction", text("MT")),
        ("v", text("int8")),
    ]);
    let signal = Signal::new(&mut types, "login_request", &decl).unwrap();
    assert_eq!(signal.name, "login_request");
    assert_eq!(signal.description, "d");
    assert_eq!(signal.direction, SignalDirection::Mutual);
    assert_eq!(signal.fields, vec![("v".to_string(), 0)]);
    let sum: u32 = "login_request".bytes().map(|b| b as u32 * 31 + 7).sum();
    assert_eq!(signal.signal_id() as u32, sum % 0x1_0000);
    assert_eq!(signal.identifier(SignalClass::Packed), signal.signal_id());
    assert_eq!(signal.identifier(SignalClass::LowLevel) as u32, sum % 0x100);
    assert_eq!(signal.signal_id_name(), "SIGNAL_LOGIN_REQUEST");
    assert_eq!(signal.signal_type(), "LoginRequestSignal");
    let a = Signal::new(&mut types, "a", &decl).unwrap();
    assert_eq!(a.signal_id(), 97 * 31 + 7);
    let long = Signal::new(&mut types, &"z".repeat(100), &decl).unwrap();
    assert_eq!(long.signal_id() as u32, (100 * (122 * 31 + 7)) % 0x1_0000);
}

#[test]
fn faulty_signals_and_groups_are_rejected() {
    let mut types = Types::new();
    let cases = vec![
        (text("x"), SchemaErrorKind::NotAMapping),
        (map(vec![("_direction", text("CS"))]), SchemaErrorKind::MissingDescription),
        (map(vec![("_description", text("d"))]), SchemaErrorKind::MissingDirection),
        (map(vec![("_description", text("d")), ("_direction", text("XX"))]), SchemaErrorKind::UnknownDirection),
        (
            map(vec![("_description", text("d")), ("_direction", text("CS")), ("f", text("?"))]),
            SchemaErrorKind::UnsupportedFormat,
        ),
    ];
    for (decl, kind) in cases {
        let e = Signal::new(&mut types, "s", &decl).err().unwrap();
        assert_eq!(e.kind, kind);
        assert_eq!(types.formats.len(), 0);
    }
    let cases = vec![
        (text("x"), SchemaErrorKind::NotAMapping),
        (map(vec![]), SchemaErrorKind::MissingClass),
        (map(vec![("_class", text("zz"))]), SchemaErrorKind::UnexpectedClass),
        (map(vec![("_class", text("ll")), ("s", text("x"))]), SchemaErrorKind::NotAMapping),
    ];
    for (decl, kind) in cases {
        let e = SignalGroup::new(&mut types, "g", &decl).err().unwrap();
        assert_eq!(e.kind, kind);
    }
    let group = SignalGroup::new(&mut types, "g", &map(vec![("_class", text("pk"))])).unwrap();
    assert_eq!(group.class, SignalClass::Packed);
    assert!(group.signals.is_empty());
}

#[test]
fn protocol_is_built_from_its_document() {
    let spec = Spec::new(&sample()).unwrap_or_else(|e| panic!("{:?}", e));
    assert_eq!(spec.fsm.states.len(), 2);
    assert_eq!(spec.groups.len(), 2);
    assert_eq!(spec.groups[0].name, "auth");
    assert_eq!(spec.groups[0].group.class, SignalClass::LowLevel);
    assert_eq!(spec.groups[0].group.signals.len(), 2);
    assert_eq!(spec.groups[1].name, "world");
    let chat = &spec.groups[1].group.signals[0];
    assert_eq!(chat.fields.len(), 2);
    assert!(matches!(&spec.types.formats[chat.fields[0].1], FieldFormat::Struct(s)
        if *s.properties == spec.types.get("entity").unwrap()));
    assert!(matches!(&spec.types.formats[chat.fields[1].1], FieldFormat::Prefix(_)));
    assert_eq!(Spec::new(&text("x")).err().unwrap().kind, SchemaErrorKind::NotAMapping);
    let e = Spec::new(&map(vec![("TYPES", map(vec![]))])).err().unwrap();
    assert_eq!(e.kind, SchemaErrorKind::NotAMapping);
    assert_eq!(e.subject, "FSM");
    let e = Spec::new(&map(vec![
        ("FSM", map(vec![])),
        ("TYPES", map(vec![])),
        ("g", map(vec![("_class", text("ll"))])),
        ("g", map(vec![("_class", text("ll"))])),
    ]))
    .err()
    .unwrap();
    assert_eq!(e.kind, SchemaErrorKind::DuplicateName);
    assert_eq!(e.subject, "g");
}

#[test]
fn fields_are_quoted_with_their_types() {
    let spec = Spec::new(&sample()).unwrap_or_else(|e| panic!("{:?}", e));
    let entity = spec.types.get("entity").unwrap();
    let fields = quote_fields(&spec.types, &entity);
    assert_eq!(fields.len(), 3);
    assert_eq!(fields[0].name, "id");
    assert_eq!(fields[0].typ, ReturnType::Scalar(ScalarKind::Uint64));
    assert_eq!(fields[1].name, "at");
    assert_eq!(fields[1].typ, ReturnType::Struct(entity[1].1));
    assert_eq!(fields[2].name, "tag");
    assert_eq!(fields[2].typ, ReturnType::Optional(Box::new(ReturnType::Bytes(4))));
    let chat = &spec.groups[1].group.signals[0];
    assert!(matches!(spec.types.return_type(chat.fields[1].1), ReturnType::List(inner)
        if matches!(*inner, ReturnType::Struct(_))));
}

#[test]
fn endpoints_get_the_operations_of_their_role() {
    let spec = Spec::new(&sample()).unwrap_or_else(|e| panic!("{:?}", e));
    let client = generate_endpoint_impl(&spec, false);
    let server = generate_endpoint_impl(&spec, true);
    assert_eq!(client.name, "Client");
    assert_eq!(server.name, "Server");
    let methods: Vec<&str> = client.operations.iter().map(|o| o.method.as_str()).collect();
    assert_eq!(methods, vec!["write_login_request", "read_login_accept", "write_chat", "read_chat"]);
    let methods: Vec<&str> = server.operations.iter().map(|o| o.method.as_str()).collect();
    assert_eq!(methods, vec!["read_login_request", "write_login_accept", "write_chat", "read_chat"]);
    let login = &client.operations[0];
    assert!(login.writes);
    assert_eq!(login.signal, "login_request");
    assert_eq!(login.signal_type, "LoginRequestSignal");
    assert_eq!(login.description, "asks to log in");
    assert_eq!(login.class, SignalClass::LowLevel);
    assert_eq!(login.id, spec.groups[0].group.signals[0].identifier(SignalClass::LowLevel));
    assert_eq!(login.transitions, vec![Transition { from: 0, to: 1 }, Transition { from: 1, to: 0 }]);
    assert_eq!(login.fields, spec.groups[0].group.signals[0].fields);
    assert_eq!(client.operations[3].transitions, vec![Transition { from: 1, to: 1 }]);
    assert!(!client.operations[3].writes);
}

#[test]
fn protocol_is_compiled() {
    let spec = Spec::new(&sample()).unwrap_or_else(|e| panic!("{:?}", e));
    let api = generate(&spec).unwrap_or_else(|e| panic!("{:?}", e));
    assert_eq!(SIGNAL_ID_TYPE, "u16");
    assert_eq!(api.states, vec!["Start".to_string(), "Play".to_string()]);
    assert_eq!(api.types.len(), 2);
    assert_eq!(api.types[0].name, "Pos");
    assert_eq!(api.types[0].fields.len(), 2);
    assert_eq!(api.types[1].name, "Entity");
    assert_eq!(api.types[1].fields.len(), 3);
    assert_eq!(api.signals.len(), 3);
    assert_eq!(api.signals[0].id_name, "SIGNAL_LOGIN_REQUEST");
    assert_eq!(api.signals[0].struct_name, "LoginRequestSignal");
    assert_eq!(api.signals[0].fields.len(), 1);
    assert_eq!(api.signals[2].id, spec.groups[1].group.signals[0].signal_id());
    assert_eq!(api.client.operations.len(), 4);
    assert_eq!(api.server.operations.len(), 4);
}

#[test]
fn equal_identifiers_in_one_class_are_rejected() {
    let signal = |name: &'static str| {
        (name, map(vec![("_description", text("d")), ("_direction", text("CS"))]))
    };
    let doc = |groups: Vec<(&'static str, Declaration)>| {
        let mut entries = vec![("FSM", map(vec![])), ("TYPES", map(vec![]))];
        entries.extend(groups);
        map(entries)
    };
    let clash = doc(vec![
        ("one", map(vec![("_class", text("pk")), signal("ab"), signal("cd")])),
        ("two", map(vec![("_class", text("pk")), signal("ba")])),
    ]);
    let e = Spec::new(&clash).err().unwrap();
    assert_eq!(e.kind, SchemaErrorKind::DuplicateSignalId);
    assert_eq!(e.subject, "ba");
    assert_eq!(e.context, "ab");
    let apart = doc(vec![
        ("one", map(vec![("_class", text("pk")), signal("ab")])),
        ("two", map(vec![("_class", text("ll")), signal("ba")])),
    ]);
    let mut spec = Spec::new(&apart).unwrap_or_else(|e| panic!("{:?}", e));
    assert!(check_signal_ids(&spec).is_ok());
    assert!(generate(&spec).is_ok());
    spec.groups[1].group.class = SignalClass::Packed;
    let e = check_signal_ids(&spec).unwrap_err();
    assert_eq!(e.kind, SchemaErrorKind::DuplicateSignalId);
    assert_eq!(e.subject, "ba");
    assert_eq!(e.context, "ab");
    assert_eq!(generate(&spec).err().unwrap().kind, SchemaErrorKind::DuplicateSignalId);
    let narrow = doc(vec![("one", map(vec![("_class", text("ll")), signal("a"), signal("aI")]))]);
    let wide = doc(vec![("one", map(vec![("_class", text("pk")), signal("a"), signal("aI")]))]);
    let a: u32 = 97 * 31 + 7;
    let ai: u32 = a + 73 * 31 + 7;
    assert_eq!(a % 256 == ai % 256, Spec::new(&narrow).is_err());
    assert!(Spec::new(&wide).is_ok());
}

#[test]
fn generated_names_are_put_together() {
    assert_eq!(constant_name("LOGIN"), "SIGNAL_LOGIN");
    assert_eq!(structure_name("Login"), "LoginSignal");
    assert_eq!(method_name(true, "login"), "write_login");
    assert_eq!(method_name(false, "login"), "read_login");
}

#[test]
fn every_signal_has_its_key() {
    let spec = Spec::new(&sample()).unwrap_or_else(|e| panic!("{:?}", e));
    let keys = signal_keys(&spec);
    assert_eq!(keys.len(), 3);
    assert_eq!(keys[0].name, "login_request");
    assert_eq!(keys[0].class, SignalClass::LowLevel);
    assert_eq!(keys[2].name, "chat");
    assert_eq!(keys[2].class, SignalClass::Packed);
    assert_eq!(keys[2].id, spec.groups[1].group.signals[0].signal_id());
}
