use cube_engine::compiler::document::{Declaration, Entry};
use cube_engine::compiler::format::{create_field_format, ScalarKind};
use cube_engine::compiler::generate;
use cube_engine::compiler::spec::Spec;
use cube_engine::compiler::types::Types;
use cube_engine::io::reader::CubeReader;
use cube_engine::io::writer::CubeWriter;
use cube_engine::protocol::decode::{count_of, decode_value, read_scalar, read_text};
use cube_engine::protocol::encode::{count_scalar, encode_value, is_scalar_of, write_scalar, write_text};
use cube_engine::protocol::endpoint::{
    advance, gate, read_operation, write_operation, ConnectionState, SignalError,
};
use cube_engine::protocol::value::{FieldValue, ScalarValue};
use cube_engine::protocol::{Client, Server};
use cube_engine::util::IoErrorKind;

fn text(s: &str) -> Declaration {
    Declaration::Text(s.to_string())
}

fn map(entries: Vec<(&str, Declaration)>) -> Declaration {
    Declaration::Mapping(
        entries.into_iter().map(|(key, value)| Entry { key: key.to_string(), value }).collect(),
    )
}

fn two_states() -> Spec {
    let doc = map(vec![
        (
            "FSM",
            map(vec![
                ("A", map(vec![("_description", text("first")), ("g1", text("B"))])),
                ("B", map(vec![("_description", text("second"))])),
            ]),
        ),
        ("TYPES", map(vec![])),
        (
            "g1",
            map(vec![
                ("_class", text("ll")),
                (
                    "hello",
                    map(vec![
                        ("_description", text("greets")),
                        ("_direction", text("MT")),
                        ("count", text("uint16")),
                        ("loud", text("bool")),
                        ("_nop_end", text("")),
                        ("name", text("optional:string")),
                    ]),
                ),
            ]),
        ),
    ]);
    Spec::new(&doc).unwrap_or_else(|e| panic!("{:?}", e))
}

fn denied<T: std::fmt::Debug>(r: Result<T, SignalError>) -> String {
    match r {
        Err(SignalError::State(e)) => e.description,
        other => panic!("{:?}", other),
    }
}

fn codec_fault<T: std::fmt::Debug>(r: Result<T, SignalError>) -> IoErrorKind {
    match r {
        Err(SignalError::Codec(e)) => e.kind,
        other => panic!("{:?}", other),
    }
}

fn hello(name: Option<&str>) -> Vec<FieldValue> {
    vec![
        FieldValue::Scalar(ScalarValue::Uint16(0x0102)),
        FieldValue::Scalar(ScalarValue::Bool(true)),
        FieldValue::Unit,
        FieldValue::Optional(name.map(|n| Box::new(FieldValue::Text(n.to_string())))),
    ]
}

fn resolve(types: &mut Types, decl: &Declaration) -> usize {
    create_field_format(types, "f", decl, "test").unwrap_or_else(|e| panic!("{:?}", e)).unwrap()
}

fn round_trip(types: &Types, place: usize, value: &FieldValue) -> Vec<u8> {
    let mut cube = CubeWriter::new(Vec::new());
    encode_value(types, place, value, &mut cube).unwrap_or_else(|e| panic!("{:?}", e));
    cube.write_nop().unwrap();
    let mut data = cube.target.clone();
    data.push(0xee);
    let mut reader = CubeReader::new(data.as_slice());
    let read = decode_value(types, place, &mut reader).unwrap_or_else(|e| panic!("{:?}", e));
    assert_eq!(format!("{:?}", read), format!("{:?}", value));
    reader.read_nop().unwrap();
    assert_eq!(reader.read_uint8().unwrap(), 0xee);
    cube.target
}

#[test]
fn a_signal_passes_only_where_the_state_allows_it() {
    let spec = two_states();
    let api = generate(&spec).unwrap_or_else(|e| panic!("{:?}", e));
    let write = &api.client.operations[0];
    assert_eq!(write.method, "write_hello");
    let mut state = ConnectionState { place: 0 };
    let mut cube = CubeWriter::new(Vec::new());
    write_operation(&api, &spec.types, write, &mut state, &hello(Some("x")), &mut cube).unwrap();
    assert_eq!(state, ConnectionState { place: 1 });
    assert_eq!(cube.target[0] as u16, write.id);
    assert_eq!(&cube.target[1..], &[0x01, 0x02, 0x80, 0x80, 0x00, 0x01, 0x78]);
    let before = cube.target.clone();
    let e = denied(write_operation(&api, &spec.types, write, &mut state, &hello(None), &mut cube));
    assert_eq!(e, "Signal HelloSignal not allowed at state B");
    assert_eq!(state, ConnectionState { place: 1 });
    assert_eq!(cube.target, before);
}

#[test]
fn reading_is_gated_like_writing() {
    let spec = two_states();
    let api = generate(&spec).unwrap_or_else(|e| panic!("{:?}", e));
    let read = &api.server.operations[1];
    assert_eq!(read.method, "read_hello");
    let data = [0x01u8, 0x02, 0x80, 0x00, 0x55];
    let mut reader = CubeReader::new(&data);
    let mut state = ConnectionState { place: 1 };
    let e = denied(read_operation(&api, &spec.types, read, &mut state, &mut reader));
    assert_eq!(e, "Signal HelloSignal not allowed at state B");
    assert_eq!(state.place, 1);
    let mut state = ConnectionState { place: 0 };
    let values = read_operation(&api, &spec.types, read, &mut state, &mut reader).unwrap();
    assert_eq!(state.place, 1);
    assert_eq!(format!("{:?}", values), format!("{:?}", hello(None)));
    assert_eq!(reader.read_uint8().unwrap(), 0x55);
    let mut state = ConnectionState { place: 0 };
    assert_eq!(
        codec_fault(read_operation(&api, &spec.types, read, &mut state, &mut reader)),
        IoErrorKind::UnexpectedEof
    );
    assert_eq!(state.place, 1);
}

#[test]
fn a_signal_is_not_written_in_the_middle_of_a_byte() {
    let spec = two_states();
    let api = generate(&spec).unwrap_or_else(|e| panic!("{:?}", e));
    let write = &api.client.operations[0];
    let mut state = ConnectionState { place: 0 };
    let mut cube = CubeWriter::new(Vec::new());
    cube.write_bit(true).unwrap();
    let r = write_operation(&api, &spec.types, write, &mut state, &hello(None), &mut cube);
    assert_eq!(codec_fault(r), IoErrorKind::Misaligned);
    assert_eq!(state, ConnectionState { place: 0 });
    assert!(cube.target.is_empty());
    assert_eq!(cube.current_bit, 1);
    let mut state = ConnectionState { place: 1 };
    let r = write_operation(&api, &spec.types, write, &mut state, &hello(None), &mut cube);
    assert_eq!(denied(r), "Signal HelloSignal not allowed at state B");
    cube.write_nop().unwrap();
    let mut state = ConnectionState { place: 0 };
    write_operation(&api, &spec.types, write, &mut state, &hello(None), &mut cube).unwrap();
    assert_eq!(state, ConnectionState { place: 1 });
    assert_eq!(&cube.target[2..], &[0x01, 0x02, 0x80, 0x00]);
}

#[test]
fn a_value_of_the_wrong_format_is_no_misalignment() {
    let spec = two_states();
    let api = generate(&spec).unwrap_or_else(|e| panic!("{:?}", e));
    let write = &api.client.operations[0];
    let mut state = ConnectionState { place: 0 };
    let mut cube = CubeWriter::new(Vec::new());
    let mut payload = hello(None);
    payload[1] = FieldValue::Scalar(ScalarValue::Uint8(1));
    let r = write_operation(&api, &spec.types, write, &mut state, &payload, &mut cube);
    assert_eq!(codec_fault(r), IoErrorKind::Other);
    assert_eq!(state, ConnectionState { place: 1 });
    assert!(cube.target.is_empty());
}

#[test]
fn a_format_that_needs_a_boundary_faults_behind_a_bit() {
    let mut types = Types::new();
    let decl =
        map(vec![("_list", text("const:1")), ("flag", text("bool")), ("count", text("uint8"))]);
    let place = resolve(&mut types, &decl);
    let value = FieldValue::List(vec![FieldValue::Struct(vec![
        FieldValue::Scalar(ScalarValue::Bool(true)),
        FieldValue::Scalar(ScalarValue::Uint8(3)),
    ])]);
    let mut cube = CubeWriter::new(Vec::new());
    let e = encode_value(&types, place, &value, &mut cube).unwrap_err();
    assert_eq!(e.kind, IoErrorKind::Misaligned);
    assert!(cube.target.is_empty());
    assert_eq!(cube.current_bit, 0);
    let data = [0x80u8, 0x03];
    let mut reader = CubeReader::new(&data);
    let e = decode_value(&types, place, &mut reader).unwrap_err();
    assert_eq!(e.kind, IoErrorKind::Misaligned);
    assert_eq!(reader.read_uint8().unwrap(), 0x80);
}

#[test]
fn first_matching_transition_wins() {
    let spec = two_states();
    let api = generate(&spec).unwrap_or_else(|e| panic!("{:?}", e));
    let operation = &api.client.operations[0];
    assert_eq!(advance(operation, ConnectionState { place: 0 }), Some(ConnectionState { place: 1 }));
    assert_eq!(advance(operation, ConnectionState { place: 1 }), None);
    let mut state = ConnectionState { place: 0 };
    gate(&api, operation, &mut state).unwrap();
    assert_eq!(state.place, 1);
    assert!(gate(&api, operation, &mut state).is_err());
}

#[test]
fn both_ends_exchange_a_signal() {
    let spec = two_states();
    let api = generate(&spec).unwrap_or_else(|e| panic!("{:?}", e));
    let mut client = Client::new(
        ConnectionState { place: 0 },
        CubeWriter::new(Vec::new()),
        CubeReader::new(&[]),
    );
    client.write_signal(&api, &spec.types, &api.client.operations[0], &hello(Some("hi"))).unwrap();
    assert_eq!(client.state.place, 1);
    let sent = client.write.target.clone();
    let mut server = Server::new(
        ConnectionState { place: 0 },
        CubeWriter::new(Vec::new()),
        CubeReader::new(&sent[1..]),
    );
    let values = server.read_signal(&api, &spec.types, &api.server.operations[1]).unwrap();
    assert_eq!(server.state.place, 1);
    assert_eq!(format!("{:?}", values), format!("{:?}", hello(Some("hi"))));
    assert_eq!(
        denied(server.read_signal(&api, &spec.types, &api.server.operations[1])),
        "Signal HelloSignal not allowed at state B"
    );
}

#[test]
fn scalars_are_written_in_their_kind() {
    assert!(is_scalar_of(ScalarKind::Vint32, ScalarValue::Int32(-1)));
    assert!(is_scalar_of(ScalarKind::Nibble, ScalarValue::Nibble(15)));
    assert!(!is_scalar_of(ScalarKind::Nibble, ScalarValue::Nibble(16)));
    assert!(!is_scalar_of(ScalarKind::Int8, ScalarValue::Uint8(1)));
    assert!(!is_scalar_of(ScalarKind::Text, ScalarValue::Bool(true)));
    let mut cube = CubeWriter::new(Vec::new());
    write_scalar(ScalarKind::Int16, ScalarValue::Int16(-2), &mut cube).unwrap();
    write_scalar(ScalarKind::Uvint32, ScalarValue::Uint32(7), &mut cube).unwrap();
    write_scalar(ScalarKind::Float32, ScalarValue::Float32(0.3f32.to_bits()), &mut cube).unwrap();
    write_text("ab", &mut cube).unwrap();
    write_scalar(ScalarKind::Nibble, ScalarValue::Nibble(0xc), &mut cube).unwrap();
    assert_eq!(
        write_scalar(ScalarKind::Uint8, ScalarValue::Uint8(1), &mut cube).unwrap_err().kind,
        IoErrorKind::Misaligned
    );
    assert_eq!(write_text("ab", &mut cube).unwrap_err().kind, IoErrorKind::Misaligned);
    assert_eq!(
        write_scalar(ScalarKind::Uint8, ScalarValue::Int8(1), &mut cube).unwrap_err().kind,
        IoErrorKind::Other
    );
    write_scalar(ScalarKind::Bool, ScalarValue::Bool(true), &mut cube).unwrap();
    assert_eq!(
        write_scalar(ScalarKind::Nibble, ScalarValue::Nibble(1), &mut cube).unwrap_err().kind,
        IoErrorKind::Misaligned
    );
    cube.write_nop().unwrap();
    assert_eq!(
        cube.target.as_slice(),
        &[0xff, 0xfe, 0, 0, 0, 7, 0x3e, 0x99, 0x99, 0x9a, 0, 2, 0x61, 0x62, 0xc8]
    );
    let mut reader = CubeReader::new(cube.target.as_slice());
    assert_eq!(read_scalar(ScalarKind::Int16, &mut reader).unwrap(), ScalarValue::Int16(-2));
    assert_eq!(read_scalar(ScalarKind::Uvint32, &mut reader).unwrap(), ScalarValue::Uint32(7));
    assert_eq!(
        read_scalar(ScalarKind::Float32, &mut reader).unwrap(),
        ScalarValue::Float32(0.3f32.to_bits())
    );
    assert_eq!(read_text(&mut reader).unwrap(), "ab");
    assert_eq!(read_scalar(ScalarKind::Nibble, &mut reader).unwrap(), ScalarValue::Nibble(0xc));
    assert_eq!(read_scalar(ScalarKind::Uint8, &mut reader).unwrap_err().kind, IoErrorKind::Misaligned);
    assert_eq!(read_text(&mut reader).unwrap_err().kind, IoErrorKind::Misaligned);
    assert_eq!(read_scalar(ScalarKind::Bool, &mut reader).unwrap(), ScalarValue::Bool(true));
    assert_eq!(read_scalar(ScalarKind::Nibble, &mut reader).unwrap_err().kind, IoErrorKind::Misaligned);
    assert_eq!(read_scalar(ScalarKind::Text, &mut reader).unwrap_err().kind, IoErrorKind::InvalidData);
}

#[test]
fn counts_fit_their_scalar() {
    assert_eq!(count_scalar(ScalarKind::Uint8, 255), Some(ScalarValue::Uint8(255)));
    assert_eq!(count_scalar(ScalarKind::Uint8, 256), None);
    assert_eq!(count_scalar(ScalarKind::Int8, 127), Some(ScalarValue::Int8(127)));
    assert_eq!(count_scalar(ScalarKind::Int8, 128), None);
    assert_eq!(count_scalar(ScalarKind::Nibble, 16), None);
    assert_eq!(count_scalar(ScalarKind::Vint32, 5), Some(ScalarValue::Int32(5)));
    assert_eq!(count_scalar(ScalarKind::Bool, 1), None);
    assert_eq!(count_of(ScalarValue::Int16(-1)), None);
    assert_eq!(count_of(ScalarValue::Int16(9)), Some(9));
    assert_eq!(count_of(ScalarValue::Uint64(u64::MAX)), Some(u64::MAX));
    assert_eq!(count_of(ScalarValue::Float32(1)), None);
}

#[test]
fn every_format_survives() {
    let mut types = Types::new();
    let kinds = [
        ("bool", FieldValue::Scalar(ScalarValue::Bool(true)), vec![0x80]),
        ("nibble", FieldValue::Scalar(ScalarValue::Nibble(9)), vec![0x90]),
        ("int8", FieldValue::Scalar(ScalarValue::Int8(i8::MIN)), vec![0x80]),
        ("int16", FieldValue::Scalar(ScalarValue::Int16(i16::MAX)), vec![0x7f, 0xff]),
        ("int32", FieldValue::Scalar(ScalarValue::Int32(-1)), vec![0xff; 4]),
        ("int64", FieldValue::Scalar(ScalarValue::Int64(i64::MIN)), vec![0x80, 0, 0, 0, 0, 0, 0, 0]),
        ("uint8", FieldValue::Scalar(ScalarValue::Uint8(u8::MAX)), vec![0xff]),
        ("uint16", FieldValue::Scalar(ScalarValue::Uint16(1)), vec![0, 1]),
        ("uint32", FieldValue::Scalar(ScalarValue::Uint32(u32::MAX)), vec![0xff; 4]),
        ("uint64", FieldValue::Scalar(ScalarValue::Uint64(u64::MAX)), vec![0xff; 8]),
        ("vint32", FieldValue::Scalar(ScalarValue::Int32(1)), vec![0, 0, 0, 1]),
        ("vint64", FieldValue::Scalar(ScalarValue::Int64(1)), vec![0, 0, 0, 0, 0, 0, 0, 1]),
        ("uvint32", FieldValue::Scalar(ScalarValue::Uint32(2)), vec![0, 0, 0, 2]),
        ("uvint64", FieldValue::Scalar(ScalarValue::Uint64(2)), vec![0, 0, 0, 0, 0, 0, 0, 2]),
        ("string", FieldValue::Text("ok".to_string()), vec![0, 2, 0x6f, 0x6b]),
        ("float32", FieldValue::Scalar(ScalarValue::Float32(f32::INFINITY.to_bits())), vec![0x7f, 0x80, 0, 0]),
        (
            "float64",
            FieldValue::Scalar(ScalarValue::Float64(f64::NEG_INFINITY.to_bits())),
            vec![0xff, 0xf0, 0, 0, 0, 0, 0, 0],
        ),
        ("byte:3", FieldValue::Bytes(vec![1, 2, 3]), vec![1, 2, 3]),
        ("string:json", FieldValue::Json("{}".to_string()), vec![0, 2, 0x7b, 0x7d]),
        ("optional:uint8", FieldValue::Optional(None), vec![0x00]),
        (
            "optional:uint8",
            FieldValue::Optional(Some(Box::new(FieldValue::Scalar(ScalarValue::Uint8(5))))),
            vec![0x80, 5],
        ),
        (
            "optional:optional:byte:1",
            FieldValue::Optional(Some(Box::new(FieldValue::Optional(Some(Box::new(
                FieldValue::Bytes(vec![7]),
            )))))),
            vec![0x80, 0x80, 7],
        ),
    ];
    for (declaration, value, bytes) in kinds {
        let place = resolve(&mut types, &text(declaration));
        assert_eq!(round_trip(&types, place, &value), bytes);
    }
}

#[test]
fn lists_and_structures_survive() {
    let mut types = Types::new();
    let pair = |a: u8, b: bool| {
        FieldValue::Struct(vec![
            FieldValue::Scalar(ScalarValue::Uint8(a)),
            FieldValue::Scalar(ScalarValue::Bool(b)),
            FieldValue::Unit,
        ])
    };
    let each = vec![("a", text("uint8")), ("b", text("bool")), ("_nop_", text(""))];
    let mut fixed = vec![("_list", text("const:2"))];
    fixed.extend(each.iter().map(|(k, v)| (*k, text(v.as_str().unwrap()))));
    let place = resolve(&mut types, &map(fixed));
    let value = FieldValue::List(vec![pair(1, true), pair(2, false)]);
    assert_eq!(round_trip(&types, place, &value), vec![1, 0x80, 2, 0x00]);
    let short = FieldValue::List(vec![pair(1, true)]);
    let mut cube = CubeWriter::new(Vec::new());
    assert!(encode_value(&types, place, &short, &mut cube).is_err());

    let mut counted = vec![("_list", text("prefix:uint16"))];
    counted.extend(each.iter().map(|(k, v)| (*k, text(v.as_str().unwrap()))));
    let place = resolve(&mut types, &map(counted));
    let value = FieldValue::List(vec![pair(9, false), pair(8, true), pair(7, true)]);
    assert_eq!(round_trip(&types, place, &value), vec![0, 3, 9, 0x00, 8, 0x80, 7, 0x80]);
    assert_eq!(round_trip(&types, place, &FieldValue::List(Vec::new())), vec![0, 0]);
    let data = [0u8, 2, 9, 0x00];
    let mut reader = CubeReader::new(&data);
    assert_eq!(decode_value(&types, place, &mut reader).unwrap_err().kind, IoErrorKind::UnexpectedEof);

    let mut rest = vec![("_list", text("tail:"))];
    rest.extend(each.iter().map(|(k, v)| (*k, text(v.as_str().unwrap()))));
    let place = resolve(&mut types, &map(rest));
    let value = FieldValue::List(vec![pair(4, true), pair(5, false)]);
    let mut cube = CubeWriter::new(Vec::new());
    encode_value(&types, place, &value, &mut cube).unwrap();
    assert_eq!(cube.target.as_slice(), &[4, 0x80, 5, 0x00]);
    let mut reader = CubeReader::new(cube.target.as_slice());
    let read = decode_value(&types, place, &mut reader).unwrap();
    assert_eq!(format!("{:?}", read), format!("{:?}", value));
    assert!(reader.read_bit().is_err());

    let empty = resolve(&mut types, &map(vec![("_list", text("tail:"))]));
    let data = [1u8];
    let mut reader = CubeReader::new(&data);
    assert_eq!(decode_value(&types, empty, &mut reader).unwrap_err().kind, IoErrorKind::InvalidData);
}

#[test]
fn a_value_of_another_format_is_rejected() {
    let mut types = Types::new();
    let place = resolve(&mut types, &text("uint8"));
    let mut cube = CubeWriter::new(Vec::new());
    assert!(encode_value(&types, place, &FieldValue::Text("x".to_string()), &mut cube).is_err());
    assert!(encode_value(&types, place, &FieldValue::Scalar(ScalarValue::Int8(1)), &mut cube).is_err());
    assert!(encode_value(&types, place, &FieldValue::Unit, &mut cube).is_err());
    let bytes = resolve(&mut types, &text("byte:2"));
    assert_eq!(
        encode_value(&types, bytes, &FieldValue::Bytes(vec![1]), &mut cube).unwrap_err().kind,
        IoErrorKind::Other
    );
    assert!(cube.target.is_empty());
    cube.write_bit(true).unwrap();
    assert_eq!(
        encode_value(&types, bytes, &FieldValue::Bytes(vec![1, 2]), &mut cube).unwrap_err().kind,
        IoErrorKind::Misaligned
    );
    assert_eq!(
        encode_value(&types, bytes, &FieldValue::Bytes(vec![1]), &mut cube).unwrap_err().kind,
        IoErrorKind::Other
    );
}

#[test]
fn a_failed_writing_leaves_nothing_written() {
    let mut types = Types::new();
    let place = resolve(
        &mut types,
        &map(vec![("_list", text("const:2")), ("a", text("uint8")), ("b", text("byte:2"))]),
    );
    let good = |a: u8| {
        FieldValue::Struct(vec![
            FieldValue::Scalar(ScalarValue::Uint8(a)),
            FieldValue::Bytes(vec![1, 2]),
        ])
    };
    let bad = FieldValue::Struct(vec![
        FieldValue::Scalar(ScalarValue::Uint8(3)),
        FieldValue::Bytes(vec![1]),
    ]);
    let mut cube = CubeWriter::new(vec![0xaa]);
    assert!(encode_value(&types, place, &FieldValue::List(vec![good(1), bad]), &mut cube).is_err());
    assert_eq!(cube.target.as_slice(), &[0xaa]);
    assert!(cube.is_complete_byte());
    encode_value(&types, place, &FieldValue::List(vec![good(1), good(2)]), &mut cube).unwrap();
    assert_eq!(cube.target.as_slice(), &[0xaa, 1, 1, 2, 2, 1, 2]);
    let data = [1u8, 1, 2, 2, 1];
    let mut reader = CubeReader::new(&data);
    assert_eq!(decode_value(&types, place, &mut reader).unwrap_err().kind, IoErrorKind::UnexpectedEof);
    assert_eq!(reader.read_uint8().unwrap(), 1);
}

#[test]
fn a_writer_comes_back_to_its_mark() {
    let mut cube = CubeWriter::new(vec![1]);
    cube.write_bit(true).unwrap();
    let mark = cube.mark();
    cube.write_nop().unwrap();
    cube.write_uint16(0x0203).unwrap();
    cube.write_bit(false).unwrap();
    cube.rewind(mark);
    assert_eq!(cube.target.as_slice(), &[1]);
    cube.write_nop().unwrap();
    assert_eq!(cube.target.as_slice(), &[1, 0x80]);
}
