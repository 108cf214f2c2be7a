use cube_engine::io::cube::{FloatPos, IntPos};
use cube_engine::io::flex::FlexPos;
use cube_engine::io::reader::CubeReader;
use cube_engine::io::writer::CubeWriter;
use cube_engine::protocol::handler::{deliver, deliver_all, Received, Recorder};
use cube_engine::protocol::ll::disconnect::{ClientDisconnect, ServerDisconnect};
use cube_engine::protocol::ll::{handle_ll, read_ll};
use cube_engine::protocol::ll::login_request::LoginRequest;
use cube_engine::protocol::ll::package::{
    handle_frame, handle_package, read_frame, read_package, write_package, PackageWriter,
};
use cube_engine::protocol::ll::ping::{Ping, Pong};
use cube_engine::protocol::pk::cube_batch::CubeBatchSignal;
use cube_engine::protocol::pk::cube_dict::{CubeDef, CubeDict};
use cube_engine::protocol::pk::{handle_pk, read_pk};
use cube_engine::protocol::pk::spawn::SpawnSignal;
use cube_engine::protocol::{make_err, make_str_err, NetError};
use cube_engine::util::IoErrorKind;

fn spawn_at(x: i32) -> SpawnSignal {
    SpawnSignal {
        pos: FlexPos {
            batch: IntPos { x, y: 2, z: 3 },
            local: FloatPos { x: 0.5f32.to_bits(), y: 0, z: 0 },
            yaw: 0,
            pitch: 1.0f32.to_bits(),
        },
    }
}

#[test]
fn net_errors_carry_their_description() {
    assert_eq!(NetError::new("a".to_string()).description, "a");
    let r: Result<(), NetError> = make_err("b".to_string());
    assert_eq!(r.unwrap_err().description, "b");
    let r: Result<(), NetError> = make_str_err("c");
    assert_eq!(r.unwrap_err().description, "c");
}

#[test]
fn ping_is_its_identifier_and_cycle() {
    let mut cube = CubeWriter::new(Vec::new());
    Ping { last_cycle: 0x0102030405060708 }.write(&mut cube).unwrap();
    Pong {}.write(&mut cube).unwrap();
    assert_eq!(cube.target.as_slice(), &[0x81, 1, 2, 3, 4, 5, 6, 7, 8, 0x82]);
    let mut reader = CubeReader::new(&cube.target[1..]);
    assert_eq!(Ping::read(&mut reader).unwrap(), Ping { last_cycle: 0x0102030405060708 });
    assert_eq!(Pong::read(&mut reader).unwrap(), Pong {});
    assert_eq!(reader.read_uint8().unwrap(), 0x82);
}

#[test]
fn login_request_survives() {
    let request = LoginRequest {
        major_protocol: 1,
        minor_protocol: 2,
        username: "steve".to_string(),
        user_id: [9; 20],
        language: "en".to_string(),
        sys_info: "".to_string(),
    };
    let mut cube = CubeWriter::new(Vec::new());
    request.write(&mut cube).unwrap();
    assert_eq!(cube.target.len(), 1 + 8 + 2 + 5 + 20 + 2 + 2 + 2);
    assert_eq!(&cube.target[0..11], &[0x21, 0, 0, 0, 1, 0, 0, 0, 2, 0, 5]);
    let mut reader = CubeReader::new(&cube.target[1..]);
    let read = LoginRequest::read(&mut reader).unwrap();
    assert_eq!(read.major_protocol, 1);
    assert_eq!(read.minor_protocol, 2);
    assert_eq!(read.username, "steve");
    assert_eq!(read.user_id, [9; 20]);
    assert_eq!(read.language, "en");
    assert_eq!(read.sys_info, "");
    let mut reader = CubeReader::new(&cube.target[1..20]);
    assert_eq!(LoginRequest::read(&mut reader).unwrap_err().kind, IoErrorKind::UnexpectedEof);
    assert_eq!(reader.read_uint32().unwrap(), 1);
}

#[test]
fn login_request_with_a_long_name_writes_nothing() {
    let request = LoginRequest {
        major_protocol: 1,
        minor_protocol: 2,
        username: "ok".to_string(),
        user_id: [0; 20],
        language: "y".repeat(0x1_0000),
        sys_info: "".to_string(),
    };
    let mut cube = CubeWriter::new(Vec::new());
    assert_eq!(request.write(&mut cube).unwrap_err().kind, IoErrorKind::Other);
    assert!(cube.target.is_empty());
}

#[test]
fn server_disconnect_survives_with_its_flag() {
    for rejoin in [true, false] {
        let signal = ServerDisconnect { reason: "bye".to_string(), rejoin };
        let mut cube = CubeWriter::new(Vec::new());
        signal.write(&mut cube).unwrap();
        let flag = if rejoin { 0x80 } else { 0x00 };
        assert_eq!(cube.target.as_slice(), &[0x61, 0, 3, 0x62, 0x79, 0x65, flag]);
        assert!(cube.is_complete_byte());
        cube.write_uint8(0x55).unwrap();
        let mut reader = CubeReader::new(&cube.target[1..]);
        let read = ServerDisconnect::read(&mut reader).unwrap();
        assert_eq!(read.reason, "bye");
        assert_eq!(read.rejoin, rejoin);
        assert!(reader.is_complete_byte());
        assert_eq!(reader.read_uint8().unwrap(), 0x55);
    }
    let cut = [0u8, 1, 0x61];
    let mut reader = CubeReader::new(&cut);
    assert_eq!(ServerDisconnect::read(&mut reader).unwrap_err().kind, IoErrorKind::UnexpectedEof);
    assert_eq!(reader.read_uint16().unwrap(), 1);
    let long = ServerDisconnect { reason: "z".repeat(0x1_0000), rejoin: true };
    let mut cube = CubeWriter::new(Vec::new());
    assert_eq!(long.write(&mut cube).unwrap_err().kind, IoErrorKind::Other);
    assert!(cube.target.is_empty());
    let mut cube = CubeWriter::new(Vec::new());
    ClientDisconnect {}.write(&mut cube).unwrap();
    assert_eq!(cube.target.as_slice(), &[0x62]);
}

#[test]
fn cube_dict_survives() {
    let dict = CubeDict {
        size: 2,
        defs: vec![
            CubeDef { id: 1, name: "CubePump.Air".to_string() },
            CubeDef { id: 0x0100, name: "Stone".to_string() },
        ],
    };
    let mut cube = CubeWriter::new(Vec::new());
    dict.write(&mut cube).unwrap();
    assert_eq!(&cube.target[0..6], &[0x01, 0x01, 0, 0, 0, 2]);
    assert_eq!(&cube.target[6..12], &[0, 0, 0, 1, 0, 12]);
    let mut reader = CubeReader::new(&cube.target[2..]);
    let read = CubeDict::read(&mut reader).unwrap();
    assert_eq!(read.size, 2);
    assert_eq!(read.defs.len(), 2);
    assert_eq!(read.defs[0].id, 1);
    assert_eq!(read.defs[0].name, "CubePump.Air");
    assert_eq!(read.defs[1].id, 0x0100);
    assert_eq!(read.defs[1].name, "Stone");
    let cut = &cube.target[2..cube.target.len() - 1];
    let mut reader = CubeReader::new(cut);
    assert_eq!(CubeDict::read(&mut reader).unwrap_err().kind, IoErrorKind::UnexpectedEof);
    assert_eq!(reader.read_uint32().unwrap(), 2);
}

#[test]
fn cube_batch_survives() {
    let mut payload = [0u32; 4096];
    payload[0] = 0x01020304;
    payload[4095] = 0xffffffff;
    let signal = CubeBatchSignal { pos: IntPos { x: 1, y: 2, z: 3 }, payload };
    let mut cube = CubeWriter::new(Vec::new());
    signal.write(&mut cube).unwrap();
    assert_eq!(cube.target.len(), 2 + 12 + 4 * 4096);
    assert_eq!(&cube.target[0..2], &[0x01, 0x02]);
    assert_eq!(&cube.target[14..18], &[1, 2, 3, 4]);
    let mut reader = CubeReader::new(&cube.target[2..]);
    let read = CubeBatchSignal::read(&mut reader).unwrap();
    assert_eq!(read.pos, signal.pos);
    assert_eq!(read.payload[0], 0x01020304);
    assert_eq!(read.payload[1], 0);
    assert_eq!(read.payload[4095], 0xffffffff);
    let mut reader = CubeReader::new(&cube.target[3..]);
    assert_eq!(CubeBatchSignal::read(&mut reader).unwrap_err().kind, IoErrorKind::UnexpectedEof);
}

#[test]
fn spawn_survives() {
    let signal = spawn_at(1);
    let mut cube = CubeWriter::new(Vec::new());
    signal.write(&mut cube).unwrap();
    assert_eq!(cube.target.len(), 34);
    assert_eq!(&cube.target[0..2], &[0x02, 0x01]);
    let mut reader = CubeReader::new(&cube.target[2..]);
    assert_eq!(SpawnSignal::read(&mut reader).unwrap(), signal);
}

#[test]
fn packed_signals_are_told_apart_by_their_identifier() {
    let mut cube = CubeWriter::new(Vec::new());
    spawn_at(5).write(&mut cube).unwrap();
    CubeDict { size: 0, defs: Vec::new() }.write(&mut cube).unwrap();
    cube.write_uint16(0x7777).unwrap();
    cube.write_uint8(0x55).unwrap();
    let mut reader = CubeReader::new(cube.target.as_slice());
    let mut recorder = Recorder::new();
    handle_pk(&mut recorder, &mut reader).unwrap();
    handle_pk(&mut recorder, &mut reader).unwrap();
    let e = handle_pk(&mut recorder, &mut reader).unwrap_err();
    assert_eq!(e.kind, IoErrorKind::Other);
    assert_eq!(e.description, "Unknown packed signal ID 30583");
    assert_eq!(reader.read_uint8().unwrap(), 0x55);
    let cut = [0x02u8, 0x01, 0x00];
    let mut reader = CubeReader::new(&cut);
    assert_eq!(handle_pk(&mut recorder, &mut reader).unwrap_err().kind, IoErrorKind::UnexpectedEof);
    assert_eq!(reader.read_uint16().unwrap(), 0x0201);
    assert_eq!(recorder.signals.len(), 2);
    assert!(matches!(&recorder.signals[0], Received::Spawn(s) if *s == spawn_at(5)));
    assert!(matches!(&recorder.signals[1], Received::CubeDict(d) if d.size == 0));
}

#[test]
fn low_level_signals_are_told_apart_by_their_identifier() {
    let mut cube = CubeWriter::new(Vec::new());
    Ping { last_cycle: 3 }.write(&mut cube).unwrap();
    Pong {}.write(&mut cube).unwrap();
    ClientDisconnect {}.write(&mut cube).unwrap();
    ServerDisconnect { reason: "r".to_string(), rejoin: true }.write(&mut cube).unwrap();
    cube.write_uint8(0x07).unwrap();
    cube.write_uint8(0x82).unwrap();
    cube.write_uint8(0x81).unwrap();
    let mut reader = CubeReader::new(cube.target.as_slice());
    let mut recorder = Recorder::new();
    for _ in 0..4 {
        handle_ll(&mut recorder, &mut reader).unwrap();
    }
    assert!(matches!(&recorder.signals[0], Received::Ping(p) if p.last_cycle == 3));
    assert!(matches!(&recorder.signals[1], Received::Pong(_)));
    assert!(matches!(&recorder.signals[2], Received::ClientDisconnect(_)));
    assert!(matches!(&recorder.signals[3], Received::ServerDisconnect(s)
        if s.reason == "r" && s.rejoin));
    let e = handle_ll(&mut recorder, &mut reader).unwrap_err();
    assert_eq!(e.kind, IoErrorKind::Other);
    assert_eq!(e.description, "Unknown low-level signal ID 7");
    assert_eq!(recorder.signals.len(), 4);
    handle_ll(&mut recorder, &mut reader).unwrap();
    assert!(matches!(&recorder.signals[4], Received::Pong(_)));
    assert_eq!(handle_ll(&mut recorder, &mut reader).unwrap_err().kind, IoErrorKind::UnexpectedEof);
    assert_eq!(reader.read_uint8().unwrap(), 0x81);
    assert_eq!(handle_ll(&mut recorder, &mut reader).unwrap_err().kind, IoErrorKind::UnexpectedEof);
    assert_eq!(recorder.signals.len(), 5);
}

#[test]
fn package_carries_signals_in_order_and_stops_at_its_length() {
    let x = spawn_at(10);
    let y = spawn_at(20);
    let mut package = PackageWriter::new();
    package.begin_signal().unwrap();
    x.write(&mut package.cube).unwrap();
    package.begin_signal().unwrap();
    y.write(&mut package.cube).unwrap();
    assert_eq!(package.cube.target.len(), 2 * 35);
    assert_eq!(package.cube.target[0], 0x80);
    let mut outer = CubeWriter::new(Vec::new());
    package.flush(&mut outer).unwrap();
    assert!(package.cube.target.is_empty());
    assert_eq!(outer.target[0], 0xe1);
    let declared = u32::from_be_bytes([outer.target[1], outer.target[2], outer.target[3], outer.target[4]]);
    assert_eq!(declared as usize, outer.target.len() - 5);
    assert!((declared as usize) < 2 * 35 + 1);
    outer.write_uint8(0x82).unwrap();
    let mut reader = CubeReader::new(outer.target.as_slice());
    let mut recorder = Recorder::new();
    handle_ll(&mut recorder, &mut reader).unwrap();
    assert_eq!(recorder.signals.len(), 2);
    assert!(matches!(&recorder.signals[0], Received::Spawn(s) if *s == x));
    assert!(matches!(&recorder.signals[1], Received::Spawn(s) if *s == y));
    handle_ll(&mut recorder, &mut reader).unwrap();
    assert!(matches!(&recorder.signals[2], Received::Pong(_)));
    assert!(reader.read_bit().is_err());
}

#[test]
fn empty_package_holds_the_end_mark_alone() {
    let mut package = PackageWriter::new();
    let mut outer = CubeWriter::new(Vec::new());
    package.flush(&mut outer).unwrap();
    let mut reader = CubeReader::new(outer.target.as_slice());
    let mut recorder = Recorder::new();
    handle_ll(&mut recorder, &mut reader).unwrap();
    assert!(recorder.signals.is_empty());
    assert!(reader.read_bit().is_err());
}

#[test]
fn frame_stops_at_the_end_mark() {
    let mut inner = CubeWriter::new(Vec::new());
    inner.write_uint8(0x80).unwrap();
    spawn_at(1).write(&mut inner).unwrap();
    inner.write_uint8(0x00).unwrap();
    inner.write_uint8(0x80).unwrap();
    let mut recorder = Recorder::new();
    handle_frame(&mut recorder, inner.target.as_slice()).unwrap();
    assert_eq!(recorder.signals.len(), 1);
    let mut recorder = Recorder::new();
    let e = handle_frame(&mut recorder, &inner.target[..35]).unwrap_err();
    assert_eq!(e.kind, IoErrorKind::UnexpectedEof);
    assert_eq!(recorder.signals.len(), 1);
    let mut recorder = Recorder::new();
    let e = handle_frame(&mut recorder, &[0x80, 0x00, 0x09]).unwrap_err();
    assert_eq!(e.kind, IoErrorKind::Other);
    assert!(recorder.signals.is_empty());
}

#[test]
fn package_header_is_identifier_length_and_bytes() {
    let mut outer = CubeWriter::new(Vec::new());
    write_package(&mut outer, &[1, 2, 3]).unwrap();
    assert_eq!(outer.target.as_slice(), &[0xe1, 0, 0, 0, 3, 1, 2, 3]);
}

#[test]
fn broken_package_is_invalid_data_and_leaves_the_reader() {
    let data = [0xe1u8, 0, 0, 0, 2, 0xff, 0xff, 0x82];
    let mut reader = CubeReader::new(&data);
    let mut recorder = Recorder::new();
    let e = handle_ll(&mut recorder, &mut reader).unwrap_err();
    assert_eq!(e.kind, IoErrorKind::InvalidData);
    assert_eq!(reader.read_uint8().unwrap(), 0xe1);
    let short = [0xe1u8, 0, 0, 0, 9, 1];
    let mut reader = CubeReader::new(&short);
    let e = handle_ll(&mut recorder, &mut reader).unwrap_err();
    assert_eq!(e.kind, IoErrorKind::UnexpectedEof);
}

#[test]
fn signals_are_read_before_they_are_delivered() {
    let mut cube = CubeWriter::new(Vec::new());
    spawn_at(3).write(&mut cube).unwrap();
    Ping { last_cycle: 9 }.write(&mut cube).unwrap();
    let mut reader = CubeReader::new(cube.target.as_slice());
    let read = read_pk(&mut reader).unwrap();
    assert!(matches!(&read, Received::Spawn(s) if *s == spawn_at(3)));
    let e = read_pk(&mut reader).unwrap_err();
    assert_eq!(e.kind, IoErrorKind::Other);
    assert_eq!(e.description, "Unknown packed signal ID 33024");
    assert_eq!(reader.read_uint8().unwrap(), 0);
    let mut reader = CubeReader::new(&cube.target[34..]);
    let (signals, end) = read_ll(&mut reader);
    end.unwrap();
    assert_eq!(signals.len(), 1);
    assert!(matches!(&signals[0], Received::Ping(p) if p.last_cycle == 9));
    let (signals, end) = read_ll(&mut reader);
    assert_eq!(end.unwrap_err().kind, IoErrorKind::UnexpectedEof);
    assert!(signals.is_empty());
    let stray = [0x09u8, 0x82];
    let mut reader = CubeReader::new(&stray);
    let (signals, end) = read_ll(&mut reader);
    assert_eq!(end.unwrap_err().description, "Unknown low-level signal ID 9");
    assert!(signals.is_empty());
    let (signals, end) = read_ll(&mut reader);
    end.unwrap();
    assert!(matches!(&signals[0], Received::Pong(_)));
}

#[test]
fn signals_are_delivered_in_their_order() {
    let mut recorder = Recorder::new();
    deliver(&mut recorder, Received::Pong(Pong {}));
    deliver_all(
        &mut recorder,
        vec![
            Received::Ping(Ping { last_cycle: 1 }),
            Received::Ping(Ping { last_cycle: 2 }),
            Received::Spawn(spawn_at(3)),
        ],
    );
    assert_eq!(recorder.signals.len(), 4);
    assert!(matches!(&recorder.signals[0], Received::Pong(_)));
    assert!(matches!(&recorder.signals[1], Received::Ping(p) if p.last_cycle == 1));
    assert!(matches!(&recorder.signals[2], Received::Ping(p) if p.last_cycle == 2));
    assert!(matches!(&recorder.signals[3], Received::Spawn(_)));
}

#[test]
fn package_is_read_to_its_signals() {
    let mut package = PackageWriter::new();
    package.begin_signal().unwrap();
    spawn_at(1).write(&mut package.cube).unwrap();
    package.begin_signal().unwrap();
    CubeDict { size: 1, defs: vec![CubeDef { id: 5, name: "Dirt".to_string() }] }
        .write(&mut package.cube)
        .unwrap();
    let inside = package.cube.target.clone();
    let mut outer = CubeWriter::new(Vec::new());
    package.flush(&mut outer).unwrap();
    assert_ne!(&outer.target[5..], inside.as_slice());
    let mut reader = CubeReader::new(&outer.target[1..]);
    let (signals, end) = read_package(&mut reader);
    end.unwrap();
    assert_eq!(signals.len(), 2);
    assert!(matches!(&signals[1], Received::CubeDict(d) if d.defs[0].name == "Dirt"));
    assert!(reader.read_bit().is_err());
    let mut reader = CubeReader::new(&outer.target[1..]);
    let mut recorder = Recorder::new();
    handle_package(&mut recorder, &mut reader).unwrap();
    assert_eq!(recorder.signals.len(), 2);
    let mut framed = inside.clone();
    framed.push(0x00);
    let (signals, end) = read_frame(framed.as_slice());
    end.unwrap();
    assert_eq!(signals.len(), 2);
    let (signals, end) = read_frame(inside.as_slice());
    assert_eq!(end.unwrap_err().kind, IoErrorKind::UnexpectedEof);
    assert_eq!(signals.len(), 2);
}
