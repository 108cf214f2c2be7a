use cube_engine::io::cube::{CubePos, CubePrecisePos, FloatPos, IntPos};
use cube_engine::io::flex::FlexPos;
use cube_engine::io::reader::CubeReader;
use cube_engine::io::writer::CubeWriter;
use cube_engine::util::{decimal, io_error, io_error_f, make_io_error, IoErrorKind};

#[test]
fn errors_carry_their_description() {
    let e = make_io_error("broken");
    assert_eq!(e.kind, IoErrorKind::Other);
    assert_eq!(e.description, "broken");
    let r: Result<u8, _> = io_error("first");
    assert_eq!(r.unwrap_err().description, "first");
    let r: Result<u8, _> = io_error_f("second".to_string());
    let e = r.unwrap_err();
    assert_eq!(e.kind, IoErrorKind::Other);
    assert_eq!(e.description, "second");
}

#[test]
fn four_bits_and_nop_start_a_fresh_byte() {
    let mut cube = CubeWriter::new(Vec::new());
    for bit in [true, false, false, false] {
        cube.write_bit(bit).unwrap();
    }
    assert!(!cube.is_complete_byte());
    cube.write_nop().unwrap();
    assert!(cube.is_complete_byte());
    cube.write_uint8(0x34).unwrap();
    assert_eq!(cube.target.as_slice(), &[0x80, 0x34]);
}

#[test]
fn nop_at_a_boundary_changes_nothing() {
    let mut cube = CubeWriter::new(vec![0x01]);
    cube.write_nop().unwrap();
    cube.write_nop().unwrap();
    assert_eq!(cube.target.as_slice(), &[0x01]);
    let data = [0x12u8, 0x34];
    let mut reader = CubeReader::new(&data);
    reader.read_nop().unwrap();
    reader.read_nop().unwrap();
    assert_eq!(reader.read_uint16().unwrap(), 0x1234);
}

#[test]
fn bits_written_are_bits_read() {
    let bits = [false, false, false, true, false, false, true, false, true, true, false];
    let mut cube = CubeWriter::new(Vec::new());
    for bit in bits {
        cube.write_bit(bit).unwrap();
    }
    cube.write_nop().unwrap();
    assert_eq!(cube.target.as_slice(), &[0x12, 0xc0]);
    let mut reader = CubeReader::new(cube.target.as_slice());
    for bit in bits {
        assert_eq!(reader.read_bit().unwrap(), bit);
    }
}

#[test]
fn nibble_keeps_its_low_half() {
    let mut cube = CubeWriter::new(Vec::new());
    cube.write_nibble(0xf7).unwrap();
    cube.write_nibble(0x0a).unwrap();
    assert_eq!(cube.target.as_slice(), &[0x7a]);
}

#[test]
fn extremes_survive() {
    let mut cube = CubeWriter::new(Vec::new());
    cube.write_int8(i8::MIN).unwrap();
    cube.write_int16(i16::MIN).unwrap();
    cube.write_int32(i32::MAX).unwrap();
    cube.write_int64(i64::MIN).unwrap();
    cube.write_int128(i128::MIN).unwrap();
    cube.write_uint8(u8::MAX).unwrap();
    cube.write_uint16(u16::MAX).unwrap();
    cube.write_uint32(u32::MAX).unwrap();
    cube.write_uint64(u64::MAX).unwrap();
    cube.write_uint128(u128::MAX).unwrap();
    cube.write_float32(f32::NEG_INFINITY.to_bits()).unwrap();
    cube.write_float64(f64::MAX.to_bits()).unwrap();
    cube.write_float32(f32::NAN.to_bits()).unwrap();
    let mut reader = CubeReader::new(cube.target.as_slice());
    assert_eq!(reader.read_int8().unwrap(), i8::MIN);
    assert_eq!(reader.read_int16().unwrap(), i16::MIN);
    assert_eq!(reader.read_int32().unwrap(), i32::MAX);
    assert_eq!(reader.read_int64().unwrap(), i64::MIN);
    assert_eq!(reader.read_int128().unwrap(), i128::MIN);
    assert_eq!(reader.read_uint8().unwrap(), u8::MAX);
    assert_eq!(reader.read_uint16().unwrap(), u16::MAX);
    assert_eq!(reader.read_uint32().unwrap(), u32::MAX);
    assert_eq!(reader.read_uint64().unwrap(), u64::MAX);
    assert_eq!(reader.read_uint128().unwrap(), u128::MAX);
    assert_eq!(f32::from_bits(reader.read_float32().unwrap()), f32::NEG_INFINITY);
    assert_eq!(f64::from_bits(reader.read_float64().unwrap()), f64::MAX);
    assert!(f32::from_bits(reader.read_float32().unwrap()).is_nan());
    assert!(reader.read_uint8().is_err());
}

#[test]
fn bytes_are_written_and_read_as_they_are() {
    let mut cube = CubeWriter::new(Vec::new());
    cube.write_bytes(&[1, 2, 3]).unwrap();
    assert_eq!(cube.target.as_slice(), &[1, 2, 3]);
    let mut reader = CubeReader::new(cube.target.as_slice());
    let mut buf = [0u8; 2];
    reader.read_bytes(&mut buf).unwrap();
    assert_eq!(buf, [1, 2]);
    let mut more = [9u8; 2];
    let e = reader.read_bytes(&mut more).unwrap_err();
    assert_eq!(e.kind, IoErrorKind::UnexpectedEof);
    assert_eq!(more, [9, 9]);
    assert_eq!(reader.read_uint8().unwrap(), 3);
}

#[test]
fn string_has_its_length_before_it() {
    let mut cube = CubeWriter::new(Vec::new());
    cube.write_string("h\u{e9}").unwrap();
    assert_eq!(cube.target.as_slice(), &[0x00, 0x03, 0x68, 0xc3, 0xa9]);
    let mut reader = CubeReader::new(cube.target.as_slice());
    assert_eq!(reader.read_string().unwrap(), "h\u{e9}");
}

#[test]
fn string32_has_four_bytes_of_length() {
    let mut cube = CubeWriter::new(Vec::new());
    cube.write_string32("ab").unwrap();
    assert_eq!(cube.target.as_slice(), &[0, 0, 0, 2, 0x61, 0x62]);
    let mut reader = CubeReader::new(cube.target.as_slice());
    assert_eq!(reader.read_string32().unwrap(), "ab");
}

#[test]
fn too_long_a_string_is_rejected_and_nothing_written() {
    let long = "x".repeat(0x1_0000);
    let mut cube = CubeWriter::new(vec![7]);
    let e = cube.write_string(&long).unwrap_err();
    assert_eq!(e.kind, IoErrorKind::Other);
    assert_eq!(e.description, "String is too long");
    assert_eq!(cube.target.as_slice(), &[7]);
    let fits = "x".repeat(0xFFFF);
    cube.write_string(&fits).unwrap();
    assert_eq!(cube.target.len(), 1 + 2 + 0xFFFF);
    cube.write_string32(&long).unwrap();
}

#[test]
fn string_errors_leave_the_reader_in_place() {
    let short = [0x00u8, 0x05, 0x61];
    let mut reader = CubeReader::new(&short);
    assert_eq!(reader.read_string().unwrap_err().kind, IoErrorKind::UnexpectedEof);
    assert_eq!(reader.read_uint16().unwrap(), 5);
    let bad = [0x00u8, 0x01, 0xff, 0x2a];
    let mut reader = CubeReader::new(&bad);
    let e = reader.read_string().unwrap_err();
    assert_eq!(e.kind, IoErrorKind::Other);
    assert_eq!(e.description, "invalid utf-8");
    assert_eq!(reader.read_uint16().unwrap(), 1);
}

#[test]
fn end_of_data_is_reported_for_bits_and_nibbles() {
    let mut reader = CubeReader::new(&[]);
    assert_eq!(reader.read_bit().unwrap_err().kind, IoErrorKind::UnexpectedEof);
    assert_eq!(reader.read_nibble().unwrap_err().kind, IoErrorKind::UnexpectedEof);
    assert_eq!(reader.read_int_pos().unwrap_err().kind, IoErrorKind::UnexpectedEof);
}

#[test]
fn int_pos_is_three_integers() {
    let pos = IntPos { x: 1, y: -2, z: 0x01020304 };
    let mut cube = CubeWriter::new(Vec::new());
    cube.write_int_pos(&pos).unwrap();
    assert_eq!(
        cube.target.as_slice(),
        &[0, 0, 0, 1, 0xff, 0xff, 0xff, 0xfe, 1, 2, 3, 4]
    );
    let mut reader = CubeReader::new(cube.target.as_slice());
    assert_eq!(reader.read_int_pos().unwrap(), pos);
}

#[test]
fn float_pos_is_three_floats() {
    let pos = FloatPos { x: 0.3f32.to_bits(), y: f32::INFINITY.to_bits(), z: (-1.5f32).to_bits() };
    let mut cube = CubeWriter::new(Vec::new());
    cube.write_float_pos(&pos).unwrap();
    assert_eq!(&cube.target[0..4], &[0x3e, 0x99, 0x99, 0x9a]);
    let mut reader = CubeReader::new(cube.target.as_slice());
    assert_eq!(reader.read_float_pos().unwrap(), pos);
}

#[test]
fn cube_pos_packs_its_nibbles_and_pads() {
    let pos = CubePos { batch: IntPos { x: 1, y: 2, z: 3 }, local_x: 0xa, local_y: 0xb, local_z: 0xc };
    let mut cube = CubeWriter::new(Vec::new());
    cube.write_cube_pos(&pos).unwrap();
    assert_eq!(
        cube.target.as_slice(),
        &[0, 0, 0, 1, 0, 0, 0, 2, 0, 0, 0, 3, 0xab, 0xc0]
    );
    assert!(cube.is_complete_byte());
    let mut data = cube.target.clone();
    data.push(0x55);
    let mut reader = CubeReader::new(data.as_slice());
    assert_eq!(reader.read_cube_pos().unwrap(), pos);
    assert_eq!(reader.read_uint8().unwrap(), 0x55);
}

#[test]
fn cube_precise_pos_has_four_nibbles_and_two_floats() {
    let pos = CubePrecisePos {
        cube: CubePos { batch: IntPos { x: -1, y: 0, z: 1 }, local_x: 1, local_y: 2, local_z: 3 },
        face: 4,
        precise_x: 0.5f32.to_bits(),
        precise_y: 0.25f32.to_bits(),
    };
    let mut cube = CubeWriter::new(Vec::new());
    cube.write_cube_precise_pos(&pos).unwrap();
    assert_eq!(cube.target.len(), 22);
    assert_eq!(&cube.target[12..14], &[0x12, 0x34]);
    assert_eq!(&cube.target[14..18], &[0x3f, 0x00, 0x00, 0x00]);
    let mut reader = CubeReader::new(cube.target.as_slice());
    assert_eq!(reader.read_cube_precise_pos().unwrap(), pos);
}

#[test]
fn flex_pos_survives() {
    let pos = FlexPos {
        batch: IntPos { x: 7, y: 8, z: 9 },
        local: FloatPos { x: 1.0f32.to_bits(), y: 2.0f32.to_bits(), z: 3.0f32.to_bits() },
        yaw: 90.0f32.to_bits(),
        pitch: (-45.0f32).to_bits(),
    };
    let mut cube = CubeWriter::new(Vec::new());
    cube.write_flex_pos(&pos).unwrap();
    assert_eq!(cube.target.len(), 32);
    let mut reader = CubeReader::new(cube.target.as_slice());
    assert_eq!(reader.read_flex_pos().unwrap(), pos);
    assert_eq!(reader.read_flex_pos().unwrap_err().kind, IoErrorKind::UnexpectedEof);
}

#[test]
fn numbers_are_spelled_in_decimal() {
    assert_eq!(decimal(0), "0");
    assert_eq!(decimal(9), "9");
    assert_eq!(decimal(10), "10");
    assert_eq!(decimal(1234567890), "1234567890");
    assert_eq!(decimal(u64::MAX), "18446744073709551615");
}

#[test]
fn a_bit_or_a_nibble_leaves_the_boundary_until_nop() {
    let mut cube = CubeWriter::new(Vec::new());
    assert!(cube.is_complete_byte());
    cube.write_bit(true).unwrap();
    assert!(!cube.is_complete_byte());
    cube.write_nop().unwrap();
    assert!(cube.is_complete_byte());
    cube.write_nibble(0x5).unwrap();
    assert!(!cube.is_complete_byte());
    cube.write_nibble(0xa).unwrap();
    assert!(cube.is_complete_byte());
    for _ in 0..7 {
        cube.write_bit(false).unwrap();
        assert!(!cube.is_complete_byte());
    }
    cube.write_bit(true).unwrap();
    assert!(cube.is_complete_byte());
    assert_eq!(cube.target.as_slice(), &[0x80, 0x5a, 0x01]);

    let mut reader = CubeReader::new(cube.target.as_slice());
    assert!(reader.is_complete_byte());
    assert!(reader.read_bit().unwrap());
    assert!(!reader.is_complete_byte());
    reader.read_nop().unwrap();
    assert!(reader.is_complete_byte());
    assert_eq!(reader.read_nibble().unwrap(), 0x5);
    assert!(!reader.is_complete_byte());
    assert_eq!(reader.read_nibble().unwrap(), 0xa);
    assert!(reader.is_complete_byte());
    assert_eq!(reader.read_uint8().unwrap(), 0x01);
}
