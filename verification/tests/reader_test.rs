use cube_engine::io::reader::CubeReader;

const SOURCE: [u8; 16] = [
    0x12, 0x34, 0x56, 0x78, 0x90, 0xab, 0xcd, 0xef,
    0x12, 0x34, 0x56, 0x78, 0x90, 0xab, 0xcd, 0xef,
];

#[test]
fn read_u8() {
    let mut reader: CubeReader = CubeReader::new(&SOURCE);
    assert_eq!(reader.read_uint8().unwrap(), 0x12 as u8);
}

#[test]
fn read_u8_moving() {
    let mut reader: CubeReader = CubeReader::new(&SOURCE);
    assert_eq!(reader.read_uint8().unwrap(), 0x12 as u8);
    assert_eq!(reader.read_uint8().unwrap(), 0x34 as u8);
}

#[test]
fn read_u16() {
    let mut reader: CubeReader = CubeReader::new(&SOURCE);
    assert_eq!(reader.read_uint16().unwrap(), 0x1234 as u16);
}

#[test]
fn read_u32() {
    let mut reader: CubeReader = CubeReader::new(&SOURCE);
    assert_eq!(reader.read_uint32().unwrap(), 0x12345678 as u32);
}

#[test]
fn read_u32_moving() {
    let mut reader: CubeReader = CubeReader::new(&SOURCE);
    assert_eq!(reader.read_uint32().unwrap(), 0x12345678 as u32);
    assert_eq!(reader.read_uint32().unwrap(), 0x90abcdef as u32);
}

#[test]
fn read_u64() {
    let mut reader: CubeReader = CubeReader::new(&SOURCE);
    assert_eq!(reader.read_uint64().unwrap(), 0x1234567890abcdef as u64);
}

#[test]
fn read_u128() {
    let mut reader: CubeReader = CubeReader::new(&SOURCE);
    assert_eq!(reader.read_uint128().unwrap(), 0x1234567890abcdef1234567890abcdef as u128);
}

#[test]
fn read_i8() {
    let mut reader: CubeReader = CubeReader::new(&SOURCE);
    assert_eq!(reader.read_int8().unwrap(), 0x12 as i8);
}

#[test]
fn read_i8_moving() {
    let mut reader: CubeReader = CubeReader::new(&SOURCE);
    assert_eq!(reader.read_int8().unwrap(), 0x12 as i8);
    assert_eq!(reader.read_int8().unwrap(), 0x34 as i8);
}

#[test]
fn read_i16() {
    let mut reader: CubeReader = CubeReader::new(&SOURCE);
    assert_eq!(reader.read_int16().unwrap(), 0x1234 as i16);
}

#[test]
fn read_i32() {
    let mut reader: CubeReader = CubeReader::new(&SOURCE);
    assert_eq!(reader.read_int32().unwrap(), 0x12345678 as i32);
}

#[test]
fn read_i32_moving() {
    let mut reader: CubeReader = CubeReader::new(&SOURCE);
    assert_eq!(reader.read_int32().unwrap(), 0x12345678 as i32);
    assert_eq!(reader.read_int32().unwrap(), 0x10abcdef as i32 + -0x8000_0000);
}

#[test]
fn read_i64() {
    let mut reader: CubeReader = CubeReader::new(&SOURCE);
    assert_eq!(reader.read_int64().unwrap(), 0x1234567890abcdef as i64);
}

#[test]
fn read_i128() {
    let mut reader: CubeReader = CubeReader::new(&SOURCE);
    assert_eq!(reader.read_int128().unwrap(), 0x1234567890abcdef1234567890abcdef as i128);
}

#[test]
fn read_f32() {
    let mut reader: CubeReader = CubeReader::new(&[0x3e, 0x99, 0x99, 0x9a]);
    assert_eq!(f32::from_bits(reader.read_float32().unwrap()), 0.3 as f32);
}

#[test]
fn read_f32_inf() {
    let mut reader: CubeReader = CubeReader::new(&[
        0x7f, 0x80, 0x00, 0x00,
        0xff, 0x80, 0x00, 0x00,
        0xff, 0xc0, 0x00, 0x00,
    ]);
    assert_eq!(f32::from_bits(reader.read_float32().unwrap()), std::f32::INFINITY);
    assert_eq!(f32::from_bits(reader.read_float32().unwrap()), -std::f32::INFINITY);
    assert!(f32::from_bits(reader.read_float32().unwrap()).is_nan());
}

#[test]
fn read_f64() {
    let mut reader: CubeReader = CubeReader::new(&[0x3f, 0xd3, 0x33, 0x33, 0x33, 0x33, 0x33, 0x33]);
    assert_eq!(f64::from_bits(reader.read_float64().unwrap()), 0.3 as f64);
}

#[test]
fn read_f64_inf() {
    let mut reader: CubeReader = CubeReader::new(&[
        0x7f, 0xf0, 0x00, 0x00, 0x00, 0x00, 0x00, 0x00,
        0xff, 0xf0, 0x00, 0x00, 0x00, 0x00, 0x00, 0x00,
        0xff, 0xf8, 0x00, 0x00, 0x00, 0x00, 0x00, 0x00,
    ]);
    assert_eq!(f64::from_bits(reader.read_float64().unwrap()), std::f64::INFINITY);
    assert_eq!(f64::from_bits(reader.read_float64().unwrap()), -std::f64::INFINITY);
    assert!(f64::from_bits(reader.read_float64().unwrap()).is_nan());
}

#[test]
fn read_bits() {
    let mut reader: CubeReader = CubeReader::new(&SOURCE);
    let expect: [bool; 8] = [false, false, false, true, false, false, true, false];
    for i in 0..8 {
        assert_eq!(reader.read_bit().unwrap(), expect[i]);
    }
}

#[test]
fn read_nop() {
    let mut reader: CubeReader = CubeReader::new(&SOURCE);
    let expect1: [bool; 8] = [false, false, false, true, false, false, true, false];
    let expect2: [bool; 8] = [false, false, true, true, false, true, false, false];
    for i in 0..4 {
        assert_eq!(reader.read_bit().unwrap(), expect1[i]);
    }
    reader.read_nop().unwrap();
    for i in 0..8 {
        assert_eq!(reader.read_bit().unwrap(), expect2[i]);
    }
}
#[test]
fn read_nop_safe() {
    let mut reader: CubeReader = CubeReader::new(&SOURCE);
    reader.read_nop().unwrap();
    assert_eq!(reader.read_uint8().unwrap(), 0x12 as u8);
}

#[test]
fn read_nibble() {
    let mut reader: CubeReader = CubeReader::new(&SOURCE);
    assert_eq!(reader.read_nibble().unwrap(), 0x1 as u8);
    assert_eq!(reader.read_nibble().unwrap(), 0x2 as u8);
    assert_eq!(reader.read_nibble().unwrap(), 0x3 as u8);
    assert_eq!(reader.read_nibble().unwrap(), 0x4 as u8);
}
