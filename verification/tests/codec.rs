use minecraft_protocol::mem_stream;
use minecraft_protocol::minecraft_stream::ReadError;

fn varint_bytes(v: i32) -> Vec<u8> {
    let empty: Vec<u8> = Vec::new();
    let mut s = mem_stream::new(&empty);
    s.write_varint(v);
    s.get_data().clone()
}

fn varlong_bytes(v: i64) -> Vec<u8> {
    let empty: Vec<u8> = Vec::new();
    let mut s = mem_stream::new(&empty);
    s.write_varlong(v);
    s.get_data().clone()
}

#[test]
fn varint_round_trip_samples() {
    for v in [
        0i32,
        1,
        -1,
        127,
        128,
        300,
        759,
        25565,
        i32::MAX,
        i32::MIN,
        -2147483647,
        65535,
    ] {
        let bytes = varint_bytes(v);
        let mut r = mem_stream::new(&bytes);
        assert_eq!(r.read_varint(), Ok(v));
    }
}

#[test]
fn varint_known_encodings() {
    assert_eq!(varint_bytes(0), vec![0x00]);
    assert_eq!(varint_bytes(1), vec![0x01]);
    assert_eq!(varint_bytes(127), vec![0x7F]);
    assert_eq!(varint_bytes(128), vec![0x80, 0x01]);
    assert_eq!(varint_bytes(300), vec![0xAC, 0x02]);
    assert_eq!(varint_bytes(25565), vec![0xDD, 0xC7, 0x01]);
    assert_eq!(varint_bytes(-1), vec![0xFF, 0xFF, 0xFF, 0xFF, 0x0F]);
    assert_eq!(varint_bytes(i32::MIN), vec![0x80, 0x80, 0x80, 0x80, 0x08]);
}

#[test]
fn varint_encoding_is_minimal() {
    assert_eq!(varint_bytes(0).len(), 1);
    assert_eq!(varint_bytes(127).len(), 1);
    assert_eq!(varint_bytes(128).len(), 2);
    assert_eq!(varint_bytes(16383).len(), 2);
    assert_eq!(varint_bytes(16384).len(), 3);
    assert_eq!(varint_bytes(i32::MAX).len(), 5);
    assert_eq!(varint_bytes(-1).len(), 5);
}

#[test]
fn varint_overflow_six_groups() {
    let bytes = vec![0x80u8, 0x80, 0x80, 0x80, 0x80, 0x80];
    let mut r = mem_stream::new(&bytes);
    assert_eq!(r.read_varint(), Err(ReadError::VarIntTooBig));
}

#[test]
fn varint_truncated_input() {
    let bytes = vec![0x80u8, 0x80];
    let mut r = mem_stream::new(&bytes);
    assert_eq!(r.read_varint(), Err(ReadError::EndOfStream));
}

#[test]
fn varlong_round_trip_samples() {
    for v in [
        0i64,
        1,
        -1,
        127,
        128,
        i64::MAX,
        i64::MIN,
        0x1234_5678_9ABC_DEF0,
    ] {
        let bytes = varlong_bytes(v);
        let mut r = mem_stream::new(&bytes);
        assert_eq!(r.read_varlong(), Ok(v));
    }
}

#[test]
fn varlong_overflow_eleven_groups() {
    let bytes = vec![0x80u8; 11];
    let mut r = mem_stream::new(&bytes);
    assert_eq!(r.read_varlong(), Err(ReadError::VarLongTooBig));
}

#[test]
fn varlong_minus_one_is_ten_groups() {
    assert_eq!(
        varlong_bytes(-1),
        vec![0xFF, 0xFF, 0xFF, 0xFF, 0xFF, 0xFF, 0xFF, 0xFF, 0xFF, 0x01]
    );
}

#[test]
fn string_round_trip() {
    for text in ["", "hello", "localhost", "h\u{e9}llo \u{26a1} \u{1f600}"] {
        let empty: Vec<u8> = Vec::new();
        let mut s = mem_stream::new(&empty);
        assert!(s.write_string(text));
        let bytes = s.get_data().clone();
        let mut r = mem_stream::new(&bytes);
        assert_eq!(r.read_string(), Ok(text.to_string()));
    }
}

#[test]
fn string_invalid_utf8() {
    // length 2, then an invalid continuation sequence
    let bytes = vec![0x02u8, 0xC3, 0x28];
    let mut r = mem_stream::new(&bytes);
    assert_eq!(r.read_string(), Err(ReadError::InvalidEncoding));
}

#[test]
fn string_truncated_body() {
    // declares 5 bytes but carries only 2
    let bytes = vec![0x05u8, b'h', b'i'];
    let mut r = mem_stream::new(&bytes);
    assert_eq!(r.read_string(), Err(ReadError::EndOfStream));
}

#[test]
fn string_encoding_layout() {
    let empty: Vec<u8> = Vec::new();
    let mut s = mem_stream::new(&empty);
    assert!(s.write_string("hi"));
    assert_eq!(s.get_data().clone(), vec![0x02, b'h', b'i']);
}

#[test]
fn fixed_width_round_trips() {
    let empty: Vec<u8> = Vec::new();
    let mut s = mem_stream::new(&empty);
    s.write_short(-2);
    s.write_ushort(65535);
    s.write_int(-123456789);
    s.write_uint(0xDEAD_BEEF);
    s.write_long(i64::MIN);
    s.write_ulong(u64::MAX);
    let bytes = s.get_data().clone();
    let mut r = mem_stream::new(&bytes);
    assert_eq!(r.read_short(), Ok(-2));
    assert_eq!(r.read_ushort(), Ok(65535));
    assert_eq!(r.read_int(), Ok(-123456789));
    assert_eq!(r.read_uint(), Ok(0xDEAD_BEEF));
    assert_eq!(r.read_long(), Ok(i64::MIN));
    assert_eq!(r.read_ulong(), Ok(u64::MAX));
}

#[test]
fn fixed_width_little_endian_layout() {
    let empty: Vec<u8> = Vec::new();
    let mut s = mem_stream::new(&empty);
    s.write_int(-2);
    assert_eq!(s.get_data().clone(), vec![0xFE, 0xFF, 0xFF, 0xFF]);

    let empty2: Vec<u8> = Vec::new();
    let mut s2 = mem_stream::new(&empty2);
    s2.write_ushort(25565);
    assert_eq!(s2.get_data().clone(), vec![0xDD, 0x63]);
}

#[test]
fn fixed_width_end_of_stream() {
    let bytes = vec![0x01u8, 0x02, 0x03];
    let mut r = mem_stream::new(&bytes);
    assert_eq!(r.read_int(), Err(ReadError::EndOfStream));
    assert_eq!(r.read_long(), Err(ReadError::EndOfStream));
    // the failed reads consumed nothing
    assert_eq!(r.read_ushort(), Ok(0x0201));
}
