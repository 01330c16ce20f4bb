use minecraft_protocol::connection::{
    decode_frame_payload, encode_frame, handle_packet_data, read_frame, status_json, CompressionConfig,
    Connection, ConnectionState,
};
use minecraft_protocol::mem_stream;
use minecraft_protocol::minecraft_stream::ReadError;
use minecraft_protocol::packets::{read_handshake, read_ping_request, Handshake};

fn no_compression() -> CompressionConfig {
    CompressionConfig::disabled()
}

fn handshake_body(protocol_version: i32, address: &str, port: u16, next_state: i32) -> Vec<u8> {
    let empty: Vec<u8> = Vec::new();
    let mut s = mem_stream::new(&empty);
    s.write_varint(protocol_version);
    assert!(s.write_string(address));
    s.write_ushort(port);
    s.write_varint(next_state);
    s.get_data().clone()
}

#[test]
fn frame_round_trip_uncompressed() {
    let config = no_compression();
    let empty: Vec<u8> = Vec::new();
    let mut s = mem_stream::new(&empty);
    s.write_varint(0x42);
    s.write(&vec![1u8, 2, 3, 4]);
    let packet_data = s.get_data().clone();

    let frame = encode_frame(&packet_data, &config).unwrap();
    let mut r = mem_stream::new(&frame);
    let payload = read_frame(&mut r).unwrap();
    let decoded = decode_frame_payload(&payload, &config).unwrap();
    assert_eq!(decoded, packet_data);
    assert_eq!(r.available(), 0);
}

#[test]
fn frame_round_trip_compressed() {
    let config = CompressionConfig { enabled: true, threshold: 8 };
    let packet_data: Vec<u8> = std::iter::repeat(7u8).take(200).collect();

    let frame = encode_frame(&packet_data, &config).unwrap();
    // the compressed frame of repetitive data is shorter than the data
    assert!(frame.len() < packet_data.len());
    let mut r = mem_stream::new(&frame);
    let payload = read_frame(&mut r).unwrap();
    let decoded = decode_frame_payload(&payload, &config).unwrap();
    assert_eq!(decoded, packet_data);
}

#[test]
fn frame_below_threshold_stays_uncompressed() {
    let config = CompressionConfig { enabled: true, threshold: 100 };
    let packet_data = vec![5u8, 6, 7];

    let frame = encode_frame(&packet_data, &config).unwrap();
    // varint total length, zero header, then the raw bytes
    assert_eq!(frame, vec![0x04, 0x00, 5, 6, 7]);
    let mut r = mem_stream::new(&frame);
    let payload = read_frame(&mut r).unwrap();
    let decoded = decode_frame_payload(&payload, &config).unwrap();
    assert_eq!(decoded, packet_data);
}

#[test]
fn frame_bad_compressed_data_is_io_error() {
    let config = CompressionConfig { enabled: true, threshold: 0 };
    // header declares 4 uncompressed bytes, but the rest is not zlib data
    let payload = vec![0x04u8, 0xAA, 0xBB, 0xCC];
    assert_eq!(
        decode_frame_payload(&payload, &config),
        Err(ReadError::IOError)
    );
}

#[test]
fn frame_truncated_length_is_end_of_stream() {
    let bytes = vec![0x05u8, 1, 2];
    let mut r = mem_stream::new(&bytes);
    assert_eq!(read_frame(&mut r), Err(ReadError::EndOfStream));
}

#[test]
fn handshake_decode_scenario() {
    let body = handshake_body(759, "localhost", 25565, 1);
    let mut s = mem_stream::new(&body);
    let packet = read_handshake(&mut s).unwrap();
    assert_eq!(packet.protocol_version, 759);
    assert_eq!(packet.server_address, "localhost");
    assert_eq!(packet.server_port, 25565);
    assert_eq!(packet.next_state, 1);
}

#[test]
fn handshake_moves_connection_to_status() {
    let body = handshake_body(759, "localhost", 25565, 1);
    let empty: Vec<u8> = Vec::new();
    let mut s = mem_stream::new(&empty);
    s.write_varint(0x00);
    s.write(&body);
    let packet_data = s.get_data().clone();

    let (state, response) =
        handle_packet_data(ConnectionState::Handshake, &packet_data).unwrap();
    assert_eq!(state, ConnectionState::Status);
    assert!(response.is_none());
}

#[test]
fn handshake_next_state_two_moves_to_login() {
    let body = handshake_body(759, "localhost", 25565, 2);
    let empty: Vec<u8> = Vec::new();
    let mut s = mem_stream::new(&empty);
    s.write_varint(0x00);
    s.write(&body);
    let packet_data = s.get_data().clone();

    let (state, response) =
        handle_packet_data(ConnectionState::Handshake, &packet_data).unwrap();
    assert_eq!(state, ConnectionState::Login);
    assert!(response.is_none());
}

#[test]
fn unknown_id_in_handshake_is_dropped() {
    let packet_data = vec![0x07u8, 1, 2, 3];
    let (state, response) =
        handle_packet_data(ConnectionState::Handshake, &packet_data).unwrap();
    assert_eq!(state, ConnectionState::Handshake);
    assert!(response.is_none());
}

#[test]
fn get_next_state_reads_the_field() {
    let packet = Handshake {
        protocol_version: 759,
        server_address: "localhost".to_string(),
        server_port: 25565,
        next_state: 2,
    };
    assert_eq!(packet.get_next_state(), 2);
}

#[test]
fn ping_request_decodes_payload() {
    let empty: Vec<u8> = Vec::new();
    let mut s = mem_stream::new(&empty);
    s.write_long(0x1234);
    let body = s.get_data().clone();
    let mut r = mem_stream::new(&body);
    let ping = read_ping_request(&mut r).unwrap();
    assert_eq!(ping.payload, 0x1234);
}

#[test]
fn status_request_yields_json_response() {
    let packet_data = vec![0x00u8];
    let (state, response) = handle_packet_data(ConnectionState::Status, &packet_data).unwrap();
    assert_eq!(state, ConnectionState::Status);
    let response = response.unwrap();

    let mut r = mem_stream::new(&response);
    assert_eq!(r.read_varint(), Ok(0x00));
    let json = r.read_string().unwrap();
    assert_eq!(json, status_json());
    assert!(json.starts_with('{') && json.ends_with('}'));
    assert_eq!(r.available(), 0);
}

#[test]
fn ping_yields_pong_echoing_payload() {
    let empty: Vec<u8> = Vec::new();
    let mut s = mem_stream::new(&empty);
    s.write_varint(0x01);
    s.write_long(0x1234);
    let packet_data = s.get_data().clone();

    let (state, response) = handle_packet_data(ConnectionState::Status, &packet_data).unwrap();
    assert_eq!(state, ConnectionState::Status);
    let response = response.unwrap();
    assert_eq!(response, vec![0x01, 0x34, 0x12, 0, 0, 0, 0, 0, 0]);
}

#[test]
fn unknown_id_in_status_is_ignored() {
    let packet_data = vec![0x05u8];
    let (state, response) = handle_packet_data(ConnectionState::Status, &packet_data).unwrap();
    assert_eq!(state, ConnectionState::Status);
    assert!(response.is_none());
}

#[test]
fn truncated_ping_closes_connection() {
    let packet_data = vec![0x01u8, 0x34, 0x12];
    assert_eq!(
        handle_packet_data(ConnectionState::Status, &packet_data),
        Err(ReadError::EndOfStream)
    );
}

#[test]
fn malformed_packet_id_is_an_error() {
    let packet_data = vec![0x80u8, 0x80, 0x80, 0x80, 0x80, 0x80];
    assert_eq!(
        handle_packet_data(ConnectionState::Status, &packet_data),
        Err(ReadError::VarIntTooBig)
    );
}

#[test]
fn isolation_malformed_frame_closes_only_its_connection() {
    let mut a = Connection::new();
    let mut b = Connection::new();

    // move both to Status by a handshake
    let body = handshake_body(759, "localhost", 25565, 1);
    let empty: Vec<u8> = Vec::new();
    let mut s = mem_stream::new(&empty);
    s.write_varint(0x00);
    s.write(&body);
    let handshake_payload = s.get_data().clone();
    assert!(a.handle_frame(&handshake_payload).is_none());
    assert!(b.handle_frame(&handshake_payload).is_none());
    assert!(a.connected && b.connected);

    // a malformed payload arrives on A: a truncated varint packet ID
    let garbage = vec![0x80u8, 0x80];
    assert!(a.handle_frame(&garbage).is_none());
    assert!(!a.connected);
    assert_eq!(a.state, ConnectionState::Status);

    // B is untouched and keeps serving
    assert!(b.connected);
    let pong = b.handle_frame(&vec![0x01u8, 0x34, 0x12, 0, 0, 0, 0, 0, 0]).unwrap();
    let mut r = mem_stream::new(&pong);
    let payload = read_frame(&mut r).unwrap();
    assert_eq!(payload, vec![0x01, 0x34, 0x12, 0, 0, 0, 0, 0, 0]);
    assert!(b.connected);
}

#[test]
fn connection_new_is_fresh() {
    let c = Connection::new();
    assert_eq!(c.state, ConnectionState::Handshake);
    assert!(c.connected);
    assert!(!c.compression.enabled);
    assert_eq!(c.compression.threshold, -1);
    assert!(!c.compression.active());
}
