use minecraft_protocol::mem_stream;
use minecraft_protocol::mem_stream::ReadError;
use minecraft_protocol::minecraft_server;

#[test]
fn read_exact_returns_requested_bytes() {
    let bytes = vec![1u8, 2, 3, 4, 5];
    let mut s = mem_stream::new(&bytes);
    assert_eq!(s.read_exact(2), Ok(vec![1, 2]));
    assert_eq!(s.read_exact(3), Ok(vec![3, 4, 5]));
}

#[test]
fn read_exact_past_end_fails_without_partial_data() {
    let bytes = vec![1u8, 2, 3];
    let mut s = mem_stream::new(&bytes);
    assert_eq!(s.read_exact(4), Err(ReadError::EndOfStream));
    // the failed read consumed nothing
    assert_eq!(s.read_exact(3), Ok(vec![1, 2, 3]));
    assert_eq!(s.read_exact(1), Err(ReadError::EndOfStream));
}

#[test]
fn write_appends_and_get_data_sees_everything() {
    let empty: Vec<u8> = Vec::new();
    let mut s = mem_stream::new(&empty);
    s.write(&vec![1u8, 2]);
    s.write(&vec![3u8]);
    assert_eq!(s.get_data().clone(), vec![1, 2, 3]);
}

#[test]
fn new_stream_starts_at_position_zero() {
    let bytes = vec![9u8, 8];
    let mut s = mem_stream::new(&bytes);
    assert_eq!(s.available(), 2);
    assert_eq!(s.read_exact(1), Ok(vec![9]));
    assert_eq!(s.available(), 1);
}

#[test]
fn bind_keeps_the_port() {
    let server = minecraft_server::bind(25565);
    assert_eq!(server.port(), 25565);
}
