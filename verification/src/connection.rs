//! Frame transport and the per-connection protocol state machine.
//!
//! A frame on the wire is a varint length followed by exactly that many
//! payload bytes. With the compression layer active, the payload starts
//! with an uncompressed-length header: `0` means the rest is sent as-is, a
//! positive value means the rest is zlib-compressed and must inflate to
//! exactly that many bytes. After that optional layer, the packet data is
//! a varint packet ID followed by the body.
//!
//! All socket I/O and thread scheduling stay outside this crate: the
//! caller reads a frame's payload off its socket, hands the bytes in, and
//! writes back whatever response bytes come out.

use vstd::prelude::*;
use vstd::utf8::encode_utf8;

use crate::mem_stream;
use crate::mem_stream::MemStream;
use crate::minecraft_stream::{
    le_bytes, le_value, string_encoding, truncate_u32, varint_groups, varint_parse, ReadError,
    VarParse,
};
use crate::packets::{handshake_parse, read_handshake, read_ping_request, HandshakeParse};

verus! {

/// The protocol phase of a connection, fixing how packet IDs are read.
/// Transitions are one-directional: a connection leaves `Handshake` for
/// `Status` or `Login` and never returns.
#[derive(Debug, PartialEq, Eq, Structural, Clone, Copy)]
pub enum ConnectionState {
    Handshake,
    Status,
    Login,
    Play,
}

/// The compression configuration of one connection. The layer is active
/// only when `enabled` is set with a non-negative `threshold`; a negative
/// threshold disables compression entirely.
#[derive(Debug, PartialEq, Eq, Structural, Clone, Copy)]
pub struct CompressionConfig {
    pub enabled: bool,
    pub threshold: i32,
}

impl CompressionConfig {
    /// Whether the compression layer appears in frames at all.
    pub open spec fn spec_active(self) -> bool {
        self.enabled && self.threshold >= 0
    }

    /// Whether the compression layer appears in frames at all.
    pub fn active(&self) -> (r: bool)
        ensures
            r == self.spec_active(),
    {
        self.enabled && self.threshold >= 0
    }

    /// The configuration of a fresh connection: no compression.
    pub fn disabled() -> (r: CompressionConfig)
        ensures
            r == (CompressionConfig { enabled: false, threshold: -1i32 }),
    {
        CompressionConfig { enabled: false, threshold: -1 }
    }
}

/// The zlib compression level handed to the codec when a payload crosses
/// the threshold.
pub const COMPRESSION_LEVEL: u8 = 6;

/// What `miniz_oxide::deflate::compress_to_vec_zlib` returns for the
/// given bytes and level: a function of the two alone.
pub uninterp spec fn deflate_of(data: Seq<u8>, level: u8) -> Seq<u8>;

/// What `miniz_oxide::inflate::decompress_to_vec_zlib` yields for the
/// given bytes: their unique decompression, or nothing when they are not
/// well-formed zlib data.
pub uninterp spec fn inflate_of(data: Seq<u8>) -> Option<Seq<u8>>;

/// Relies on `miniz_oxide::deflate::compress_to_vec_zlib`: deterministic
/// in its input and level, and lossless — decompressing its output with
/// `decompress_to_vec_zlib` yields the input back.
#[verifier::external_body]
fn deflate(data: &Vec<u8>, level: u8) -> (r: Vec<u8>)
    ensures
        r@ == deflate_of(data@, level),
        inflate_of(r@) == Some(data@),
{
    miniz_oxide::deflate::compress_to_vec_zlib(data.as_slice(), level)
}

/// Relies on `miniz_oxide::inflate::decompress_to_vec_zlib`: it succeeds
/// exactly on well-formed zlib data, yielding its decompression.
#[verifier::external_body]
fn inflate(data: &Vec<u8>) -> (r: Result<Vec<u8>, ReadError>)
    ensures
        match r {
            Ok(v) => inflate_of(data@) == Some(v@),
            Err(e) => e == ReadError::IOError && inflate_of(data@) is None,
        },
{
    match miniz_oxide::inflate::decompress_to_vec_zlib(data.as_slice()) {
        Ok(v) => Ok(v),
        Err(_) => Err(ReadError::IOError),
    }
}

/// The payload of an outgoing frame, before length-prefixing: with the
/// compression layer off, the packet data itself; with it on, an
/// uncompressed-length header followed by the compressed data (when the
/// data crosses the threshold) or a `0` header and the raw data.
pub open spec fn frame_payload(data: Seq<u8>, config: CompressionConfig, level: u8) -> Seq<u8> {
    if !config.spec_active() {
        data
    } else if data.len() >= config.threshold && data.len() > 0 {
        varint_groups(data.len()) + deflate_of(data, level)
    } else {
        varint_groups(0) + data
    }
}

/// A whole outgoing frame: a varint length prefix, then the payload.
pub open spec fn frame_bytes(data: Seq<u8>, config: CompressionConfig, level: u8) -> Seq<u8> {
    varint_groups(frame_payload(data, config, level).len()) + frame_payload(data, config, level)
}

/// Whether the frame for `data` can carry its lengths in `i32` varints.
pub open spec fn frame_fits(data: Seq<u8>, config: CompressionConfig, level: u8) -> bool {
    data.len() < 0x8000_0000 && frame_payload(data, config, level).len() < 0x8000_0000
}

/// Builds the wire frame for one packet's data under the connection's
/// compression configuration. `None` only when the data or its framed
/// payload is too large for an `i32` length prefix.
pub fn encode_frame(data: &Vec<u8>, config: &CompressionConfig) -> (r: Option<Vec<u8>>)
    ensures
        r is Some <==> frame_fits(data@, *config, COMPRESSION_LEVEL),
        r matches Some(v) ==> v@ == frame_bytes(data@, *config, COMPRESSION_LEVEL),
{
    let empty: Vec<u8> = Vec::new();
    if data.len() > 0x7FFF_FFFF {
        return None;
    }
    let mut inner = mem_stream::new(&empty);
    if config.active() && data.len() > 0 && data.len() >= config.threshold as usize {
        let compressed = deflate(data, COMPRESSION_LEVEL);
        inner.write_varint(data.len() as i32);
        inner.write(&compressed);
    } else if config.active() {
        inner.write_varint(0);
        inner.write(data);
    } else {
        inner.write(data);
    }
    let payload = inner.into_data();
    if payload.len() > 0x7FFF_FFFF {
        return None;
    }
    let mut out = mem_stream::new(&empty);
    out.write_varint(payload.len() as i32);
    out.write(&payload);
    Some(out.into_data())
}

/// What a received frame payload denotes under the configuration.
pub enum FrameParse {
    /// The packet data the payload carries.
    Done { data: Seq<u8> },
    /// The payload is malformed: its header varint is bad, its
    /// compressed part does not inflate, or the inflated size disagrees
    /// with the declared one.
    Fail { error: ReadError },
}

/// Reads a received frame payload under the configuration: with the
/// layer off, the payload is the packet data; with it on, a `0` header
/// passes the rest through and a positive header demands the rest
/// inflate to exactly that many bytes.
pub open spec fn frame_payload_parse(payload: Seq<u8>, config: CompressionConfig) -> FrameParse {
    if !config.spec_active() {
        FrameParse::Done { data: payload }
    } else {
        match varint_parse(payload, 5) {
            VarParse::TooBig => FrameParse::Fail { error: ReadError::VarIntTooBig },
            VarParse::Incomplete => FrameParse::Fail { error: ReadError::EndOfStream },
            VarParse::Done { value, length } => {
                let n = truncate_u32(value) as i32;
                let rest = payload.subrange(length as int, payload.len() as int);
                if n == 0 {
                    FrameParse::Done { data: rest }
                } else if n < 0 {
                    FrameParse::Fail { error: ReadError::IOError }
                } else {
                    match inflate_of(rest) {
                        Option::None => FrameParse::Fail { error: ReadError::IOError },
                        Option::Some(d) => {
                            if d.len() == n {
                                FrameParse::Done { data: d }
                            } else {
                                FrameParse::Fail { error: ReadError::IOError }
                            }
                        },
                    }
                }
            },
        }
    }
}

/// Unpacks one received frame payload into packet data, inflating the
/// compressed layer when the configuration carries one.
pub fn decode_frame_payload(payload: &Vec<u8>, config: &CompressionConfig) -> (r: Result<
    Vec<u8>,
    ReadError,
>)
    ensures
        match frame_payload_parse(payload@, *config) {
            FrameParse::Done { data } => r matches Ok(v) && v@ == data,
            FrameParse::Fail { error } => r == Err::<Vec<u8>, ReadError>(error),
        },
{
    if !config.active() {
        let copy = mem_stream::new(payload);
        return Ok(copy.into_data());
    }
    let mut stream = mem_stream::new(payload);
    proof {
        assert(stream.remaining() =~= payload@);
    }
    let n = match stream.read_varint() {
        Ok(v) => v,
        Err(e) => {
            return Err(e);
        },
    };
    let ghost plen = match varint_parse(payload@, 5) {
        VarParse::Done { value: _, length } => length,
        _ => 0,
    };
    let avail = stream.available();
    let rest = match stream.read_exact(avail) {
        Ok(b) => b,
        Err(_) => {
            return Err(ReadError::IOError);
        },
    };
    proof {
        assert(rest@ =~= payload@.subrange(plen as int, payload@.len() as int));
    }
    if n == 0 {
        Ok(rest)
    } else if n < 0 {
        Err(ReadError::IOError)
    } else {
        match inflate(&rest) {
            Err(e) => Err(e),
            Ok(d) => {
                if d.len() == n as usize {
                    Ok(d)
                } else {
                    Err(ReadError::IOError)
                }
            },
        }
    }
}

/// Law: the frame round trip. The payload of an encoded frame reads back
/// as exactly the packet data it was built from. For a payload the codec
/// compressed, this rests on the compressor's losslessness, which its
/// contract states.
pub proof fn lemma_frame_round_trip(data: Seq<u8>, config: CompressionConfig)
    requires
        frame_fits(data, config, COMPRESSION_LEVEL),
        config.spec_active() && data.len() >= config.threshold && data.len() > 0 ==> inflate_of(
            deflate_of(data, COMPRESSION_LEVEL),
        ) == Some(data),
    ensures
        frame_payload_parse(frame_payload(data, config, COMPRESSION_LEVEL), config)
            == (FrameParse::Done { data }),
{
    crate::minecraft_stream::lemma_pow128_values();
    if config.spec_active() {
        let payload = frame_payload(data, config, COMPRESSION_LEVEL);
        if data.len() >= config.threshold && data.len() > 0 {
            crate::minecraft_stream::lemma_varint_parse_groups(
                data.len(),
                deflate_of(data, COMPRESSION_LEVEL),
                5,
            );
            assert(payload.subrange(
                varint_groups(data.len()).len() as int,
                payload.len() as int,
            ) =~= deflate_of(data, COMPRESSION_LEVEL));
        } else {
            crate::minecraft_stream::lemma_varint_parse_groups(0, data, 5);
            assert(payload.subrange(varint_groups(0).len() as int, payload.len() as int)
                =~= data);
        }
    }
}

/// Law: the frame length prefix. An encoded frame starts with a varint
/// holding exactly its payload's length, and the payload follows it
/// whole, whatever bytes come after.
pub proof fn lemma_frame_length_prefix(data: Seq<u8>, config: CompressionConfig, rest: Seq<u8>)
    requires
        frame_fits(data, config, COMPRESSION_LEVEL),
    ensures
        ({
            let payload = frame_payload(data, config, COMPRESSION_LEVEL);
            let s = frame_bytes(data, config, COMPRESSION_LEVEL) + rest;
            &&& varint_parse(s, 5) == (VarParse::Done {
                value: payload.len(),
                length: varint_groups(payload.len()).len(),
            })
            &&& s.subrange(
                varint_groups(payload.len()).len() as int,
                (varint_groups(payload.len()).len() + payload.len()) as int,
            ) == payload
        }),
{
    let payload = frame_payload(data, config, COMPRESSION_LEVEL);
    let s = frame_bytes(data, config, COMPRESSION_LEVEL) + rest;
    crate::minecraft_stream::lemma_pow128_values();
    assert(s =~= varint_groups(payload.len()) + (payload + rest));
    crate::minecraft_stream::lemma_varint_parse_groups(payload.len(), payload + rest, 5);
    assert(s.subrange(
        varint_groups(payload.len()).len() as int,
        (varint_groups(payload.len()).len() + payload.len()) as int,
    ) =~= payload);
}

/// Reads one whole frame off an in-memory stream: a varint length, then
/// exactly that many payload bytes. A declared length that is negative
/// or runs past the available data fails with `EndOfStream`.
pub fn read_frame(stream: &mut MemStream) -> (r: Result<Vec<u8>, ReadError>)
    requires
        old(stream).wf(),
    ensures
        final(stream).wf(),
        final(stream).data() == old(stream).data(),
        match varint_parse(old(stream).remaining(), 5) {
            VarParse::Done { value, length } => {
                let n = truncate_u32(value) as i32;
                if n < 0 || old(stream).remaining().len() - length < n {
                    r == Err::<Vec<u8>, ReadError>(ReadError::EndOfStream)
                } else {
                    r matches Ok(v) && v@ == old(stream).remaining().subrange(
                        length as int,
                        length + n,
                    ) && final(stream).pos() == old(stream).pos() + length + n
                }
            },
            VarParse::TooBig => r == Err::<Vec<u8>, ReadError>(ReadError::VarIntTooBig),
            VarParse::Incomplete => r == Err::<Vec<u8>, ReadError>(ReadError::EndOfStream),
        },
{
    let ghost rem = old(stream).remaining();
    let n = match stream.read_varint() {
        Ok(v) => v,
        Err(e) => {
            return Err(e);
        },
    };
    let ghost l1 = match varint_parse(rem, 5) {
        VarParse::Done { value: _, length } => length,
        _ => 0,
    };
    if n < 0 {
        return Err(ReadError::EndOfStream);
    }
    proof {
        assert(stream.remaining() =~= rem.subrange(l1 as int, rem.len() as int));
    }
    match stream.read_exact(n as usize) {
        Ok(v) => {
            proof {
                assert(v@ =~= rem.subrange(l1 as int, l1 + n));
            }
            Ok(v)
        },
        Err(_) => Err(ReadError::EndOfStream),
    }
}

/// The status JSON document served to a status request.
pub open spec fn spec_status_json() -> Seq<char> {
    "{\"version\":{\"name\":\"1.19\",\"protocol\":759},\"players\":{\"max\":100,\"online\":5,\"sample\":[{\"name\":\"thinkofdeath\",\"id\":\"4566e69f-c907-48ee-8d71-d7ba5aa00d20\"}]},\"description\":{\"text\":\"Hello world\"},\"previewsChat\":true}"@
}

/// The status JSON document served to a status request.
pub fn status_json() -> (r: &'static str)
    ensures
        r@ == spec_status_json(),
{
    "{\"version\":{\"name\":\"1.19\",\"protocol\":759},\"players\":{\"max\":100,\"online\":5,\"sample\":[{\"name\":\"thinkofdeath\",\"id\":\"4566e69f-c907-48ee-8d71-d7ba5aa00d20\"}]},\"description\":{\"text\":\"Hello world\"},\"previewsChat\":true}"
}

/// The packet data of the status response: ID 0x00, then the status JSON
/// as a length-prefixed string.
pub open spec fn status_response_data() -> Seq<u8> {
    varint_groups(0) + string_encoding(spec_status_json())
}

/// The packet data of a pong: ID 0x01, then the echoed payload.
pub open spec fn pong_response_data(payload: i64) -> Seq<u8> {
    varint_groups(1) + le_bytes((payload as u64) as nat, 8)
}

/// What handling one packet's data asks of the connection: carry on
/// (possibly in a new state), answer with a response packet's data, or
/// close with an error.
pub enum Dispatch {
    Continue { state: ConnectionState },
    Respond { state: ConnectionState, response: Seq<u8> },
    Close { error: ReadError },
}

/// The dispatch rules, keyed by connection state and packet ID.
///
/// In `Handshake`, ID 0x00 decodes the handshake packet and moves to the
/// state its `next_state` field names (1 = Status, 2 = Login); a
/// handshake naming any other target, or any other packet ID, is dropped
/// and the connection carries on unchanged. In `Status`, ID 0x00 answers
/// with the status JSON and ID 0x01 echoes the ping payload in a pong;
/// unknown IDs are ignored. `Login` and `Play` define no packets here,
/// so everything is ignored. Any codec failure closes the connection.
pub open spec fn spec_handle_packet(state: ConnectionState, data: Seq<u8>) -> Dispatch {
    match varint_parse(data, 5) {
        VarParse::TooBig => Dispatch::Close { error: ReadError::VarIntTooBig },
        VarParse::Incomplete => Dispatch::Close { error: ReadError::EndOfStream },
        VarParse::Done { value, length } => {
            let id = truncate_u32(value) as i32;
            let body = data.subrange(length as int, data.len() as int);
            match state {
                ConnectionState::Handshake => {
                    if id == 0x00 {
                        match handshake_parse(body) {
                            HandshakeParse::Done {
                                protocol_version: _,
                                server_address: _,
                                server_port: _,
                                next_state,
                                length: _,
                            } => {
                                if next_state == 1 {
                                    Dispatch::Continue { state: ConnectionState::Status }
                                } else if next_state == 2 {
                                    Dispatch::Continue { state: ConnectionState::Login }
                                } else {
                                    Dispatch::Continue { state: ConnectionState::Handshake }
                                }
                            },
                            HandshakeParse::Fail { error } => Dispatch::Close { error },
                        }
                    } else {
                        Dispatch::Continue { state: ConnectionState::Handshake }
                    }
                },
                ConnectionState::Status => {
                    if id == 0x00 {
                        if encode_utf8(spec_status_json()).len() < 0x8000_0000 {
                            Dispatch::Respond {
                                state: ConnectionState::Status,
                                response: status_response_data(),
                            }
                        } else {
                            Dispatch::Close { error: ReadError::IOError }
                        }
                    } else if id == 0x01 {
                        if body.len() < 8 {
                            Dispatch::Close { error: ReadError::EndOfStream }
                        } else {
                            Dispatch::Respond {
                                state: ConnectionState::Status,
                                response: pong_response_data(
                                    (le_value(body.subrange(0, 8)) as u64) as i64,
                                ),
                            }
                        }
                    } else {
                        Dispatch::Continue { state: ConnectionState::Status }
                    }
                },
                ConnectionState::Login => Dispatch::Continue { state: ConnectionState::Login },
                ConnectionState::Play => Dispatch::Continue { state: ConnectionState::Play },
            }
        },
    }
}

/// Handles one packet's decoded frame data in the given state: reads the
/// varint packet ID, dispatches by state and ID, and returns the next
/// state with any response packet data, or the codec error that should
/// close the connection.
pub fn handle_packet_data(state: ConnectionState, data: &Vec<u8>) -> (r: Result<
    (ConnectionState, Option<Vec<u8>>),
    ReadError,
>)
    ensures
        match spec_handle_packet(state, data@) {
            Dispatch::Continue { state: s } => r matches Ok(o) && o.0 == s && o.1 is None,
            Dispatch::Respond { state: s, response } => {
                &&& r matches Ok(o)
                &&& o.0 == s
                &&& o.1 matches Some(v)
                &&& v@ == response
            },
            Dispatch::Close { error } => r matches Err(e) && e == error,
        },
{
    let mut stream = mem_stream::new(data);
    proof {
        assert(stream.remaining() =~= data@);
    }
    let id = match stream.read_varint() {
        Ok(v) => v,
        Err(e) => {
            return Err(e);
        },
    };
    let ghost l1 = match varint_parse(data@, 5) {
        VarParse::Done { value: _, length } => length,
        _ => 0,
    };
    proof {
        assert(stream.remaining() =~= data@.subrange(l1 as int, data@.len() as int));
    }
    match state {
        ConnectionState::Handshake => {
            if id == 0x00 {
                match read_handshake(&mut stream) {
                    Ok(p) => {
                        let ns = p.get_next_state();
                        if ns == 1 {
                            Ok((ConnectionState::Status, None))
                        } else if ns == 2 {
                            Ok((ConnectionState::Login, None))
                        } else {
                            Ok((ConnectionState::Handshake, None))
                        }
                    },
                    Err(e) => Err(e),
                }
            } else {
                Ok((ConnectionState::Handshake, None))
            }
        },
        ConnectionState::Status => {
            if id == 0x00 {
                let json = status_json();
                let empty: Vec<u8> = Vec::new();
                let mut out = mem_stream::new(&empty);
                out.write_varint(0x00);
                if !out.write_string(json) {
                    return Err(ReadError::IOError);
                }
                proof {
                    assert(out.data() =~= status_response_data());
                }
                Ok((ConnectionState::Status, Some(out.into_data())))
            } else if id == 0x01 {
                match read_ping_request(&mut stream) {
                    Err(e) => Err(e),
                    Ok(ping) => {
                        let empty: Vec<u8> = Vec::new();
                        let mut out = mem_stream::new(&empty);
                        out.write_varint(0x01);
                        out.write_long(ping.payload);
                        proof {
                            assert(out.data() =~= pong_response_data(ping.payload));
                        }
                        Ok((ConnectionState::Status, Some(out.into_data())))
                    },
                }
            } else {
                Ok((ConnectionState::Status, None))
            }
        },
        ConnectionState::Login => Ok((ConnectionState::Login, None)),
        ConnectionState::Play => Ok((ConnectionState::Play, None)),
    }
}

/// The per-connection protocol bookkeeping — everything of a connection
/// but its socket, which the caller owns: the protocol state, the
/// compression configuration, and whether the connection is still live.
pub struct Connection {
    pub state: ConnectionState,
    pub compression: CompressionConfig,
    pub connected: bool,
}

/// What one step of the read-dispatch-write loop does to a connection
/// that received one frame payload: the connection afterwards, and the
/// frame to write back, if any.
pub open spec fn spec_connection_step(conn: Connection, payload: Seq<u8>) -> (
    Connection,
    Option<Seq<u8>>,
) {
    match frame_payload_parse(payload, conn.compression) {
        FrameParse::Fail { error: _ } => (
            Connection { state: conn.state, compression: conn.compression, connected: false },
            None::<Seq<u8>>,
        ),
        FrameParse::Done { data } => match spec_handle_packet(conn.state, data) {
            Dispatch::Close { error: _ } => (
                Connection { state: conn.state, compression: conn.compression, connected: false },
                None,
            ),
            Dispatch::Continue { state } => (
                Connection { state, compression: conn.compression, connected: conn.connected },
                None,
            ),
            Dispatch::Respond { state, response } => {
                if frame_fits(response, conn.compression, COMPRESSION_LEVEL) {
                    (
                        Connection {
                            state,
                            compression: conn.compression,
                            connected: conn.connected,
                        },
                        Some(frame_bytes(response, conn.compression, COMPRESSION_LEVEL)),
                    )
                } else {
                    (
                        Connection { state, compression: conn.compression, connected: false },
                        None,
                    )
                }
            },
        },
    }
}

impl Connection {
    /// A fresh connection: handshaking, uncompressed, live.
    pub fn new() -> (r: Connection)
        ensures
            r == (Connection {
                state: ConnectionState::Handshake,
                compression: CompressionConfig { enabled: false, threshold: -1i32 },
                connected: true,
            }),
    {
        Connection {
            state: ConnectionState::Handshake,
            compression: CompressionConfig::disabled(),
            connected: true,
        }
    }

    /// One step of the read-dispatch-write loop, fed one received
    /// frame's payload: unpacks the compression layer, dispatches the
    /// packet, and frames any response for writing. On any codec error
    /// the connection only marks itself closed — nothing else is
    /// touched, so one peer's malformed bytes can never affect another
    /// connection.
    pub fn handle_frame(&mut self, payload: &Vec<u8>) -> (r: Option<Vec<u8>>)
        ensures
            final(self).compression == old(self).compression,
            *final(self) == spec_connection_step(*old(self), payload@).0,
            match spec_connection_step(*old(self), payload@).1 {
                Some(b) => r matches Some(v) && v@ == b,
                None => r is None,
            },
    {
        let data = match decode_frame_payload(payload, &self.compression) {
            Ok(d) => d,
            Err(_) => {
                self.connected = false;
                return None;
            },
        };
        match handle_packet_data(self.state, &data) {
            Err(_) => {
                self.connected = false;
                None
            },
            Ok((ns, resp)) => {
                self.state = ns;
                match resp {
                    None => None,
                    Some(bytes) => match encode_frame(&bytes, &self.compression) {
                        Some(f) => Some(f),
                        None => {
                            self.connected = false;
                            None
                        },
                    },
                }
            },
        }
    }
}

/// Law: state transitions are one-directional. No step ever takes a
/// connection back to `Handshake` once it has left it.
pub proof fn lemma_state_monotonic(conn: Connection, payload: Seq<u8>)
    requires
        conn.state != ConnectionState::Handshake,
    ensures
        spec_connection_step(conn, payload).0.state != ConnectionState::Handshake,
{
}

/// Law: a malformed frame closes the connection it arrived on, and only
/// marks it closed — state and configuration stay as they were, and no
/// response is produced. Isolation between connections is then by
/// construction: a step is a function of one connection's own record and
/// bytes alone, so no step can read or change another connection's.
pub proof fn lemma_malformed_frame_closes(conn: Connection, payload: Seq<u8>)
    requires
        frame_payload_parse(payload, conn.compression) is Fail,
    ensures
        spec_connection_step(conn, payload).0 == (Connection {
            state: conn.state,
            compression: conn.compression,
            connected: false,
        }),
        spec_connection_step(conn, payload).1 is None,
{
}

} // verus!
