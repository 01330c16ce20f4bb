//! Typed packets. Each packet's body is decoded from an in-memory stream
//! field by field, in declared order, propagating the first codec error.

use vstd::prelude::*;

use crate::mem_stream::MemStream;
use crate::minecraft_stream::{
    le_value, string_parse, truncate_u32, varint_parse, ReadError, StrParse, VarParse,
};

verus! {

/// The handshake packet (the first packet of every connection): protocol
/// version, the address and port the client dialled, and the state it
/// asks to enter next.
pub struct Handshake {
    pub protocol_version: i32,
    pub server_address: String,
    pub server_port: u16,
    pub next_state: i32,
}

impl Handshake {
    /// The state the client asks to enter: 1 for Status, 2 for Login.
    pub fn get_next_state(&self) -> (r: i32)
        ensures
            r == self.next_state,
    {
        self.next_state
    }
}

/// Outcome of decoding a handshake body from a byte sequence.
pub enum HandshakeParse {
    /// The four fields, and the bytes they took together.
    Done {
        protocol_version: i32,
        server_address: Seq<char>,
        server_port: u16,
        next_state: i32,
        length: nat,
    },
    /// The first field that failed to decode, as the error it failed with.
    Fail { error: ReadError },
}

/// Decodes a handshake body from the front of `s`: protocol version
/// (varint), server address (string), server port (`u16`), next state
/// (varint).
pub open spec fn handshake_parse(s: Seq<u8>) -> HandshakeParse {
    match varint_parse(s, 5) {
        VarParse::TooBig => HandshakeParse::Fail { error: ReadError::VarIntTooBig },
        VarParse::Incomplete => HandshakeParse::Fail { error: ReadError::EndOfStream },
        VarParse::Done { value: pv, length: l1 } => {
            let rest1 = s.subrange(l1 as int, s.len() as int);
            match string_parse(rest1) {
                StrParse::BadPrefix => HandshakeParse::Fail { error: ReadError::VarIntTooBig },
                StrParse::Incomplete { consumed: _ } => HandshakeParse::Fail {
                    error: ReadError::EndOfStream,
                },
                StrParse::NotUtf8 { consumed: _ } => HandshakeParse::Fail {
                    error: ReadError::InvalidEncoding,
                },
                StrParse::Done { chars, length: l2 } => {
                    let rest2 = rest1.subrange(l2 as int, rest1.len() as int);
                    if rest2.len() < 2 {
                        HandshakeParse::Fail { error: ReadError::EndOfStream }
                    } else {
                        let port = le_value(rest2.subrange(0, 2)) as u16;
                        let rest3 = rest2.subrange(2, rest2.len() as int);
                        match varint_parse(rest3, 5) {
                            VarParse::TooBig => HandshakeParse::Fail {
                                error: ReadError::VarIntTooBig,
                            },
                            VarParse::Incomplete => HandshakeParse::Fail {
                                error: ReadError::EndOfStream,
                            },
                            VarParse::Done { value: ns, length: l4 } => HandshakeParse::Done {
                                protocol_version: truncate_u32(pv) as i32,
                                server_address: chars,
                                server_port: port,
                                next_state: truncate_u32(ns) as i32,
                                length: (l1 + l2 + 2 + l4) as nat,
                            },
                        }
                    }
                },
            }
        },
    }
}

/// Decodes a handshake body off the stream. The fields are consumed in
/// declared order; the first codec error is returned as-is and no packet
/// is produced.
pub fn read_handshake(stream: &mut MemStream) -> (r: Result<Handshake, ReadError>)
    requires
        old(stream).wf(),
    ensures
        final(stream).wf(),
        final(stream).data() == old(stream).data(),
        match handshake_parse(old(stream).remaining()) {
            HandshakeParse::Done {
                protocol_version,
                server_address,
                server_port,
                next_state,
                length,
            } => {
                &&& r matches Ok(p) && p.protocol_version == protocol_version
                    && p.server_address@ == server_address && p.server_port == server_port
                    && p.next_state == next_state
                &&& final(stream).pos() == old(stream).pos() + length
            },
            HandshakeParse::Fail { error } => r == Err::<Handshake, ReadError>(error),
        },
{
    let ghost rem = old(stream).remaining();
    let protocol_version = match stream.read_varint() {
        Ok(v) => v,
        Err(e) => {
            return Err(e);
        },
    };
    let ghost l1 = match varint_parse(rem, 5) {
        VarParse::Done { value: _, length } => length,
        _ => 0,
    };
    let ghost rest1 = rem.subrange(l1 as int, rem.len() as int);
    proof {
        assert(stream.remaining() =~= rest1);
    }
    let server_address = match stream.read_string() {
        Ok(s) => s,
        Err(e) => {
            return Err(e);
        },
    };
    let ghost l2 = match string_parse(rest1) {
        StrParse::Done { chars: _, length } => length,
        _ => 0,
    };
    let ghost rest2 = rest1.subrange(l2 as int, rest1.len() as int);
    proof {
        assert(stream.remaining() =~= rest2);
    }
    let server_port = match stream.read_ushort() {
        Ok(p) => p,
        Err(e) => {
            return Err(e);
        },
    };
    let ghost rest3 = rest2.subrange(2, rest2.len() as int);
    proof {
        assert(stream.remaining() =~= rest3);
    }
    let next_state = match stream.read_varint() {
        Ok(v) => v,
        Err(e) => {
            return Err(e);
        },
    };
    Ok(Handshake { protocol_version, server_address, server_port, next_state })
}

/// A status-state ping request: its payload must be echoed back verbatim
/// in the pong response.
pub struct PingRequest {
    pub payload: i64,
}

/// Decodes a ping request body off the stream: one little-endian `i64`.
pub fn read_ping_request(stream: &mut MemStream) -> (r: Result<PingRequest, ReadError>)
    requires
        old(stream).wf(),
    ensures
        final(stream).wf(),
        final(stream).data() == old(stream).data(),
        old(stream).remaining().len() >= 8 ==> {
            &&& r matches Ok(p) && p.payload == (le_value(
                old(stream).remaining().subrange(0, 8),
            ) as u64) as i64
            &&& final(stream).pos() == old(stream).pos() + 8
        },
        old(stream).remaining().len() < 8 ==> {
            &&& r == Err::<PingRequest, ReadError>(ReadError::EndOfStream)
            &&& final(stream).pos() == old(stream).pos()
        },
{
    match stream.read_long() {
        Ok(v) => Ok(PingRequest { payload: v }),
        Err(e) => Err(e),
    }
}

} // verus!
