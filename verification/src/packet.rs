//! The packets of the handshake/status/ping family. Each client-to-server
//! packet decodes its body from a buffer; each server-to-client packet
//! appends its packet ID and body to one. The packet ID itself is written by
//! the encoder and read by the connection's dispatcher, so decoders here see
//! only the body that follows it.

use vstd::prelude::*;
use vstd::utf8::encode_utf8;

use crate::buffer::as_i64;
use crate::buffer::be16;
use crate::buffer::be_bytes;
use crate::buffer::spec_i64_bytes;
use crate::buffer::spec_string;
use crate::buffer::string_chars;
use crate::buffer::string_decodes;
use crate::buffer::string_err;
use crate::buffer::string_used;
use crate::buffer::vi_err;
use crate::buffer::Buffer;
use crate::buffer::BufferError;
use crate::varint::lemma_vi_cases;
use crate::varint::spec_var_int;
use crate::varint::vi_nbytes;
use crate::varint::vi_ok;
use crate::varint::vi_value;

verus! {

/// Ghost image of a decoded handshake packet.
pub struct SpecHandshake {
    pub protocol_version: int,
    pub server_address: Seq<char>,
    pub server_port: int,
    pub next_state: int,
}

/// Outcome of decoding a handshake body: the packet and the bytes consumed,
/// or the first error met and the bytes consumed before it.
pub enum SpecHandshakeResult {
    Decoded { packet: SpecHandshake, used: int },
    Failed { err: BufferError, used: int },
}

/// Decode of a handshake body from `b`: a VarInt protocol version, a
/// length-prefixed UTF-8 server address, a big-endian port, and a VarInt
/// next-state selector.
pub open spec fn spec_decode_handshake(b: Seq<u8>) -> SpecHandshakeResult {
    if !vi_ok(b) {
        SpecHandshakeResult::Failed { err: vi_err(b), used: 0 }
    } else {
        let pv = vi_value(b);
        let r1 = b.skip(vi_nbytes(b));
        if !string_decodes(r1) {
            SpecHandshakeResult::Failed { err: string_err(r1), used: vi_nbytes(b) }
        } else {
            let r2 = r1.skip(string_used(r1));
            if r2.len() < 2 {
                SpecHandshakeResult::Failed {
                    err: (BufferError::OutOfBounds { want: 2, remaining: r2.len() as usize }),
                    used: vi_nbytes(b) + string_used(r1),
                }
            } else {
                let r3 = r2.skip(2);
                if !vi_ok(r3) {
                    SpecHandshakeResult::Failed {
                        err: vi_err(r3),
                        used: vi_nbytes(b) + string_used(r1) + 2,
                    }
                } else {
                    SpecHandshakeResult::Decoded {
                        packet: SpecHandshake {
                            protocol_version: pv,
                            server_address: string_chars(r1),
                            server_port: be16(r2),
                            next_state: vi_value(r3),
                        },
                        used: vi_nbytes(b) + string_used(r1) + 2 + vi_nbytes(r3),
                    }
                }
            }
        }
    }
}

/// First packet of a connection: names the protocol version and endpoint the
/// client dialed, and selects the next negotiation phase.
#[derive(Debug)]
pub struct C2SHandshakePacket {
    pub protocol_version: i32,
    pub server_address: String,
    pub server_port: u16,
    pub next_state: i32,
}

impl C2SHandshakePacket {
    /// Decode a handshake body. On failure the buffer keeps whatever the
    /// last whole field left: each field read is itself atomic.
    pub fn from_buffer(buf: &mut Buffer) -> (r: Result<C2SHandshakePacket, BufferError>)
        requires
            old(buf).wf(),
        ensures
            final(buf).wf(),
            match spec_decode_handshake(old(buf)@) {
                SpecHandshakeResult::Decoded { packet, used } => {
                    &&& r matches Ok(p)
                    &&& p.protocol_version as int == packet.protocol_version
                    &&& p.server_address@ == packet.server_address
                    &&& p.server_port as int == packet.server_port
                    &&& p.next_state as int == packet.next_state
                    &&& final(buf)@ == old(buf)@.skip(used)
                },
                SpecHandshakeResult::Failed { err, used } => {
                    &&& r matches Err(e) && e == err
                    &&& final(buf)@ == old(buf)@.skip(used)
                },
            },
    {
        let ghost b = old(buf)@;
        proof {
            assert(b.skip(0) =~= b);
        }
        let protocol_version: i32 = match buf.read_var_int() {
            Ok(v) => v,
            Err(e) => {
                proof {
                    lemma_vi_cases(b);
                }
                return Err(e);
            },
        };
        let ghost r1 = b.skip(vi_nbytes(b));
        let server_address: String = match buf.read_string() {
            Ok(v) => v,
            Err(e) => {
                proof {
                    lemma_vi_cases(b);
                    lemma_vi_cases(r1);
                }
                return Err(e);
            },
        };
        let ghost r2 = r1.skip(string_used(r1));
        proof {
            lemma_vi_cases(r1);
            assert(buf@ =~= r2);
            assert(b.skip(vi_nbytes(b) + string_used(r1)) =~= r2);
        }
        let server_port: u16 = match buf.read_u16() {
            Ok(v) => v,
            Err(e) => {
                return Err(e);
            },
        };
        let ghost r3 = r2.skip(2);
        proof {
            assert(buf@ =~= r3);
            assert(b.skip(vi_nbytes(b) + string_used(r1) + 2) =~= r3);
        }
        let next_state: i32 = match buf.read_var_int() {
            Ok(v) => v,
            Err(e) => {
                proof {
                    lemma_vi_cases(r3);
                }
                return Err(e);
            },
        };
        proof {
            assert(b.skip(vi_nbytes(b) + string_used(r1) + 2 + vi_nbytes(r3)) =~= r3.skip(
                vi_nbytes(r3),
            ));
        }
        Ok(C2SHandshakePacket { protocol_version, server_address, server_port, next_state })
    }
}

/// Body bytes of a status response: packet ID zero, then the length-prefixed
/// status document.
pub open spec fn spec_status_response_body(json: Seq<char>) -> Seq<u8> {
    spec_var_int(0) + spec_string(json)
}

/// Status response: a single length-prefixed UTF-8 document describing the
/// server.
#[derive(Debug)]
pub struct S2CStatusResponsePacket {
    pub json_response: String,
}

impl S2CStatusResponsePacket {
    /// Append packet ID zero and the document.
    pub fn to_buffer(&self, buf: &mut Buffer)
        requires
            old(buf).wf(),
            encode_utf8(self.json_response@).len() <= 0x7fff_ffff,
        ensures
            final(buf).wf(),
            final(buf)@ == old(buf)@ + spec_status_response_body(self.json_response@),
    {
        buf.write_var_int(0x00);
        buf.write_string(self.json_response.as_str());
    }
}

/// Body bytes of a pong: packet ID one, then the echoed payload.
pub open spec fn spec_pong_body(payload: i64) -> Seq<u8> {
    spec_var_int(1) + spec_i64_bytes(payload)
}

/// Pong: echoes a ping payload back unchanged.
#[derive(Debug, Clone, Copy)]
pub struct S2CPingPacket {
    pub payload: i64,
}

impl S2CPingPacket {
    /// Append packet ID one and the payload.
    pub fn to_buffer(&self, buf: &mut Buffer)
        requires
            old(buf).wf(),
        ensures
            final(buf).wf(),
            final(buf)@ == old(buf)@ + spec_pong_body(self.payload),
    {
        buf.write_var_int(0x01);
        buf.write_i64(self.payload);
    }
}

/// Ping request: an arbitrary 64-bit payload the server must echo exactly.
#[derive(Debug, Clone, Copy)]
pub struct C2SPingPacket {
    pub payload: i64,
}

impl C2SPingPacket {
    /// Decode a ping body: one big-endian signed 64-bit payload.
    pub fn from_buffer(buf: &mut Buffer) -> (r: Result<C2SPingPacket, BufferError>)
        requires
            old(buf).wf(),
        ensures
            final(buf).wf(),
            old(buf)@.len() >= 8 ==> (r matches Ok(p) && p.payload as int == as_i64(
                be_bytes(old(buf)@.take(8)),
            ) && final(buf)@ == old(buf)@.skip(8)),
            old(buf)@.len() < 8 ==> (r matches Err(e) && e == (BufferError::OutOfBounds {
                want: 8,
                remaining: (old(buf)@.len() as usize),
            }) && final(buf)@ == old(buf)@),
    {
        let payload: i64 = match buf.read_i64() {
            Ok(v) => v,
            Err(e) => {
                return Err(e);
            },
        };
        Ok(C2SPingPacket { payload })
    }
}

} // verus!
