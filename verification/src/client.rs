//! The per-connection state machine. A connection owns one inbound buffer
//! and one negotiation phase; `ingest` appends newly received bytes, then
//! repeatedly extracts complete length-prefixed frames and dispatches each by
//! (phase, packet ID). Extraction is two-phase: nothing is consumed until the
//! whole frame has arrived, so a length or ID split across socket reads is
//! simply retried when more bytes come.
//!
//! The whole operation is specified by the ghost interpreter `spec_run`,
//! which maps the phase and the buffered byte stream to the sequence of frame
//! results, the final phase, and the leftover bytes — or to the first fatal
//! failure.

use vstd::prelude::*;

use crate::buffer::as_i64;
use crate::buffer::be_bytes;
use crate::buffer::vi_err;
use crate::buffer::Buffer;
use crate::buffer::BufferError;
use crate::packet::spec_decode_handshake;
use crate::packet::spec_pong_body;
use crate::packet::spec_status_response_body;
use crate::packet::C2SHandshakePacket;
use crate::packet::C2SPingPacket;
use crate::packet::S2CPingPacket;
use crate::packet::S2CStatusResponsePacket;
use crate::packet::SpecHandshake;
use crate::packet::SpecHandshakeResult;
use crate::varint::lemma_var_int_round_trip;
use crate::varint::lemma_vi_append;
use crate::varint::lemma_vi_cases;
use crate::varint::spec_var_int;
use crate::varint::vi_nbytes;
use crate::varint::vi_ok;
use crate::varint::vi_too_long;
use crate::varint::vi_value;

verus! {

/// Negotiation phase of a connection. Every connection starts in
/// `Handshaking`; a valid handshake moves it to `Status` or `Login`. `Play`
/// is declared for the protocol's later phases, which no packet of this
/// family enters.
#[derive(Debug, Clone, Copy, PartialEq, Eq, Structural)]
pub enum ClientState {
    Handshaking,
    Play,
    Status,
    Login,
}

/// The ways frame processing can fail. Each of them ends the connection.
#[derive(Debug)]
pub enum ClientError {
    /// A confirmed-complete frame failed to decode: its length lied, a
    /// VarInt overran, a string was malformed.
    PacketDecodeError(BufferError),
    /// The stream is well-formed but violates the protocol's rules.
    LogicError(String),
}

/// Ghost image of a decoded packet.
pub enum SpecPacket {
    Handshake(SpecHandshake),
    StatusRequest,
    Ping(int),
    Unknown(int),
}

/// Ghost image of an outbound packet.
pub enum SpecOutbound {
    StatusResponse(Seq<char>),
    Pong(int),
}

/// Ghost image of one processed frame: the packet it decoded to, the phase
/// change it requested, and the responses it elicited.
pub struct SpecFrameResult {
    pub packet: SpecPacket,
    pub new_state: Option<ClientState>,
    pub responses: Seq<SpecOutbound>,
}

/// Outcome of dispatching one frame payload.
pub enum SpecStep {
    Handled(SpecFrameResult),
    DecodeFailed(BufferError),
    BadNextState(int),
}

/// The failures that end a run.
pub enum SpecFailure {
    Decode(BufferError),
    BadFrameLength(int),
    BadNextState(int),
}

/// Outcome of running the state machine over a byte stream.
pub enum SpecRun {
    Done { results: Seq<SpecFrameResult>, state: ClientState, leftover: Seq<u8> },
    Failed { state: ClientState, failure: SpecFailure, leftover: Seq<u8> },
}

/// A complete frame stands at the front of `s`: a non-negative VarInt length
/// whose full payload has arrived.
pub open spec fn frame_complete(s: Seq<u8>) -> bool {
    vi_ok(s) && vi_value(s) >= 0 && vi_value(s) <= s.len() - vi_nbytes(s)
}

/// The payload of the frame at the front of `s`.
pub open spec fn frame_payload(s: Seq<u8>) -> Seq<u8> {
    s.skip(vi_nbytes(s)).take(vi_value(s))
}

/// What remains of `s` behind the frame at its front.
pub open spec fn frame_rest(s: Seq<u8>) -> Seq<u8> {
    s.skip(vi_nbytes(s) + vi_value(s))
}

/// The pairs (phase, packet ID) this family dispatches.
pub open spec fn known_packet(st: ClientState, id: int) -> bool {
    ||| (st is Handshaking && id == 0)
    ||| (st is Status && id == 0)
    ||| (st is Status && id == 1)
}

/// Dispatch of one frame payload `p` in phase `st`: read the packet ID
/// VarInt, then decode the body as the packet that (phase, ID) names.
/// An unknown pair is reported, not fatal. `json` is the status document
/// served on a status request.
pub open spec fn spec_step(st: ClientState, p: Seq<u8>, json: Seq<char>) -> SpecStep {
    if !vi_ok(p) {
        SpecStep::DecodeFailed(vi_err(p))
    } else {
        let id = vi_value(p);
        let body = p.skip(vi_nbytes(p));
        if st is Handshaking && id == 0 {
            match spec_decode_handshake(body) {
                SpecHandshakeResult::Failed { err, used } => SpecStep::DecodeFailed(err),
                SpecHandshakeResult::Decoded { packet, used } => {
                    if packet.next_state == 1 {
                        SpecStep::Handled(
                            SpecFrameResult {
                                packet: SpecPacket::Handshake(packet),
                                new_state: Some(ClientState::Status),
                                responses: Seq::empty(),
                            },
                        )
                    } else if packet.next_state == 2 {
                        SpecStep::Handled(
                            SpecFrameResult {
                                packet: SpecPacket::Handshake(packet),
                                new_state: Some(ClientState::Login),
                                responses: Seq::empty(),
                            },
                        )
                    } else {
                        SpecStep::BadNextState(packet.next_state)
                    }
                },
            }
        } else if st is Status && id == 0 {
            SpecStep::Handled(
                SpecFrameResult {
                    packet: SpecPacket::StatusRequest,
                    new_state: None,
                    responses: seq![SpecOutbound::StatusResponse(json)],
                },
            )
        } else if st is Status && id == 1 {
            if body.len() < 8 {
                SpecStep::DecodeFailed(
                    (BufferError::OutOfBounds { want: 8, remaining: body.len() as usize }),
                )
            } else {
                let v = as_i64(be_bytes(body.take(8)));
                SpecStep::Handled(
                    SpecFrameResult {
                        packet: SpecPacket::Ping(v),
                        new_state: None,
                        responses: seq![SpecOutbound::Pong(v)],
                    },
                )
            }
        } else {
            SpecStep::Handled(
                SpecFrameResult {
                    packet: SpecPacket::Unknown(id),
                    new_state: None,
                    responses: Seq::empty(),
                },
            )
        }
    }
}

/// Run the state machine over the byte stream `s` from phase `st`: extract
/// and dispatch complete frames until none is left or a failure ends the
/// run. Missing bytes are never a failure: the run ends with what arrived so
/// far left over, to be retried when more bytes come.
pub open spec fn spec_run(st: ClientState, s: Seq<u8>, json: Seq<char>) -> SpecRun
    decreases s.len(),
{
    if frame_complete(s) {
        let p = frame_payload(s);
        let rest = frame_rest(s);
        match spec_step(st, p, json) {
            SpecStep::DecodeFailed(e) => SpecRun::Failed {
                state: st,
                failure: SpecFailure::Decode(e),
                leftover: rest,
            },
            SpecStep::BadNextState(ns) => SpecRun::Failed {
                state: st,
                failure: SpecFailure::BadNextState(ns),
                leftover: rest,
            },
            SpecStep::Handled(fr) => {
                let st2 = match fr.new_state {
                    Some(s2) => s2,
                    None => st,
                };
                match spec_run(st2, rest, json) {
                    SpecRun::Done { results, state, leftover } => SpecRun::Done {
                        results: seq![fr] + results,
                        state,
                        leftover,
                    },
                    SpecRun::Failed { state, failure, leftover } => SpecRun::Failed {
                        state,
                        failure,
                        leftover,
                    },
                }
            },
        }
    } else if vi_too_long(s) {
        SpecRun::Failed {
            state: st,
            failure: SpecFailure::Decode(
                (BufferError::InvalidVarIntSize { position: 35, limit: 32 }),
            ),
            leftover: s,
        }
    } else if vi_ok(s) && vi_value(s) < 0 {
        SpecRun::Failed { state: st, failure: SpecFailure::BadFrameLength(vi_value(s)), leftover: s }
    } else {
        SpecRun::Done { results: Seq::empty(), state: st, leftover: s }
    }
}

/// The connection error that reports a given run failure.
pub open spec fn failure_matches(e: ClientError, f: SpecFailure) -> bool {
    match f {
        SpecFailure::Decode(be) => e matches ClientError::PacketDecodeError(b2) && b2 == be,
        SpecFailure::BadFrameLength(_) => e matches ClientError::LogicError(m) && m@
            == "negative frame length"@,
        SpecFailure::BadNextState(_) => e matches ClientError::LogicError(m) && m@
            == "invalid next_state"@,
    }
}

/// A packet decoded from one inbound frame.
#[derive(Debug)]
pub enum DecodedPacket {
    Handshake(C2SHandshakePacket),
    StatusRequest,
    Ping(C2SPingPacket),
    /// A packet ID with no decoder in the current phase: reported and
    /// discarded, never fatal.
    Unknown { packet_id: i32 },
}

impl View for DecodedPacket {
    type V = SpecPacket;

    open spec fn view(&self) -> SpecPacket {
        match self {
            DecodedPacket::Handshake(p) => SpecPacket::Handshake(
                SpecHandshake {
                    protocol_version: p.protocol_version as int,
                    server_address: p.server_address@,
                    server_port: p.server_port as int,
                    next_state: p.next_state as int,
                },
            ),
            DecodedPacket::StatusRequest => SpecPacket::StatusRequest,
            DecodedPacket::Ping(p) => SpecPacket::Ping(p.payload as int),
            DecodedPacket::Unknown { packet_id } => SpecPacket::Unknown(*packet_id as int),
        }
    }
}

/// A packet owed to the peer in response to an inbound one.
#[derive(Debug)]
pub enum OutboundPacket {
    StatusResponse(S2CStatusResponsePacket),
    Pong(S2CPingPacket),
}

impl View for OutboundPacket {
    type V = SpecOutbound;

    open spec fn view(&self) -> SpecOutbound {
        match self {
            OutboundPacket::StatusResponse(p) => SpecOutbound::StatusResponse(p.json_response@),
            OutboundPacket::Pong(p) => SpecOutbound::Pong(p.payload as int),
        }
    }
}

/// One processed frame: the packet it decoded to, the phase change it
/// requested, and the responses it elicited, in sending order.
#[derive(Debug)]
pub struct FrameResult {
    pub packet: DecodedPacket,
    pub new_state: Option<ClientState>,
    pub responses: Vec<OutboundPacket>,
}

impl View for FrameResult {
    type V = SpecFrameResult;

    open spec fn view(&self) -> SpecFrameResult {
        SpecFrameResult {
            packet: self.packet@,
            new_state: self.new_state,
            responses: self.responses@.map_values(|p: OutboundPacket| p@),
        }
    }
}

/// The body bytes of an outbound packet.
pub open spec fn spec_outbound_body(p: SpecOutbound) -> Seq<u8> {
    match p {
        SpecOutbound::StatusResponse(json) => spec_status_response_body(json),
        SpecOutbound::Pong(v) => spec_pong_body(v as i64),
    }
}

/// The packet's body fits behind a 32-bit length prefix.
pub open spec fn spec_outbound_fits(p: SpecOutbound) -> bool {
    spec_outbound_body(p).len() <= 0x7fff_ffff
}

/// The complete frame an outbound packet is sent as: the VarInt length of
/// the body, then the body.
pub open spec fn spec_frame_bytes(p: SpecOutbound) -> Seq<u8> {
    spec_var_int(spec_outbound_body(p).len() as i32) + spec_outbound_body(p)
}

impl OutboundPacket {
    /// Serialize as one complete frame: the body is encoded first, then the
    /// total-length VarInt is prepended, since the length is only known once
    /// the body is done.
    pub fn to_frame(&self) -> (b: Buffer)
        requires
            spec_outbound_fits(self@),
        ensures
            b.wf(),
            b@ == spec_frame_bytes(self@),
    {
        let mut body = Buffer::new();
        match self {
            OutboundPacket::StatusResponse(p) => p.to_buffer(&mut body),
            OutboundPacket::Pong(p) => p.to_buffer(&mut body),
        }
        let mut prefix = Buffer::new();
        let body_len: usize = body.remaining();
        prefix.write_var_int(body_len as i32);
        body.prepend_buffer(&mut prefix);
        body
    }
}

/// Ghost image of a connection: its phase, its buffered inbound bytes, and
/// the status document it serves.
pub struct ClientView {
    pub state: ClientState,
    pub inbound: Seq<u8>,
    pub status_json: Seq<char>,
}

/// `r` and the state change from `pre` to `post` are what running the state
/// machine over `input` prescribes.
pub open spec fn run_outcome_matches(
    pre: ClientView,
    input: Seq<u8>,
    r: Result<Vec<FrameResult>, ClientError>,
    post: ClientView,
) -> bool {
    match spec_run(pre.state, input, pre.status_json) {
        SpecRun::Done { results, state, leftover } => {
            &&& r matches Ok(v) && v@.map_values(|fr: FrameResult| fr@) == results
            &&& post.state == state
            &&& post.inbound == leftover
        },
        SpecRun::Failed { state, failure, leftover } => {
            &&& r matches Err(e) && failure_matches(e, failure)
            &&& post.state == state
            &&& post.inbound == leftover
        },
    }
}

/// One connection's protocol state: its negotiation phase, the inbound bytes
/// received but not yet framed, and the status document it serves on a
/// status request.
pub struct Client {
    state: ClientState,
    buf: Buffer,
    status_json: String,
}

impl View for Client {
    type V = ClientView;

    closed spec fn view(&self) -> ClientView {
        ClientView { state: self.state, inbound: self.buf@, status_json: self.status_json@ }
    }
}

impl Client {
    /// Well-formed: the inbound buffer is.
    pub closed spec fn wf(&self) -> bool {
        self.buf.wf()
    }

    /// A fresh connection: Handshaking phase, nothing buffered, serving the
    /// given status document.
    pub fn new(status_json: String) -> (c: Client)
        ensures
            c.wf(),
            c@.state is Handshaking,
            c@.inbound == Seq::<u8>::empty(),
            c@.status_json == status_json@,
    {
        Client { state: ClientState::Handshaking, buf: Buffer::new(), status_json }
    }

    /// Current negotiation phase.
    pub fn state(&self) -> (s: ClientState)
        ensures
            s == self@.state,
    {
        self.state
    }

    /// Decode one complete frame's payload against the current phase:
    /// read the packet ID, decode the body as the packet that (phase, ID)
    /// names, and return the result. A requested phase change is reported,
    /// not yet applied.
    pub fn process_frame(&self, payload: Buffer) -> (r: Result<FrameResult, ClientError>)
        requires
            payload.wf(),
        ensures
            match spec_step(self@.state, payload@, self@.status_json) {
                SpecStep::Handled(fr) => r matches Ok(res) && res@ == fr,
                SpecStep::DecodeFailed(be) => r matches Err(e) && e matches
                    ClientError::PacketDecodeError(b2) && b2 == be,
                SpecStep::BadNextState(ns) => r matches Err(e) && e matches
                    ClientError::LogicError(m) && m@ == "invalid next_state"@,
            },
    {
        let ghost p = payload.view();
        let mut payload = payload;
        let packet_id: i32 = match payload.read_var_int() {
            Ok(v) => v,
            Err(e) => {
                proof {
                    lemma_vi_cases(p);
                }
                return Err(ClientError::PacketDecodeError(e));
            },
        };
        if self.state == ClientState::Handshaking && packet_id == 0x00 {
            let hs = match C2SHandshakePacket::from_buffer(&mut payload) {
                Ok(h) => h,
                Err(e) => {
                    return Err(ClientError::PacketDecodeError(e));
                },
            };
            let responses: Vec<OutboundPacket> = Vec::new();
            proof {
                assert(responses@.map_values(|q: OutboundPacket| q@) =~= Seq::<
                    SpecOutbound,
                >::empty());
            }
            if hs.next_state == 1 {
                Ok(
                    FrameResult {
                        packet: DecodedPacket::Handshake(hs),
                        new_state: Some(ClientState::Status),
                        responses,
                    },
                )
            } else if hs.next_state == 2 {
                Ok(
                    FrameResult {
                        packet: DecodedPacket::Handshake(hs),
                        new_state: Some(ClientState::Login),
                        responses,
                    },
                )
            } else {
                Err(ClientError::LogicError("invalid next_state".to_owned()))
            }
        } else if self.state == ClientState::Status && packet_id == 0x00 {
            let resp = S2CStatusResponsePacket { json_response: self.status_json.clone() };
            let mut responses: Vec<OutboundPacket> = Vec::new();
            responses.push(OutboundPacket::StatusResponse(resp));
            proof {
                assert(responses@.map_values(|q: OutboundPacket| q@) =~= seq![
                    SpecOutbound::StatusResponse(self@.status_json),
                ]);
            }
            Ok(FrameResult { packet: DecodedPacket::StatusRequest, new_state: None, responses })
        } else if self.state == ClientState::Status && packet_id == 0x01 {
            let ping = match C2SPingPacket::from_buffer(&mut payload) {
                Ok(pk) => pk,
                Err(e) => {
                    return Err(ClientError::PacketDecodeError(e));
                },
            };
            let mut responses: Vec<OutboundPacket> = Vec::new();
            responses.push(OutboundPacket::Pong(S2CPingPacket { payload: ping.payload }));
            proof {
                assert(responses@.map_values(|q: OutboundPacket| q@) =~= seq![
                    SpecOutbound::Pong(ping.payload as int),
                ]);
            }
            Ok(FrameResult { packet: DecodedPacket::Ping(ping), new_state: None, responses })
        } else {
            let responses: Vec<OutboundPacket> = Vec::new();
            proof {
                assert(responses@.map_values(|q: OutboundPacket| q@) =~= Seq::<
                    SpecOutbound,
                >::empty());
            }
            Ok(
                FrameResult {
                    packet: DecodedPacket::Unknown { packet_id },
                    new_state: None,
                    responses,
                },
            )
        }
    }

    /// Extract and dispatch every complete frame already buffered, in
    /// arrival order. Insufficient bytes for the next frame end the call
    /// normally — the leftover is kept for the next `ingest`. A failure ends
    /// it with the error the run prescribes, the failing frame consumed and
    /// the phase unchanged by that frame.
    pub fn process_packets(&mut self) -> (r: Result<Vec<FrameResult>, ClientError>)
        requires
            old(self).wf(),
        ensures
            final(self).wf(),
            final(self)@.status_json == old(self)@.status_json,
            run_outcome_matches(old(self)@, old(self)@.inbound, r, final(self)@),
    {
        let mut results: Vec<FrameResult> = Vec::new();
        proof {
            assert(results@.map_values(|fr: FrameResult| fr@) =~= Seq::<SpecFrameResult>::empty());
        }
        loop
            invariant_except_break
                self.wf(),
                self@.status_json == old(self)@.status_json,
                ({
                    let rs = results@.map_values(|fr: FrameResult| fr@);
                    match spec_run(self@.state, self@.inbound, self@.status_json) {
                        SpecRun::Done { results: r2, state, leftover } => spec_run(
                            old(self)@.state,
                            old(self)@.inbound,
                            old(self)@.status_json,
                        ) == (SpecRun::Done { results: rs + r2, state, leftover }),
                        SpecRun::Failed { state, failure, leftover } => spec_run(
                            old(self)@.state,
                            old(self)@.inbound,
                            old(self)@.status_json,
                        ) == (SpecRun::Failed { state, failure, leftover }),
                    }
                }),
            ensures
                self.wf(),
                self@.status_json == old(self)@.status_json,
                spec_run(old(self)@.state, old(self)@.inbound, old(self)@.status_json)
                    == (SpecRun::Done {
                    results: results@.map_values(|fr: FrameResult| fr@),
                    state: self@.state,
                    leftover: self@.inbound,
                }),
            decreases self@.inbound.len(),
        {
            let ghost s = self.buf.view();
            let ghost rs_before = results@.map_values(|fr: FrameResult| fr@);
            let (length, n): (i32, usize) = match self.buf.peek_var_int() {
                Ok(pair) => pair,
                Err(e) => {
                    proof {
                        lemma_vi_cases(s);
                    }
                    match e {
                        BufferError::OutOfBounds { .. } => {
                            break ;
                        },
                        _ => {
                            return Err(ClientError::PacketDecodeError(e));
                        },
                    }
                },
            };
            if length < 0 {
                return Err(ClientError::LogicError("negative frame length".to_owned()));
            }
            let length_us: usize = length as usize;
            let avail: usize = self.buf.remaining();
            if avail - n < length_us {
                proof {
                    lemma_vi_cases(s);
                }
                break ;
            }
            match self.buf.read_var_int() {
                Ok(_) => {},
                Err(e) => {
                    proof {
                        assert(false);
                    }
                    return Err(ClientError::PacketDecodeError(e));
                },
            }
            let payload: Buffer = match self.buf.read_buffer(length_us) {
                Ok(b) => b,
                Err(e) => {
                    proof {
                        assert(false);
                    }
                    return Err(ClientError::PacketDecodeError(e));
                },
            };
            proof {
                assert(payload@ =~= frame_payload(s));
                assert(self.buf@ =~= frame_rest(s));
            }
            let fr: FrameResult = match self.process_frame(payload) {
                Ok(f) => f,
                Err(e) => {
                    return Err(e);
                },
            };
            match fr.new_state {
                Some(ns) => {
                    self.state = ns;
                },
                None => {},
            }
            results.push(fr);
            proof {
                let rs = results@.map_values(|f: FrameResult| f@);
                assert(rs =~= rs_before.push(fr@));
                match spec_run(self@.state, self@.inbound, self@.status_json) {
                    SpecRun::Done { results: r2, state, leftover } => {
                        assert(rs_before + (seq![fr@] + r2) =~= rs + r2);
                    },
                    SpecRun::Failed { .. } => {},
                }
            }
        }
        Ok(results)
    }

    /// Append newly received bytes to the inbound buffer, then extract and
    /// dispatch every complete frame, in arrival order.
    pub fn ingest(&mut self, bytes: &[u8]) -> (r: Result<Vec<FrameResult>, ClientError>)
        requires
            old(self).wf(),
        ensures
            final(self).wf(),
            final(self)@.status_json == old(self)@.status_json,
            run_outcome_matches(old(self)@, old(self)@.inbound + bytes@, r, final(self)@),
    {
        self.buf.push_slice(bytes);
        self.process_packets()
    }
}

/// The frame results a run produced; empty when it failed.
pub open spec fn run_results(r: SpecRun) -> Seq<SpecFrameResult> {
    match r {
        SpecRun::Done { results, state, leftover } => results,
        SpecRun::Failed { state, failure, leftover } => Seq::empty(),
    }
}

/// The phase a run ended in.
pub open spec fn run_state(r: SpecRun) -> ClientState {
    match r {
        SpecRun::Done { results, state, leftover } => state,
        SpecRun::Failed { state, failure, leftover } => state,
    }
}

/// The bytes a run left unconsumed.
pub open spec fn run_leftover(r: SpecRun) -> Seq<u8> {
    match r {
        SpecRun::Done { results, state, leftover } => leftover,
        SpecRun::Failed { state, failure, leftover } => leftover,
    }
}

/// A complete frame at the front of `s` is unaffected by bytes appended
/// behind it: the same payload is extracted and the appended bytes join the
/// rest.
proof fn lemma_frame_append(s: Seq<u8>, t: Seq<u8>)
    requires
        frame_complete(s),
    ensures
        frame_complete(s + t),
        frame_payload(s + t) == frame_payload(s),
        frame_rest(s + t) == frame_rest(s) + t,
{
    lemma_vi_append(s, t);
    assert((s + t).skip(vi_nbytes(s)) =~= s.skip(vi_nbytes(s)) + t);
    assert((s + t).skip(vi_nbytes(s)).take(vi_value(s)) =~= s.skip(vi_nbytes(s)).take(
        vi_value(s),
    ));
    assert((s + t).skip(vi_nbytes(s) + vi_value(s)) =~= s.skip(vi_nbytes(s) + vi_value(s)) + t);
}

/// Law: frame reassembly. Feeding a byte stream in two pieces decodes the
/// same frames as feeding it whole: when the run over `s1` ends normally,
/// the run over `s1 + s2` is that run followed by the run over its leftover
/// with `s2` appended, their results concatenated. Splitting an encoded
/// frame at any point therefore yields the identical decoded packets.
#[verifier::rlimit(100)]
pub proof fn lemma_run_compose(st: ClientState, s1: Seq<u8>, s2: Seq<u8>, json: Seq<char>)
    requires
        spec_run(st, s1, json) is Done,
    ensures
        ({
            let first = spec_run(st, s1, json);
            let second = spec_run(run_state(first), run_leftover(first) + s2, json);
            match second {
                SpecRun::Done { results, state, leftover } => spec_run(st, s1 + s2, json)
                    == (SpecRun::Done { results: run_results(first) + results, state, leftover }),
                SpecRun::Failed { state, failure, leftover } => spec_run(st, s1 + s2, json)
                    == (SpecRun::Failed { state, failure, leftover }),
            }
        }),
    decreases s1.len(),
{
    let first = spec_run(st, s1, json);
    if !frame_complete(s1) {
        assert(first == (SpecRun::Done {
            results: Seq::<SpecFrameResult>::empty(),
            state: st,
            leftover: s1,
        }));
        assert(run_leftover(first) + s2 =~= s1 + s2);
        let second = spec_run(run_state(first), run_leftover(first) + s2, json);
        assert(second == spec_run(st, s1 + s2, json));
        match second {
            SpecRun::Done { results, state, leftover } => {
                assert(run_results(first) + results =~= results);
            },
            SpecRun::Failed { state, failure, leftover } => {},
        }
    } else {
        lemma_frame_append(s1, s2);
        let p = frame_payload(s1);
        let rest1 = frame_rest(s1);
        match spec_step(st, p, json) {
            SpecStep::DecodeFailed(e) => {
                assert(false);
            },
            SpecStep::BadNextState(ns) => {
                assert(false);
            },
            SpecStep::Handled(fr) => {
                let st2 = match fr.new_state {
                    Some(x) => x,
                    None => st,
                };
                let inner1 = spec_run(st2, rest1, json);
                assert(inner1 is Done);
                lemma_run_compose(st2, rest1, s2, json);
                let second = spec_run(run_state(first), run_leftover(first) + s2, json);
                assert(run_state(first) == run_state(inner1));
                assert(run_leftover(first) == run_leftover(inner1));
                assert(spec_run(st, s1 + s2, json) == (match spec_run(st2, rest1 + s2, json) {
                    SpecRun::Done { results, state, leftover } => SpecRun::Done {
                        results: seq![fr] + results,
                        state,
                        leftover,
                    },
                    SpecRun::Failed { state, failure, leftover } => SpecRun::Failed {
                        state,
                        failure,
                        leftover,
                    },
                }));
                match second {
                    SpecRun::Done { results, state, leftover } => {
                        assert(run_results(first) =~= seq![fr] + run_results(inner1));
                        assert(seq![fr] + (run_results(inner1) + results) =~= run_results(first)
                            + results);
                    },
                    SpecRun::Failed { state, failure, leftover } => {},
                }
            },
        }
    }
}

/// Law: handshake transition. In the Handshaking phase a well-formed
/// handshake frame moves the connection to Status when it asks for state 1
/// and to Login when it asks for state 2; any other value fails the run
/// with a logic failure that leaves the phase unchanged.
pub proof fn lemma_handshake_transition(
    s: Seq<u8>,
    json: Seq<char>,
    hs: SpecHandshake,
    used: int,
)
    requires
        frame_complete(s),
        vi_ok(frame_payload(s)),
        vi_value(frame_payload(s)) == 0,
        spec_decode_handshake(frame_payload(s).skip(vi_nbytes(frame_payload(s))))
            == (SpecHandshakeResult::Decoded { packet: hs, used }),
    ensures
        hs.next_state == 1 ==> spec_step(ClientState::Handshaking, frame_payload(s), json)
            == SpecStep::Handled(
            (SpecFrameResult {
                packet: SpecPacket::Handshake(hs),
                new_state: Some(ClientState::Status),
                responses: Seq::empty(),
            }),
        ),
        hs.next_state == 2 ==> spec_step(ClientState::Handshaking, frame_payload(s), json)
            == SpecStep::Handled(
            (SpecFrameResult {
                packet: SpecPacket::Handshake(hs),
                new_state: Some(ClientState::Login),
                responses: Seq::empty(),
            }),
        ),
        hs.next_state != 1 && hs.next_state != 2 ==> spec_run(ClientState::Handshaking, s, json)
            == (SpecRun::Failed {
            state: ClientState::Handshaking,
            failure: SpecFailure::BadNextState(hs.next_state),
            leftover: frame_rest(s),
        }),
{
}

/// Law: ping echo. Whenever a Status-phase frame decodes as a ping, its one
/// response is a pong carrying exactly the ping's payload, whatever 64-bit
/// value that is.
pub proof fn lemma_ping_echo(p: Seq<u8>, json: Seq<char>, v: int)
    requires
        spec_step(ClientState::Status, p, json) matches SpecStep::Handled(fr) && fr.packet
            == SpecPacket::Ping(v),
    ensures
        ({
            let step = spec_step(ClientState::Status, p, json);
            step matches SpecStep::Handled(fr) && fr.responses == seq![SpecOutbound::Pong(v)]
                && fr.new_state is None
        }),
{
}

/// Law: an unknown packet ID is harmless. A frame whose (phase, ID) pair has
/// no decoder is reported as unknown — no failure, no phase change, no
/// response — and the run continues with the frames behind it.
pub proof fn lemma_unknown_packet_harmless(st: ClientState, s: Seq<u8>, json: Seq<char>)
    requires
        frame_complete(s),
        vi_ok(frame_payload(s)),
        !known_packet(st, vi_value(frame_payload(s))),
    ensures
        spec_step(st, frame_payload(s), json) == SpecStep::Handled(
            (SpecFrameResult {
                packet: SpecPacket::Unknown(vi_value(frame_payload(s))),
                new_state: None,
                responses: Seq::empty(),
            }),
        ),
        spec_run(st, s, json) == (match spec_run(st, frame_rest(s), json) {
            SpecRun::Done { results, state, leftover } => SpecRun::Done {
                results: seq![
                    (SpecFrameResult {
                        packet: SpecPacket::Unknown(vi_value(frame_payload(s))),
                        new_state: None,
                        responses: Seq::empty(),
                    }),
                ] + results,
                state,
                leftover,
            },
            SpecRun::Failed { state, failure, leftover } => SpecRun::Failed {
                state,
                failure,
                leftover,
            },
        }),
{
}

/// Law: the wire format is self-consistent. The frame an outbound packet is
/// sent as parses back as exactly one complete frame whose payload is the
/// packet's body, with nothing behind it.
pub proof fn lemma_outbound_frame_parses(p: SpecOutbound)
    requires
        spec_outbound_fits(p),
    ensures
        frame_complete(spec_frame_bytes(p)),
        frame_payload(spec_frame_bytes(p)) == spec_outbound_body(p),
        frame_rest(spec_frame_bytes(p)) == Seq::<u8>::empty(),
{
    let body = spec_outbound_body(p);
    let len = body.len() as i32;
    let prefix = spec_var_int(len);
    lemma_var_int_round_trip(len);
    lemma_vi_append(prefix, body);
    let f = spec_frame_bytes(p);
    assert(vi_nbytes(f) == prefix.len());
    assert(f.skip(prefix.len() as int) =~= body);
    assert(frame_payload(f) =~= body);
    assert(frame_rest(f) =~= Seq::<u8>::empty());
}

} // verus!
