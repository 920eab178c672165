use minecrust::buffer::Buffer;
use minecrust::buffer::BufferError;
use minecrust::client::Client;
use minecrust::client::ClientError;
use minecrust::client::ClientState;
use minecrust::client::DecodedPacket;
use minecrust::client::FrameResult;
use minecrust::client::OutboundPacket;

const STATUS_JSON: &str = "{\"version\":{\"name\":\"1.19\",\"protocol\":754}}";

fn drain(b: &mut Buffer) -> Vec<u8> {
    let n = b.remaining();
    b.read_bytes(n).unwrap()
}

fn frame(body: &[u8]) -> Vec<u8> {
    let mut f = Buffer::new();
    f.write_var_int(body.len() as i32);
    f.push_slice(body);
    drain(&mut f)
}

fn handshake_frame(pv: i32, addr: &str, port: u16, next_state: i32) -> Vec<u8> {
    let mut body = Buffer::new();
    body.write_var_int(0x00);
    body.write_var_int(pv);
    body.write_string(addr);
    body.write_u16(port);
    body.write_var_int(next_state);
    let bytes = drain(&mut body);
    frame(&bytes)
}

fn ping_frame(payload: i64) -> Vec<u8> {
    let mut body = Buffer::new();
    body.write_var_int(0x01);
    body.write_i64(payload);
    let bytes = drain(&mut body);
    frame(&bytes)
}

fn status_request_frame() -> Vec<u8> {
    frame(&[0x00])
}

fn fresh_client() -> Client {
    Client::new(STATUS_JSON.to_string())
}

fn status_client() -> Client {
    let mut c = fresh_client();
    let r = c.ingest(&handshake_frame(754, "localhost", 25565, 1)).unwrap();
    assert_eq!(r.len(), 1);
    assert_eq!(c.state(), ClientState::Status);
    c
}

#[test]
fn new_client_starts_handshaking() {
    let c = fresh_client();
    assert_eq!(c.state(), ClientState::Handshaking);
}

#[test]
fn empty_ingest_produces_nothing() {
    let mut c = fresh_client();
    let r = c.ingest(&[]).unwrap();
    assert!(r.is_empty());
    assert_eq!(c.state(), ClientState::Handshaking);
}

#[test]
fn handshake_next_state_one_moves_to_status() {
    let mut c = fresh_client();
    let r = c.ingest(&handshake_frame(754, "play.example.net", 25565, 1)).unwrap();
    assert_eq!(r.len(), 1);
    match &r[0].packet {
        DecodedPacket::Handshake(h) => {
            assert_eq!(h.protocol_version, 754);
            assert_eq!(h.server_address, "play.example.net");
            assert_eq!(h.server_port, 25565);
            assert_eq!(h.next_state, 1);
        }
        other => panic!("expected a handshake, got {:?}", other),
    }
    assert_eq!(r[0].new_state, Some(ClientState::Status));
    assert!(r[0].responses.is_empty());
    assert_eq!(c.state(), ClientState::Status);
}

#[test]
fn handshake_next_state_two_moves_to_login() {
    let mut c = fresh_client();
    c.ingest(&handshake_frame(47, "example.org", 1025, 2)).unwrap();
    assert_eq!(c.state(), ClientState::Login);
}

#[test]
fn handshake_next_state_three_is_a_logic_error_and_state_stays() {
    let mut c = fresh_client();
    let r = c.ingest(&handshake_frame(754, "example.org", 25565, 3));
    assert!(matches!(r, Err(ClientError::LogicError(_))));
    assert_eq!(c.state(), ClientState::Handshaking);
}

#[test]
fn handshake_next_state_zero_is_a_logic_error() {
    let mut c = fresh_client();
    let r = c.ingest(&handshake_frame(754, "example.org", 25565, 0));
    assert!(matches!(r, Err(ClientError::LogicError(_))));
    assert_eq!(c.state(), ClientState::Handshaking);
}

fn assert_same_results(a: &[FrameResult], b: &[FrameResult]) {
    assert_eq!(a.len(), b.len());
    for (x, y) in a.iter().zip(b.iter()) {
        assert_eq!(x.new_state, y.new_state);
        match (&x.packet, &y.packet) {
            (DecodedPacket::Handshake(p), DecodedPacket::Handshake(q)) => {
                assert_eq!(p.protocol_version, q.protocol_version);
                assert_eq!(p.server_address, q.server_address);
                assert_eq!(p.server_port, q.server_port);
                assert_eq!(p.next_state, q.next_state);
            }
            (DecodedPacket::StatusRequest, DecodedPacket::StatusRequest) => {}
            (DecodedPacket::Ping(p), DecodedPacket::Ping(q)) => {
                assert_eq!(p.payload, q.payload)
            }
            (
                DecodedPacket::Unknown { packet_id: p },
                DecodedPacket::Unknown { packet_id: q },
            ) => assert_eq!(p, q),
            (p, q) => panic!("packets differ: {:?} vs {:?}", p, q),
        }
        assert_eq!(x.responses.len(), y.responses.len());
        for (rx, ry) in x.responses.iter().zip(y.responses.iter()) {
            match (rx, ry) {
                (OutboundPacket::Pong(p), OutboundPacket::Pong(q)) => {
                    assert_eq!(p.payload, q.payload)
                }
                (OutboundPacket::StatusResponse(p), OutboundPacket::StatusResponse(q)) => {
                    assert_eq!(p.json_response, q.json_response)
                }
                (p, q) => panic!("responses differ: {:?} vs {:?}", p, q),
            }
        }
    }
}

#[test]
fn frame_reassembly_handshake_split_at_every_offset() {
    let bytes = handshake_frame(754, "split.example.net", 25565, 1);
    let mut whole = fresh_client();
    let expected = whole.ingest(&bytes).unwrap();
    for split in 1..bytes.len() {
        let mut c = fresh_client();
        let first = c.ingest(&bytes[..split]).unwrap();
        assert!(first.is_empty(), "split {} decoded early", split);
        assert_eq!(c.state(), ClientState::Handshaking);
        let second = c.ingest(&bytes[split..]).unwrap();
        assert_same_results(&second, &expected);
        assert_eq!(c.state(), ClientState::Status);
    }
}

#[test]
fn frame_reassembly_byte_by_byte() {
    let bytes = ping_frame(-123456789);
    let mut whole = status_client();
    let expected = whole.ingest(&bytes).unwrap();
    let mut c = status_client();
    let mut collected: Vec<FrameResult> = Vec::new();
    for byte in &bytes {
        collected.extend(c.ingest(&[*byte]).unwrap());
    }
    assert_same_results(&collected, &expected);
}

#[test]
fn two_frames_in_one_read_are_processed_in_order() {
    let mut bytes = handshake_frame(754, "example.net", 25565, 1);
    bytes.extend_from_slice(&ping_frame(42));
    let mut c = fresh_client();
    let r = c.ingest(&bytes).unwrap();
    assert_eq!(r.len(), 2);
    assert!(matches!(r[0].packet, DecodedPacket::Handshake(_)));
    assert!(matches!(r[1].packet, DecodedPacket::Ping(p) if p.payload == 42));
    assert_eq!(c.state(), ClientState::Status);
}

#[test]
fn ping_echoes_exact_payload() {
    for payload in [0i64, -1, i64::MIN, i64::MAX, 42] {
        let mut c = status_client();
        let r = c.ingest(&ping_frame(payload)).unwrap();
        assert_eq!(r.len(), 1);
        assert!(matches!(r[0].packet, DecodedPacket::Ping(p) if p.payload == payload));
        assert_eq!(r[0].responses.len(), 1);
        match &r[0].responses[0] {
            OutboundPacket::Pong(p) => assert_eq!(p.payload, payload),
            other => panic!("expected a pong, got {:?}", other),
        }
    }
}

#[test]
fn pong_frame_bytes_echo_payload_big_endian() {
    let pong = match &status_client().ingest(&ping_frame(0x0102030405060708)).unwrap()[0]
        .responses[0]
    {
        OutboundPacket::Pong(p) => OutboundPacket::Pong(*p),
        other => panic!("expected a pong, got {:?}", other),
    };
    let mut f = pong.to_frame();
    assert_eq!(f.read_var_int(), Ok(9)); // frame length: ID byte + 8 payload bytes
    assert_eq!(f.read_var_int(), Ok(0x01)); // packet ID
    assert_eq!(f.read_i64(), Ok(0x0102030405060708));
    assert_eq!(f.remaining(), 0);
}

#[test]
fn status_request_elicits_the_configured_document() {
    let mut c = status_client();
    let r = c.ingest(&status_request_frame()).unwrap();
    assert_eq!(r.len(), 1);
    assert!(matches!(r[0].packet, DecodedPacket::StatusRequest));
    assert_eq!(r[0].new_state, None);
    assert_eq!(r[0].responses.len(), 1);
    let resp = match &r[0].responses[0] {
        OutboundPacket::StatusResponse(p) => p.json_response.clone(),
        other => panic!("expected a status response, got {:?}", other),
    };
    assert_eq!(resp, STATUS_JSON);
}

#[test]
fn status_response_frame_parses_back() {
    let mut c = status_client();
    let r = c.ingest(&status_request_frame()).unwrap();
    let out = match &r[0].responses[0] {
        OutboundPacket::StatusResponse(p) => {
            OutboundPacket::StatusResponse(minecrust::packet::S2CStatusResponsePacket {
                json_response: p.json_response.clone(),
            })
        }
        other => panic!("expected a status response, got {:?}", other),
    };
    let mut f = out.to_frame();
    let len = f.read_var_int().unwrap();
    assert_eq!(len as usize, f.remaining());
    let mut body = f.read_buffer(len as usize).unwrap();
    assert_eq!(body.read_var_int(), Ok(0x00));
    assert_eq!(body.read_string(), Ok(STATUS_JSON.to_string()));
    assert_eq!(body.remaining(), 0);
}

#[test]
fn unknown_packet_id_is_reported_not_fatal() {
    let mut c = status_client();
    let r = c.ingest(&frame(&[0x7f])).unwrap();
    assert_eq!(r.len(), 1);
    assert!(matches!(r[0].packet, DecodedPacket::Unknown { packet_id: 0x7f }));
    assert_eq!(r[0].new_state, None);
    assert!(r[0].responses.is_empty());
    assert_eq!(c.state(), ClientState::Status);
    // the next valid frame is still processed correctly
    let r = c.ingest(&ping_frame(7)).unwrap();
    assert_eq!(r.len(), 1);
    assert!(matches!(r[0].packet, DecodedPacket::Ping(p) if p.payload == 7));
}

#[test]
fn unknown_id_and_valid_frame_in_one_read() {
    let mut c = status_client();
    let mut bytes = frame(&[0x7f, 0xaa, 0xbb]);
    bytes.extend_from_slice(&ping_frame(-5));
    let r = c.ingest(&bytes).unwrap();
    assert_eq!(r.len(), 2);
    assert!(matches!(r[0].packet, DecodedPacket::Unknown { packet_id: 0x7f }));
    assert!(matches!(r[1].packet, DecodedPacket::Ping(p) if p.payload == -5));
}

#[test]
fn negative_frame_length_is_a_logic_error() {
    let mut c = fresh_client();
    let mut b = Buffer::new();
    b.write_var_int(-1);
    let bytes = drain(&mut b);
    let r = c.ingest(&bytes);
    assert!(matches!(r, Err(ClientError::LogicError(_))));
}

#[test]
fn over_long_frame_length_var_int_is_fatal() {
    let mut c = fresh_client();
    let r = c.ingest(&[0x80, 0x80, 0x80, 0x80, 0x80, 0x01]);
    match r {
        Err(ClientError::PacketDecodeError(e)) => assert_eq!(
            e,
            BufferError::InvalidVarIntSize {
                position: 35,
                limit: 32
            }
        ),
        other => panic!("expected a decode error, got {:?}", other),
    }
}

#[test]
fn truncated_body_in_a_confirmed_frame_is_fatal() {
    // the frame announces one byte: just the handshake packet ID, no fields
    let mut c = fresh_client();
    let r = c.ingest(&frame(&[0x00]));
    match r {
        Err(ClientError::PacketDecodeError(e)) => assert_eq!(
            e,
            BufferError::OutOfBounds {
                want: 1,
                remaining: 0
            }
        ),
        other => panic!("expected a decode error, got {:?}", other),
    }
}

#[test]
fn invalid_utf8_server_address_is_fatal() {
    let mut body = Buffer::new();
    body.write_var_int(0x00); // packet ID
    body.write_var_int(754); // protocol version
    body.write_var_int(2); // string length
    body.push_slice(&[0xff, 0xfe]); // not UTF-8
    let mut tail = Buffer::new();
    tail.write_u16(25565);
    tail.write_var_int(1);
    let tail_bytes = drain(&mut tail);
    body.push_slice(&tail_bytes);
    let body_bytes = drain(&mut body);
    let mut c = fresh_client();
    let r = c.ingest(&frame(&body_bytes));
    match r {
        Err(ClientError::PacketDecodeError(e)) => {
            assert_eq!(e, BufferError::InvalidUTF8String)
        }
        other => panic!("expected a decode error, got {:?}", other),
    }
}

#[test]
fn partial_then_more_keeps_waiting_without_error() {
    let bytes = handshake_frame(754, "example.net", 25565, 1);
    let mut c = fresh_client();
    // length prefix only
    assert!(c.ingest(&bytes[..1]).unwrap().is_empty());
    // everything but the last byte
    assert!(c.ingest(&bytes[1..bytes.len() - 1]).unwrap().is_empty());
    assert_eq!(c.state(), ClientState::Handshaking);
    let r = c.ingest(&bytes[bytes.len() - 1..]).unwrap();
    assert_eq!(r.len(), 1);
    assert_eq!(c.state(), ClientState::Status);
}

#[test]
fn outbound_frame_feeds_back_as_one_complete_frame() {
    // a pong's frame, fed to a Status-phase parser, extracts as exactly one
    // frame: its ID reads as the ping ID and its payload comes back intact
    let mut c = status_client();
    let r = c.ingest(&ping_frame(-9_876_543_210)).unwrap();
    let pong = match &r[0].responses[0] {
        OutboundPacket::Pong(p) => OutboundPacket::Pong(*p),
        other => panic!("expected a pong, got {:?}", other),
    };
    let mut framed = pong.to_frame();
    let n = framed.remaining();
    let bytes = framed.read_bytes(n).unwrap();
    let mut parser = status_client();
    let r = parser.ingest(&bytes).unwrap();
    assert_eq!(r.len(), 1);
    assert!(matches!(r[0].packet, DecodedPacket::Ping(p) if p.payload == -9_876_543_210));
}
