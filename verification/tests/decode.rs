use bytes::BytesMut;
use dexdey::protocol::decode::{DecodedServerPacket, PacketDecoder};
use dexdey::protocol::error::ProtocolError;
use dexdey::protocol::packet::ClientPacket;
use dexdey::protocol::packets::status::{CPong, CResponse};
use dexdey::protocol::varint::{encode_varint, PacketReader, PacketWriter};
use dexdey::protocol::version::ProtocolVersion;
use dexdey::protocol::{ConnectionState, Direction};

fn encode_frame(packet_id: i32, payload: &[u8]) -> BytesMut {
    let mut data = Vec::new();
    encode_varint(&mut data, packet_id);
    data.extend_from_slice(payload);
    BytesMut::from(&data[..])
}

fn handshake_payload(protocol: i32, next_state: i32) -> Vec<u8> {
    let mut payload = Vec::new();
    encode_varint(&mut payload, protocol);
    encode_varint(&mut payload, 9);
    payload.extend_from_slice(b"localhost");
    payload.extend_from_slice(&[0x63, 0xDD]);
    encode_varint(&mut payload, next_state);
    payload
}

#[test]
fn test_decode_handshake_status() {
    let mut decoder = PacketDecoder::new();
    assert_eq!(decoder.state(), ConnectionState::Handshake);

    // Build handshake: protocol=767 (1.21), "localhost", port 25565, next_state=1 (status)
    let mut payload = Vec::new();
    encode_varint(&mut payload, 767); // protocol version
    encode_varint(&mut payload, 9); // "localhost".len()
    payload.extend_from_slice(b"localhost");
    payload.extend_from_slice(&[0x63, 0xDD]); // 25565 as u16 big-endian
    encode_varint(&mut payload, 1); // next state = status

    let frame = encode_frame(0x00, &payload);
    let pkt = decoder.decode_serverbound(&frame).unwrap();
    assert!(matches!(pkt, DecodedServerPacket::Handshake(_)));
    assert_eq!(decoder.state(), ConnectionState::Status);
    assert_eq!(decoder.version(), ProtocolVersion::V1_21);

    // Now decode status request
    let frame = encode_frame(0x00, &[]);
    let pkt = decoder.decode_serverbound(&frame).unwrap();
    assert!(matches!(pkt, DecodedServerPacket::StatusRequest(_)));

    // Decode ping
    let mut payload = Vec::new();
    payload.extend_from_slice(&42u64.to_be_bytes());
    let frame = encode_frame(0x01, &payload);
    let pkt = decoder.decode_serverbound(&frame).unwrap();
    assert!(matches!(pkt, DecodedServerPacket::StatusPing(_)));
}

#[test]
fn test_decode_handshake_login_unknown() {
    let mut decoder = PacketDecoder::new();

    // Handshake with next_state=2 (login)
    let mut payload = Vec::new();
    encode_varint(&mut payload, 767);
    encode_varint(&mut payload, 9);
    payload.extend_from_slice(b"localhost");
    payload.extend_from_slice(&[0x63, 0xDD]);
    encode_varint(&mut payload, 2); // next state = login

    let frame = encode_frame(0x00, &payload);
    let pkt = decoder.decode_serverbound(&frame).unwrap();
    assert!(matches!(pkt, DecodedServerPacket::Handshake(_)));
    assert_eq!(decoder.state(), ConnectionState::Login);

    // In Login state, unknown packets should be returned as Unknown
    let frame = encode_frame(0x99, b"hello");
    let pkt = decoder.decode_serverbound(&frame).unwrap();
    assert!(matches!(pkt, DecodedServerPacket::Unknown { id: 0x99, .. }));
}

#[test]
fn handshake_fields_are_decoded() {
    let mut decoder = PacketDecoder::default();
    let frame = encode_frame(0x00, &handshake_payload(767, 2));
    match decoder.decode_serverbound(&frame).unwrap() {
        DecodedServerPacket::Handshake(h) => {
            assert_eq!(h.protocol_version, 767);
            assert_eq!(h.server_address, "localhost");
            assert_eq!(h.server_port, 25565);
            assert_eq!(h.next_state, ConnectionState::Login);
        }
        other => panic!("unexpected {other:?}"),
    }
}

#[test]
fn unknown_protocol_keeps_version() {
    let mut decoder = PacketDecoder::new();
    let frame = encode_frame(0x00, &handshake_payload(12345, 1));
    assert!(decoder.decode_serverbound(&frame).is_ok());
    assert_eq!(decoder.state(), ConnectionState::Status);
    assert_eq!(decoder.version(), ProtocolVersion::V1_21);
    assert_eq!(ProtocolVersion::from_protocol(12345), None);
    assert_eq!(ProtocolVersion::from_protocol(767), Some(ProtocolVersion::V1_21));
    assert_eq!(ProtocolVersion::V1_21.protocol(), 767);
}

#[test]
fn failed_handshakes_leave_the_state() {
    let mut decoder = PacketDecoder::new();

    let frame = encode_frame(0x00, &handshake_payload(767, 3));
    assert!(matches!(
        decoder.decode_serverbound(&frame),
        Err(ProtocolError::Decode("invalid next state"))
    ));
    assert_eq!(decoder.state(), ConnectionState::Handshake);

    let mut payload = handshake_payload(767, 1);
    payload.push(0);
    let frame = encode_frame(0x00, &payload);
    assert!(matches!(
        decoder.decode_serverbound(&frame),
        Err(ProtocolError::UnconsumedBytes { remaining: 1 })
    ));
    assert_eq!(decoder.state(), ConnectionState::Handshake);

    let frame = encode_frame(0x05, &[]);
    match decoder.decode_serverbound(&frame) {
        Err(ProtocolError::UnknownPacketId { id, state, direction }) => {
            assert_eq!(id, 5);
            assert_eq!(state, ConnectionState::Handshake);
            assert_eq!(direction, Direction::Serverbound);
        }
        other => panic!("unexpected {other:?}"),
    }

    let frame = BytesMut::from(&[0x80u8, 0x80][..]);
    assert!(matches!(decoder.decode_serverbound(&frame), Err(ProtocolError::VarIntTooLarge)));
    assert_eq!(decoder.state(), ConnectionState::Handshake);
}

#[test]
fn status_state_refuses_extra_bytes_and_unknown_ids() {
    let mut decoder = PacketDecoder::new();
    decoder.decode_serverbound(&encode_frame(0x00, &handshake_payload(767, 1))).unwrap();

    assert!(matches!(
        decoder.decode_serverbound(&encode_frame(0x00, &[1])),
        Err(ProtocolError::UnconsumedBytes { remaining: 1 })
    ));
    assert!(matches!(
        decoder.decode_serverbound(&encode_frame(0x01, &[1, 2, 3])),
        Err(ProtocolError::Decode("buffer underflow"))
    ));
    assert!(matches!(
        decoder.decode_serverbound(&encode_frame(0x02, &[])),
        Err(ProtocolError::UnknownPacketId { id: 2, state: ConnectionState::Status, .. })
    ));
    match decoder.decode_serverbound(&encode_frame(0x01, &(-7i64).to_be_bytes())).unwrap() {
        DecodedServerPacket::StatusPing(p) => assert_eq!(p.time, -7),
        other => panic!("unexpected {other:?}"),
    }
    assert_eq!(decoder.state(), ConnectionState::Status);
}

#[test]
fn login_start_and_unknown_packets_pass_through() {
    let mut decoder = PacketDecoder::new();
    decoder.decode_serverbound(&encode_frame(0x00, &handshake_payload(767, 2))).unwrap();

    let mut w = PacketWriter::new();
    w.write_string("Notch");
    w.write_bytes(&[0xde, 0xad]);
    match decoder.decode_serverbound(&encode_frame(0x00, &w.finish())).unwrap() {
        DecodedServerPacket::LoginStart(l) => assert_eq!(l.username, "Notch"),
        other => panic!("unexpected {other:?}"),
    }

    let pkt = decoder.decode_serverbound(&encode_frame(0x99, b"hello")).unwrap();
    assert_eq!(pkt.packet_id(), 0x99);
    let encoded = pkt.encode(decoder.version());
    assert_eq!(&encoded[..], &encode_frame(0x99, b"hello")[..]);
    match decoder.decode_serverbound(&encoded).unwrap() {
        DecodedServerPacket::Unknown { id, data } => {
            assert_eq!(id, 0x99);
            assert_eq!(data, b"hello");
        }
        other => panic!("unexpected {other:?}"),
    }
}

#[test]
fn known_packets_encode_their_id_alone() {
    let mut decoder = PacketDecoder::new();
    let pkt = decoder.decode_serverbound(&encode_frame(0x00, &handshake_payload(767, 1))).unwrap();
    assert_eq!(pkt.packet_id(), 0);
    assert_eq!(pkt.encode(ProtocolVersion::V1_21), vec![0x00]);
    let ping = decoder.decode_serverbound(&encode_frame(0x01, &5i64.to_be_bytes())).unwrap();
    assert_eq!(ping.packet_id(), 1);
    assert_eq!(ping.encode(ProtocolVersion::V1_21), vec![0x01]);
}

#[test]
fn decode_clientbound_accepts_everything() {
    let mut decoder = PacketDecoder::new();
    assert!(decoder.decode_clientbound(&[1, 2, 3]).is_ok());
    assert_eq!(decoder.state(), ConnectionState::Handshake);
}

#[test]
fn status_replies_encode_and_read_back() {
    let response = CResponse { json: "{\"a\":1}".to_string() };
    let bytes = response.encode(ProtocolVersion::V1_21).unwrap();
    assert_eq!(bytes[0], 0x00);
    assert_eq!(bytes[1], 7);
    let mut r = PacketReader::new(&bytes[1..]);
    let back = <CResponse as ClientPacket>::read(&mut r, ProtocolVersion::V1_21).unwrap();
    assert_eq!(back.json, "{\"a\":1}");

    let pong = CPong { time: 0x0102030405060708 };
    let bytes = pong.encode(ProtocolVersion::V1_21).unwrap();
    assert_eq!(bytes, vec![0x01, 1, 2, 3, 4, 5, 6, 7, 8]);
    let mut r = PacketReader::new(&bytes[1..]);
    let back = <CPong as ClientPacket>::read(&mut r, ProtocolVersion::V1_21).unwrap();
    assert_eq!(back.time, 0x0102030405060708);
}

#[test]
fn state_and_direction_names() {
    assert_eq!(ConnectionState::Handshake.name(), "HANDSHAKE");
    assert_eq!(ConnectionState::Status.name(), "STATUS");
    assert_eq!(ConnectionState::Login.name(), "LOGIN");
    assert_eq!(ConnectionState::Config.name(), "CONFIG");
    assert_eq!(ConnectionState::Play.name(), "PLAY");
    assert_eq!(Direction::Serverbound.name(), "SERVERBOUND");
    assert_eq!(Direction::Clientbound.name(), "CLIENTBOUND");
}
