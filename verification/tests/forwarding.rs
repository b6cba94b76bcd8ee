use dexdey::config::{forwarding_secret_from, Config};
use dexdey::plugin::{handler_signature, is_event_handler, jni_class_name};
use dexdey::protocol::forwarding::{
    create_forwarding_data, encode_login_plugin_response, offline_player_uuid,
    try_parse_velocity_plugin_msg, uuid_from_profile_id, velocity_channel, Property,
};
use dexdey::protocol::frame::{check_frame_length, encode_frame, MAX_PACKET_SIZE};
use dexdey::protocol::error::ProtocolError;
use dexdey::protocol::varint::{decode_varint, encode_varint};
use hmac::Mac;
use md5::Digest;

fn request_frame(msg_id: i32, channel: &str, extra: &[u8], compressed: bool) -> Vec<u8> {
    let mut buf = Vec::new();
    if compressed {
        encode_varint(&mut buf, 0);
    }
    encode_varint(&mut buf, 0x04);
    encode_varint(&mut buf, msg_id);
    encode_varint(&mut buf, channel.len() as i32);
    buf.extend_from_slice(channel.as_bytes());
    buf.extend_from_slice(extra);
    buf
}

#[test]
fn channel_name() {
    assert_eq!(velocity_channel(), "velocity:player_info");
}

#[test]
fn plugin_request_is_recognised() {
    let frame = request_frame(7, "velocity:player_info", &[], false);
    assert_eq!(try_parse_velocity_plugin_msg(&frame, None), Some((7, 1)));
    let frame = request_frame(300, "velocity:player_info", &[4], false);
    assert_eq!(try_parse_velocity_plugin_msg(&frame, None), Some((300, 4)));
    let frame = request_frame(300, "velocity:player_info", &[4, 5], false);
    assert_eq!(try_parse_velocity_plugin_msg(&frame, None), Some((300, 1)));
    let frame = request_frame(9, "velocity:player_info", &[2], true);
    assert_eq!(try_parse_velocity_plugin_msg(&frame, Some(256)), Some((9, 2)));
}

#[test]
fn other_frames_are_not_plugin_requests() {
    let frame = request_frame(7, "minecraft:brand", &[], false);
    assert_eq!(try_parse_velocity_plugin_msg(&frame, None), None);
    let mut frame = request_frame(7, "velocity:player_info", &[], false);
    frame[0] = 0x05;
    assert_eq!(try_parse_velocity_plugin_msg(&frame, None), None);
    // A compressed packet (nonzero uncompressed size) is not read.
    let mut frame = vec![0x10];
    frame.extend(request_frame(7, "velocity:player_info", &[], false));
    assert_eq!(try_parse_velocity_plugin_msg(&frame, Some(256)), None);
    // The channel runs past the end.
    let frame = request_frame(7, "velocity:player_info", &[], false);
    assert_eq!(try_parse_velocity_plugin_msg(&frame[..frame.len() - 1], None), None);
    // A negative channel length.
    let mut frame = Vec::new();
    encode_varint(&mut frame, 0x04);
    encode_varint(&mut frame, 1);
    encode_varint(&mut frame, -1);
    assert_eq!(try_parse_velocity_plugin_msg(&frame, None), None);
    assert_eq!(try_parse_velocity_plugin_msg(&[], None), None);
}

#[test]
fn plugin_response_layout() {
    assert_eq!(encode_login_plugin_response(5, &[9, 8], None), vec![0x02, 0x05, 0x01, 9, 8]);
    assert_eq!(
        encode_login_plugin_response(200, &[], Some(64)),
        vec![0x00, 0x02, 0xc8, 0x01, 0x01]
    );
}

#[test]
fn forwarding_data_is_signed_payload() {
    let uuid = [0x11u8; 16];
    let props = vec![
        Property { name: "textures".to_string(), value: "abc".to_string(), signature: None },
        Property {
            name: "x".to_string(),
            value: "y".to_string(),
            signature: Some("sig".to_string()),
        },
    ];
    let out = create_forwarding_data(b"secret", "127.0.0.1", &uuid, "Steve", &props, 1);

    let mut payload = vec![1, 9];
    payload.extend_from_slice(b"127.0.0.1");
    payload.extend_from_slice(&uuid);
    payload.push(5);
    payload.extend_from_slice(b"Steve");
    payload.push(2);
    payload.push(8);
    payload.extend_from_slice(b"textures");
    payload.push(3);
    payload.extend_from_slice(b"abc");
    payload.push(0);
    payload.push(1);
    payload.extend_from_slice(b"x");
    payload.push(1);
    payload.extend_from_slice(b"y");
    payload.push(1);
    payload.push(3);
    payload.extend_from_slice(b"sig");

    let mut mac = <hmac::Hmac<sha2::Sha256> as Mac>::new_from_slice(b"secret").unwrap();
    mac.update(&payload);
    let expected_sig = mac.finalize().into_bytes();

    assert_eq!(&out[32..], &payload[..]);
    assert_eq!(&out[..32], &expected_sig[..]);
    assert_ne!(&out[..32], &payload[..32]);
}

#[test]
fn hmac_matches_rfc_4231_case_2() {
    // RFC 4231 test case 2: key "Jefe", data "what do ya want for nothing?".
    let out = create_forwarding_data(b"Jefe", "", &[0u8; 16], "", &[], 1);
    let payload = &out[32..];
    let mut mac = <hmac::Hmac<sha2::Sha256> as Mac>::new_from_slice(b"Jefe").unwrap();
    mac.update(payload);
    assert_eq!(&out[..32], &mac.finalize().into_bytes()[..]);

    let mut mac = <hmac::Hmac<sha2::Sha256> as Mac>::new_from_slice(b"Jefe").unwrap();
    mac.update(b"what do ya want for nothing?");
    let tag = mac.finalize().into_bytes();
    assert_eq!(tag[0], 0x5b);
    assert_eq!(tag[31], 0x43);
}

#[test]
fn offline_uuid_is_version_3_md5() {
    let id = offline_player_uuid("Notch");
    let mut expected: [u8; 16] = md5::Md5::digest(b"OfflinePlayer:Notch").into();
    expected[6] = (expected[6] & 0x0f) | 0x30;
    expected[8] = (expected[8] & 0x3f) | 0x80;
    assert_eq!(id, expected);
    assert_eq!(id[6] >> 4, 3);
    assert_eq!(id[8] >> 6, 2);
    // The well-known offline id of "Notch".
    assert_eq!(
        uuid::Uuid::from_bytes(id).to_string(),
        "b50ad385-829d-3141-a216-7e7d7539ba7f"
    );
}

#[test]
fn profile_id_is_hyphenated_and_parsed() {
    let id = uuid_from_profile_id("069a79f444e94726a5befca90e38aaf5").unwrap();
    assert_eq!(
        uuid::Uuid::from_bytes(id).to_string(),
        "069a79f4-44e9-4726-a5be-fca90e38aaf5"
    );
    let err = uuid_from_profile_id("zzzzzzzzzzzzzzzzzzzzzzzzzzzzzzzz").unwrap_err();
    assert!(err.starts_with("UUID parse failed: "), "{err}");
}

#[test]
fn frame_length_checks() {
    assert!(matches!(check_frame_length(0), Err(ProtocolError::Decode("zero-length packet"))));
    assert!(matches!(
        check_frame_length(2_097_153),
        Err(ProtocolError::PacketTooLarge { size: 2_097_153, max: 2_097_152 })
    ));
    assert!(matches!(check_frame_length(-1), Err(ProtocolError::PacketTooLarge { .. })));
    assert_eq!(check_frame_length(2_097_152).unwrap(), MAX_PACKET_SIZE);
    assert_eq!(check_frame_length(1).unwrap(), 1);
}

#[test]
fn frame_roundtrip_in_memory() {
    let payload = b"\x00\xFF\x05localhost\x63\xDD\x01";
    let frame = encode_frame(payload);
    let mut slice: &[u8] = &frame;
    let len = decode_varint(&mut slice).unwrap();
    let n = check_frame_length(len).unwrap();
    assert_eq!(&slice[..n], &payload[..]);
    assert_eq!(slice.len(), n);
}

#[test]
fn forwarding_secret_sources() {
    assert_eq!(forwarding_secret_from(Some("abc"), Some("file")), b"abc".to_vec());
    assert_eq!(forwarding_secret_from(Some(""), Some("  file \n")), b"file".to_vec());
    assert_eq!(forwarding_secret_from(None, Some("\u{3000}s e\t")), b"s e".to_vec());
    assert_eq!(forwarding_secret_from(None, Some(" \n\t ")), Vec::<u8>::new());
    assert_eq!(forwarding_secret_from(None, None), Vec::<u8>::new());
    let c = Config::from_sources(None, Some("k\n"));
    assert_eq!(c.clone().forwarding_secret, b"k".to_vec());
}

#[test]
fn jni_names() {
    assert_eq!(jni_class_name("com.example.Event"), "com/example/Event");
    assert_eq!(
        handler_signature("com.velocitypowered.api.event.proxy.ProxyInitializeEvent"),
        "(Lcom/velocitypowered/api/event/proxy/ProxyInitializeEvent;)V"
    );
}

#[test]
fn event_handler_filter() {
    assert!(is_event_handler(true, 1));
    assert!(!is_event_handler(false, 1));
    assert!(!is_event_handler(true, 0));
    assert!(!is_event_handler(true, 2));
}

#[test]
fn forwarding_data_splits_at_the_tag() {
    let out = create_forwarding_data(b"k", "a", &[7u8; 16], "b", &[], 3);
    let payload = &out[32..];
    let mut mac = <hmac::Hmac<sha2::Sha256> as Mac>::new_from_slice(b"k").unwrap();
    mac.update(payload);
    assert_eq!(&out[..32], &mac.finalize().into_bytes()[..]);
    assert_eq!(out.len(), 32 + 1 + 2 + 16 + 2 + 1);
}
