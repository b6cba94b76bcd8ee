use dexdey::protocol::error::ProtocolError;
use dexdey::protocol::varint::{
    decode_varint, encode_varint, varint_size, PacketReader, PacketWriter, VarIntDecoder, VarIntStep,
};

#[test]
fn test_varint_roundtrip() {
    let cases = vec![0, 1, 127, 128, 255, 256, 32767, 65535, 2097151, 2147483647];
    for &val in &cases {
        let mut buf = Vec::new();
        encode_varint(&mut buf, val);
        let mut slice: &[u8] = &buf;
        let decoded = decode_varint(&mut slice).unwrap();
        assert_eq!(val, decoded, "roundtrip failed for {val}");
        assert!(slice.is_empty(), "not all bytes consumed for {val}");
    }
}

#[test]
fn test_varint_sizes() {
    assert_eq!(varint_size(0), 1);
    assert_eq!(varint_size(127), 1);
    assert_eq!(varint_size(128), 2);
    assert_eq!(varint_size(16383), 2);
    assert_eq!(varint_size(16384), 3);
}

#[test]
fn test_packet_reader_writer() {
    let mut w = PacketWriter::new();
    w.write_varint(42);
    w.write_string("hello");
    w.write_u16_be(25565);
    w.write_i64_be(12345);

    let bytes = w.finish();
    let mut r = PacketReader::new(&bytes);
    assert_eq!(r.read_varint().unwrap(), 42);
    assert_eq!(r.read_string().unwrap(), "hello");
    assert_eq!(r.read_u16_be().unwrap(), 25565);
    assert_eq!(r.read_i64_be().unwrap(), 12345);
    assert_eq!(r.remaining(), 0);
}

#[test]
fn varint_encodings_of_known_values() {
    let cases: Vec<(i32, Vec<u8>)> = vec![
        (0, vec![0x00]),
        (1, vec![0x01]),
        (127, vec![0x7f]),
        (128, vec![0x80, 0x01]),
        (255, vec![0xff, 0x01]),
        (25565, vec![0xdd, 0xc7, 0x01]),
        (2097151, vec![0xff, 0xff, 0x7f]),
        (2147483647, vec![0xff, 0xff, 0xff, 0xff, 0x07]),
        (-1, vec![0xff, 0xff, 0xff, 0xff, 0x0f]),
        (-2147483648, vec![0x80, 0x80, 0x80, 0x80, 0x08]),
    ];
    for (value, expected) in cases {
        let mut buf = vec![0xaa];
        encode_varint(&mut buf, value);
        assert_eq!(&buf[1..], &expected[..], "encoding of {value}");
        assert_eq!(varint_size(value), expected.len(), "size of {value}");
        let mut slice: &[u8] = &expected;
        assert_eq!(decode_varint(&mut slice).unwrap(), value);
    }
}

#[test]
fn negative_varints_roundtrip_in_five_bytes() {
    for &val in &[-1, -2, -128, -32768, i32::MIN] {
        let mut buf = Vec::new();
        encode_varint(&mut buf, val);
        assert_eq!(buf.len(), 5);
        let mut tail = buf.clone();
        tail.extend_from_slice(&[9, 9]);
        let mut slice: &[u8] = &tail;
        assert_eq!(decode_varint(&mut slice).unwrap(), val);
        assert_eq!(slice, &[9, 9]);
    }
}

#[test]
fn decode_varint_fails_on_truncated_input() {
    let data = [0x80u8, 0x80];
    let mut slice: &[u8] = &data;
    assert!(matches!(decode_varint(&mut slice), Err(ProtocolError::VarIntTooLarge)));
    assert!(slice.is_empty());

    let empty: [u8; 0] = [];
    let mut slice: &[u8] = &empty;
    assert!(matches!(decode_varint(&mut slice), Err(ProtocolError::VarIntTooLarge)));
}

#[test]
fn decode_varint_fails_after_five_continuation_bytes() {
    let data = [0x80u8, 0x80, 0x80, 0x80, 0x80, 0x01, 0x02];
    let mut slice: &[u8] = &data;
    assert!(matches!(decode_varint(&mut slice), Err(ProtocolError::VarIntTooLarge)));
    assert_eq!(slice, &[0x01, 0x02]);
}

#[test]
fn fifth_varint_byte_keeps_only_the_low_bits() {
    // The fifth byte's groups above bit 31 are dropped.
    let data = [0xffu8, 0xff, 0xff, 0xff, 0x7f];
    let mut slice: &[u8] = &data;
    assert_eq!(decode_varint(&mut slice).unwrap(), -1);
}

#[test]
fn stream_decoder_matches_buffer_decoder() {
    for &val in &[0, 1, 127, 128, 255, 256, 65535, 2097151, 2147483647, -1] {
        let mut encoded = Vec::new();
        encode_varint(&mut encoded, val);
        let mut decoder = VarIntDecoder::new();
        let mut result = None;
        for (i, &b) in encoded.iter().enumerate() {
            match decoder.push(b) {
                VarIntStep::Done(v) => {
                    assert_eq!(i + 1, encoded.len());
                    result = Some(v);
                    break;
                }
                VarIntStep::More(next) => decoder = next,
                VarIntStep::TooLarge => panic!("too large"),
            }
        }
        assert_eq!(result, Some(val), "stream roundtrip failed for {val}");
    }
}

#[test]
fn stream_decoder_refuses_five_continuation_bytes() {
    let mut decoder = VarIntDecoder::new();
    for i in 0..5 {
        match decoder.push(0x80) {
            VarIntStep::More(next) => {
                assert!(i < 4);
                decoder = next;
            }
            VarIntStep::TooLarge => {
                assert_eq!(i, 4);
                return;
            }
            VarIntStep::Done(_) => panic!("done"),
        }
    }
    panic!("no refusal");
}

#[test]
fn reader_reads_back_every_field_kind() {
    let mut w = PacketWriter::default();
    w.write_u8(7);
    w.write_bool(true);
    w.write_bool(false);
    w.write_i16_be(-2);
    w.write_u16_be(65535);
    w.write_i32_be(-123456789);
    w.write_i64_be(i64::MIN);
    w.write_varint(-5);
    w.write_string("héllo");
    w.write_bytes(&[1, 2, 3]);
    assert_eq!(
        &w.as_bytes()[..12],
        &[7, 1, 0, 0xff, 0xfe, 0xff, 0xff, 0xf8, 0xa4, 0x32, 0xeb, 0x80]
    );

    let bytes = w.finish();
    let mut r = PacketReader::new(&bytes);
    assert_eq!(r.read_u8().unwrap(), 7);
    assert!(r.read_bool().unwrap());
    assert!(!r.read_bool().unwrap());
    assert_eq!(r.read_i16_be().unwrap(), -2);
    assert_eq!(r.read_u16_be().unwrap(), 65535);
    assert_eq!(r.read_i32_be().unwrap(), -123456789);
    assert_eq!(r.read_i64_be().unwrap(), i64::MIN);
    assert_eq!(r.read_varint().unwrap(), -5);
    assert_eq!(r.read_string().unwrap(), "héllo");
    assert!(matches!(r.ensure_consumed(), Err(ProtocolError::UnconsumedBytes { remaining: 3 })));
    assert_eq!(r.read_remaining(), &[1, 2, 3]);
    assert!(r.ensure_consumed().is_ok());
}

#[test]
fn reader_reports_underflow_without_moving() {
    let bytes = [1u8, 2, 3];
    let mut r = PacketReader::new(&bytes);
    assert!(matches!(r.read_i32_be(), Err(ProtocolError::Decode("buffer underflow"))));
    assert_eq!(r.remaining(), 3);
    assert!(matches!(r.read_i64_be(), Err(ProtocolError::Decode("buffer underflow"))));
    assert_eq!(r.read_i16_be().unwrap(), 0x0102);
    assert!(matches!(r.read_u16_be(), Err(ProtocolError::Decode("buffer underflow"))));
    assert_eq!(r.read_u8().unwrap(), 3);
    assert!(matches!(r.read_u8(), Err(ProtocolError::Decode("buffer underflow"))));
    assert!(matches!(r.read_bool(), Err(ProtocolError::Decode("buffer underflow"))));
}

#[test]
fn reader_refuses_bad_strings() {
    // Longer than the limit.
    let mut w = PacketWriter::new();
    w.write_varint(40000);
    let bytes = w.finish();
    let mut r = PacketReader::new(&bytes);
    assert!(matches!(
        r.read_string(),
        Err(ProtocolError::StringTooLong { len: 40000, max: 32767 })
    ));

    // A negative length counts as a huge one.
    let mut w = PacketWriter::new();
    w.write_varint(-1);
    let bytes = w.finish();
    let mut r = PacketReader::new(&bytes);
    assert!(matches!(r.read_string(), Err(ProtocolError::StringTooLong { max: 32767, .. })));

    // Running past the end.
    let bytes = [5u8, b'a', b'b'];
    let mut r = PacketReader::new(&bytes);
    assert!(matches!(r.read_string(), Err(ProtocolError::Decode("string exceeds buffer"))));
    assert_eq!(r.remaining(), 2);

    // Not UTF-8.
    let bytes = [2u8, 0xc3, 0x28];
    let mut r = PacketReader::new(&bytes);
    assert!(matches!(r.read_string(), Err(ProtocolError::Decode("invalid UTF-8"))));
    assert_eq!(r.remaining(), 2);

    // A bad length prefix.
    let bytes = [0x80u8];
    let mut r = PacketReader::new(&bytes);
    assert!(matches!(r.read_string(), Err(ProtocolError::VarIntTooLarge)));
}

#[test]
fn longest_string_is_read_back() {
    let s = "x".repeat(32767);
    let mut w = PacketWriter::new();
    w.write_string(&s);
    let bytes = w.finish();
    assert_eq!(bytes.len(), 3 + 32767);
    let mut r = PacketReader::new(&bytes);
    assert_eq!(r.read_string().unwrap(), s);
    assert_eq!(r.remaining(), 0);
}
