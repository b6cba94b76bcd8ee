//! Velocity modern forwarding: the login plugin messages through which the
//! proxy hands the backend server the player's address, id, name and
//! properties, signed with the forwarding secret.

use hmac::Mac;
use md5::Digest;
use vstd::prelude::*;

use crate::protocol::varint::{
    decode_varint, encode_varint, lemma_varint_roundtrip, string_field, varint_of, varint_read,
};
use vstd::string::{StringExecFns, StringSliceAdditionalSpecFns};
use vstd::utf8::{decode_utf8, encode_utf8, is_char_boundary, valid_utf8};

verus! {

/// The plugin channel of Velocity's player-info forwarding.
pub const CHANNEL: &'static str = "velocity:player_info";

/// The bytes of `CHANNEL`.
pub open spec fn channel_bytes() -> Seq<u8> {
    CHANNEL.spec_bytes()
}

/// The forwarding channel's name.
pub fn velocity_channel() -> (s: &'static str)
    ensures
        s@ == CHANNEL@,
{
    CHANNEL
}

/// A forwarding request that a backend server sent: its message id and the
/// payload that answers it.
pub struct ForwardingData {
    pub msg_id: i32,
    pub payload: Vec<u8>,
}

/// A game profile property of the player.
#[derive(Debug, Clone)]
pub struct Property {
    pub name: String,
    pub value: String,
    pub signature: Option<String>,
}

/// A property with its strings taken by their characters.
pub struct PropertyView {
    pub name: Seq<char>,
    pub value: Seq<char>,
    pub signature: Option<Seq<char>>,
}

impl View for Property {
    type V = PropertyView;

    open spec fn view(&self) -> PropertyView {
        PropertyView {
            name: self.name@,
            value: self.value@,
            signature: match self.signature {
                Some(s) => Some(s@),
                None => None,
            },
        }
    }
}

/// HMAC-SHA256 of `data` under `key` (RFC 2104 with SHA-256): 32 bytes.
pub uninterp spec fn hmac_sha256(key: Seq<u8>, data: Seq<u8>) -> Seq<u8>;

/// MD5 of `data` (RFC 1321): 16 bytes.
pub uninterp spec fn md5_digest(data: Seq<u8>) -> Seq<u8>;

/// Computes HMAC-SHA256 with the `hmac` and `sha2` crates
/// (`Hmac::<Sha256>::new_from_slice`, `update`, `finalize`). The contract
/// claims only that the result is the HMAC of `data` under `key`; HMAC takes
/// keys of any length, so `new_from_slice` does not fail.
#[verifier::external_body]
fn compute_hmac(key: &[u8], data: &[u8]) -> (r: [u8; 32])
    ensures
        r@ == hmac_sha256(key@, data@),
{
    let mut mac = <hmac::Hmac<sha2::Sha256> as Mac>::new_from_slice(key).expect(
        "HMAC key should be valid",
    );
    mac.update(data);
    mac.finalize().into_bytes().into()
}

/// Computes MD5 with the `md-5` crate (`Md5::digest`). The contract claims
/// only that the result is the MD5 digest of `data`.
#[verifier::external_body]
fn md5_hash(data: &[u8]) -> (r: [u8; 16])
    ensures
        r@ == md5_digest(data@),
{
    md5::Md5::digest(data).into()
}

/// The bytes of one property: name, value, then `1` and the signature, or `0`.
pub open spec fn property_bytes(p: PropertyView) -> Seq<u8> {
    string_field(p.name) + string_field(p.value) + match p.signature {
        Some(s) => seq![1u8] + string_field(s),
        None => seq![0u8],
    }
}

/// The bytes of the properties, one after the other.
pub open spec fn properties_concat(ps: Seq<PropertyView>) -> Seq<u8>
    decreases ps.len(),
{
    if ps.len() == 0 {
        Seq::empty()
    } else {
        properties_concat(ps.drop_last()) + property_bytes(ps.last())
    }
}

/// The property list: its length as a VarInt, then each property.
pub open spec fn properties_field(ps: Seq<PropertyView>) -> Seq<u8> {
    varint_of(((ps.len() as usize) as i32)) + properties_concat(ps)
}

/// The views of a slice of properties.
pub open spec fn property_views(ps: Seq<Property>) -> Seq<PropertyView> {
    ps.map_values(|p: Property| p@)
}

/// The signed part of the forwarding answer: forwarding version `1`, the
/// player's address, id, name and properties.
pub open spec fn forwarding_payload(
    address: Seq<char>,
    uuid: Seq<u8>,
    username: Seq<char>,
    properties: Seq<PropertyView>,
) -> Seq<u8> {
    varint_of(1) + string_field(address) + uuid + string_field(username) + properties_field(
        properties,
    )
}

fn append_bytes(buf: &mut Vec<u8>, bytes: &[u8])
    ensures
        final(buf)@ == old(buf)@ + bytes@,
{
    let mut i: usize = 0;
    while i < bytes.len()
        invariant
            i <= bytes@.len(),
            buf@ == old(buf)@ + bytes@.take(i as int),
        decreases bytes@.len() - i,
    {
        buf.push(bytes[i]);
        i = i + 1;
        assert(buf@ =~= old(buf)@ + bytes@.take(i as int));
    }
    assert(bytes@.take(i as int) =~= bytes@);
}

fn write_string(buf: &mut Vec<u8>, s: &str)
    ensures
        final(buf)@ == old(buf)@ + string_field(s@),
{
    encode_varint(buf, #[verifier::truncate] (s.len() as i32));
    append_bytes(buf, s.as_bytes());
    assert(buf@ =~= old(buf)@ + string_field(s@));
}

fn write_properties(buf: &mut Vec<u8>, properties: &[Property])
    ensures
        final(buf)@ == old(buf)@ + properties_field(property_views(properties@)),
{
    let ghost views = property_views(properties@);
    encode_varint(buf, #[verifier::truncate] (properties.len() as i32));
    let ghost start = buf@;
    let mut i: usize = 0;
    while i < properties.len()
        invariant
            i <= properties@.len(),
            views == property_views(properties@),
            buf@ == start + properties_concat(views.take(i as int)),
        decreases properties@.len() - i,
    {
        let prop = &properties[i];
        write_string(buf, prop.name.as_str());
        write_string(buf, prop.value.as_str());
        if let Some(sig) = &prop.signature {
            buf.push(1);
            write_string(buf, sig.as_str());
        } else {
            buf.push(0);
        }
        proof {
            assert(views.take(i + 1).drop_last() =~= views.take(i as int));
            assert(views.take(i + 1).last() == prop@);
        }
        i = i + 1;
        assert(buf@ =~= start + properties_concat(views.take(i as int)));
    }
    assert(views.take(i as int) =~= views);
    assert(buf@ =~= old(buf)@ + properties_field(views));
}

/// The answer to a forwarding request: the HMAC-SHA256 of the payload under
/// the forwarding secret, then the payload. The requested forwarding version
/// is not used: the payload always has version `1`.
pub fn create_forwarding_data(
    secret: &[u8],
    address: &str,
    uuid: &[u8; 16],
    username: &str,
    properties: &[Property],
    _requested_version: i32,
) -> (out: Vec<u8>)
    ensures
        ({
            let payload = forwarding_payload(
                address@,
                uuid@,
                username@,
                property_views(properties@),
            );
            &&& hmac_sha256(secret@, payload).len() == 32
            &&& out@ == hmac_sha256(secret@, payload) + payload
            &&& out@.len() == 32 + payload.len()
            &&& out@.skip(32) == payload
            &&& out@.take(32) == hmac_sha256(secret@, out@.skip(32))
            &&& out@[32] == 1u8
            &&& out@.subrange(
                33 + string_field(address@).len() as int,
                49 + string_field(address@).len() as int,
            ) == uuid@
        }),
{
    let version: i32 = 1;

    let mut payload = Vec::new();
    encode_varint(&mut payload, version);
    write_string(&mut payload, address);
    append_bytes(&mut payload, uuid.as_slice());
    write_string(&mut payload, username);
    write_properties(&mut payload, properties);
    assert(payload@ =~= forwarding_payload(
        address@,
        uuid@,
        username@,
        property_views(properties@),
    ));

    let sig = compute_hmac(secret, payload.as_slice());
    proof {
        vstd::array::array_len_matches_n(&sig);
    }
    let mut result = Vec::new();
    append_bytes(&mut result, sig.as_slice());
    append_bytes(&mut result, payload.as_slice());
    assert(result@ =~= sig@ + payload@);
    proof {
        lemma_forwarding_payload_fields(address@, uuid@, username@, property_views(properties@));
        let a = string_field(address@).len() as int;
        assert(result@.subrange(33 + a, 49 + a) =~= payload@.subrange(1 + a, 17 + a));
    }
    result
}

/// What a forwarding request frame holds, if it is one: after a zero VarInt
/// when the connection is compressed (a nonzero one means a compressed
/// packet, which is not read), the login plugin request id `0x04`, the message
/// id, then the channel name, which must be `CHANNEL`. The requested
/// forwarding version is the one byte that may follow, and `1` otherwise.
pub open spec fn spec_parse_velocity_plugin_msg(frame: Seq<u8>, compressed: bool) -> Option<
    (i32, i32),
> {
    let start: Option<Seq<u8>> = if compressed {
        match varint_read(frame) {
            Some((size, k)) => if size == 0 {
                Some(frame.skip(k as int))
            } else {
                None
            },
            None => None,
        }
    } else {
        Some(frame)
    };
    match start {
        None => None,
        Some(s) => match varint_read(s) {
            None => None,
            Some((packet_id, k1)) => if packet_id != 0x04 {
                None
            } else {
                let s2 = s.skip(k1 as int);
                match varint_read(s2) {
                    None => None,
                    Some((msg_id, k2)) => {
                        let s3 = s2.skip(k2 as int);
                        match varint_read(s3) {
                            None => None,
                            Some((channel_len, k3)) => {
                                let s4 = s3.skip(k3 as int);
                                let n = channel_len as usize;
                                if s4.len() < n {
                                    None
                                } else if s4.take(n as int) != channel_bytes() {
                                    None
                                } else {
                                    let s5 = s4.skip(n as int);
                                    Some(
                                        (
                                            msg_id,
                                            if s5.len() == 1 {
                                                s5[0] as i32
                                            } else {
                                                1
                                            },
                                        ),
                                    )
                                }
                            },
                        }
                    },
                }
            },
        },
    }
}

/// Whether `a` and `b` hold the same bytes.
fn bytes_equal(a: &[u8], b: &[u8]) -> (r: bool)
    ensures
        r == (a@ == b@),
{
    if a.len() != b.len() {
        return false;
    }
    let mut i: usize = 0;
    while i < a.len()
        invariant
            a@.len() == b@.len(),
            i <= a@.len(),
            forall|j: int| 0 <= j < i ==> a@[j] == b@[j],
        decreases a@.len() - i,
    {
        if a[i] != b[i] {
            return false;
        }
        i = i + 1;
    }
    assert(a@ =~= b@);
    true
}

/// Reads a forwarding request from a login frame: its message id and the
/// forwarding version it asks for.
pub fn try_parse_velocity_plugin_msg(frame: &[u8], compression: Option<i32>) -> (r: Option<
    (i32, i32),
>)
    ensures
        r == spec_parse_velocity_plugin_msg(frame@, compression is Some),
        r is Some ==> exists|k: int|
            0 <= k && k + 20 <= frame@.len() && #[trigger] frame@.subrange(k, k + 20)
                == channel_bytes(),
{
    proof {
        lemma_parsed_request_names_channel(frame@, compression is Some);
    }
    let mut buf = frame;

    if compression.is_some() {
        let uncompressed_size = match decode_varint(&mut buf) {
            Ok(v) => v,
            Err(_) => return None,
        };
        if uncompressed_size != 0 {
            return None;
        }
    }
    let ghost s = buf@;
    let packet_id = match decode_varint(&mut buf) {
        Ok(v) => v,
        Err(_) => return None,
    };
    if packet_id != 0x04 {
        return None;
    }
    let msg_id = match decode_varint(&mut buf) {
        Ok(v) => v,
        Err(_) => return None,
    };
    let channel_len = match decode_varint(&mut buf) {
        Ok(v) => #[verifier::truncate] (v as usize),
        Err(_) => return None,
    };
    if buf.len() < channel_len {
        return None;
    }
    let channel = vstd::slice::slice_subrange(buf, 0, channel_len);
    assert(channel@ =~= buf@.take(channel_len as int));
    if !bytes_equal(channel, CHANNEL.as_bytes()) {
        return None;
    }
    buf = vstd::slice::slice_subrange(buf, channel_len, buf.len());
    let requested_version = if buf.len() == 1 {
        buf[0] as i32
    } else {
        1
    };
    Some((msg_id, requested_version))
}

/// The bytes of a login plugin response to message `msg_id` that carries
/// `data`: a zero VarInt first when the connection is compressed, then the
/// response id `0x02`, the message id and the "understood" flag `1`.
pub open spec fn spec_login_plugin_response(msg_id: i32, data: Seq<u8>, compressed: bool) -> Seq<u8> {
    (if compressed {
        varint_of(0)
    } else {
        Seq::empty()
    }) + varint_of(0x02) + varint_of(msg_id) + seq![1u8] + data
}

/// Encodes the login plugin response that answers message `msg_id` with `data`.
pub fn encode_login_plugin_response(msg_id: i32, data: &[u8], compression: Option<i32>) -> (out: Vec<
    u8,
>)
    ensures
        out@ == spec_login_plugin_response(msg_id, data@, compression is Some),
        compression is Some ==> varint_read(out@) == Some((0i32, 1nat)) && out@.skip(1)
            == spec_login_plugin_response(msg_id, data@, false),
{
    let mut buf = Vec::new();

    if compression.is_some() {
        encode_varint(&mut buf, 0);
    }
    encode_varint(&mut buf, 0x02);
    encode_varint(&mut buf, msg_id);
    buf.push(1);
    append_bytes(&mut buf, data);
    assert(buf@ =~= spec_login_plugin_response(msg_id, data@, compression is Some));
    proof {
        lemma_login_plugin_response_fields(msg_id, data@, compression is Some);
    }
    buf
}

/// The bytes of the name-based id of an offline player: the MD5 digest of
/// `OfflinePlayer:` followed by the name, with the version nibble set to `3`
/// and the variant bits to `10` (RFC 4122, version 3).
pub open spec fn spec_offline_player_uuid(username: Seq<char>) -> Seq<u8> {
    let h = md5_digest(encode_utf8("OfflinePlayer:"@) + encode_utf8(username));
    h.update(6, (h[6] & 0x0f) | 0x30).update(8, (h[8] & 0x3f) | 0x80)
}

/// The id that an offline-mode server gives the player named `username`.
pub fn offline_player_uuid(username: &str) -> (id: [u8; 16])
    ensures
        id@ == spec_offline_player_uuid(username@),
        md5_digest(encode_utf8("OfflinePlayer:"@) + encode_utf8(username@)).len() == 16,
        forall|i: int| 0 <= i < 16 && i != 6 && i != 8 ==> id@[i] == md5_digest(
            encode_utf8("OfflinePlayer:"@) + encode_utf8(username@),
        )[i],
        id@[6] >> 4 == 3,
        id@[8] >> 6 == 2,
        id@[6] & 0x0f == md5_digest(encode_utf8("OfflinePlayer:"@) + encode_utf8(username@))[6]
            & 0x0f,
        id@[8] & 0x3f == md5_digest(encode_utf8("OfflinePlayer:"@) + encode_utf8(username@))[8]
            & 0x3f,
{
    let mut input = Vec::new();
    append_bytes(&mut input, "OfflinePlayer:".as_bytes());
    append_bytes(&mut input, username.as_bytes());
    let hash = md5_hash(input.as_slice());
    proof {
        vstd::array::array_len_matches_n(&hash);
        assert(input@ =~= encode_utf8("OfflinePlayer:"@) + encode_utf8(username@));
    }
    let mut bytes: [u8; 16] = hash;
    let h6 = bytes[6];
    let h8 = bytes[8];
    let b6 = (h6 & 0x0f) | 0x30;
    let b8 = (h8 & 0x3f) | 0x80;
    bytes[6] = b6;
    bytes[8] = b8;
    assert((b6 >> 4) == 3 && (b8 >> 6) == 2 && b6 & 0x0f == h6 & 0x0f && b8 & 0x3f == h8 & 0x3f)
        by (bit_vector)
        requires
            b6 == (h6 & 0x0f) | 0x30,
            b8 == (h8 & 0x3f) | 0x80,
    ;
    assert(bytes@ =~= spec_offline_player_uuid(username@));
    bytes
}


/// What `uuid::Uuid::parse_str` gives for the text `s`: the id's sixteen
/// bytes, or the text of the parse error.
pub uninterp spec fn uuid_parse(s: Seq<char>) -> Result<Seq<u8>, Seq<char>>;

/// Parses an id with `uuid::Uuid::parse_str` and turns the outcome into plain
/// values: the id's bytes (`Uuid::into_bytes`), or the error's text (its
/// `Display`). The contract claims only that the outcome is `uuid_parse(s@)`.
#[verifier::external_body]
fn parse_uuid(s: &str) -> (r: Result<[u8; 16], String>)
    ensures
        match (r, uuid_parse(s@)) {
            (Ok(b), Ok(v)) => b@ == v,
            (Err(m), Err(t)) => m@ == t,
            _ => false,
        },
{
    match uuid::Uuid::parse_str(s) {
        Ok(u) => Ok(u.into_bytes()),
        Err(e) => Err(e.to_string()),
    }
}

/// The hyphenated form of a Mojang profile id (thirty-two hex digits without
/// hyphens): hyphens after the 8th, 12th, 16th and 20th byte.
pub open spec fn hyphenated_id(id: Seq<u8>) -> Seq<char> {
    decode_utf8(id.subrange(0, 8)) + "-"@ + decode_utf8(id.subrange(8, 12)) + "-"@ + decode_utf8(
        id.subrange(12, 16),
    ) + "-"@ + decode_utf8(id.subrange(16, 20)) + "-"@ + decode_utf8(
        id.subrange(20, id.len() as int),
    )
}

/// Whether the byte offsets at which a profile id is cut all fall on
/// character boundaries within it.
pub open spec fn profile_id_cuttable(id: Seq<u8>) -> bool {
    &&& id.len() >= 20
    &&& is_char_boundary(id, 8)
    &&& is_char_boundary(id, 12)
    &&& is_char_boundary(id, 16)
    &&& is_char_boundary(id, 20)
}

/// What `uuid_from_profile_id` gives: the parsed hyphenated id, or the parse
/// error's text after `UUID parse failed: `.
pub open spec fn spec_uuid_from_profile_id(id: Seq<u8>) -> Result<Seq<u8>, Seq<char>> {
    match uuid_parse(hyphenated_id(id)) {
        Ok(b) => Ok(b),
        Err(t) => Err("UUID parse failed: "@ + t),
    }
}

proof fn lemma_cut(bytes: Seq<u8>, at: int, next: int)
    requires
        valid_utf8(bytes),
        0 <= at <= next <= bytes.len(),
        is_char_boundary(bytes, at),
        is_char_boundary(bytes, next),
    ensures
        valid_utf8(bytes.subrange(at, bytes.len() as int)),
        is_char_boundary(bytes.subrange(at, bytes.len() as int), next - at),
{
    let sub = bytes.subrange(at, bytes.len() as int);
    vstd::utf8::valid_utf8_split(bytes, at);
    if next == bytes.len() {
        vstd::utf8::is_char_boundary_start_end_of_seq(sub);
    } else {
        vstd::utf8::is_char_boundary_iff_not_is_continuation_byte(bytes, next);
        vstd::utf8::is_char_boundary_iff_not_is_continuation_byte(sub, next - at);
        assert(sub[next - at] == bytes[next]);
    }
}

/// The id of the player whose Mojang profile has the id `id` (the form
/// without hyphens): the hyphenated form parsed as a UUID.
pub fn uuid_from_profile_id(id: &str) -> (r: Result<[u8; 16], String>)
    requires
        profile_id_cuttable(id.spec_bytes()),
    ensures
        match (r, spec_uuid_from_profile_id(id.spec_bytes())) {
            (Ok(b), Ok(v)) => b@ == v,
            (Err(m), Err(t)) => m@ == t,
            _ => false,
        },
{
    let ghost b = id.spec_bytes();
    proof {
        vstd::utf8::encode_utf8_valid_utf8(id@);
        lemma_cut(b, 0, 8);
        assert(b.subrange(0, b.len() as int) =~= b);
    }
    let (p1, rest1) = id.split_at(8);
    proof {
        lemma_cut(b, 8, 12);
        assert(rest1.spec_bytes() =~= b.subrange(8, b.len() as int));
    }
    let (p2, rest2) = rest1.split_at(4);
    proof {
        lemma_cut(b, 12, 16);
        assert(rest2.spec_bytes() =~= b.subrange(12, b.len() as int));
    }
    let (p3, rest3) = rest2.split_at(4);
    proof {
        lemma_cut(b, 16, 20);
        assert(rest3.spec_bytes() =~= b.subrange(16, b.len() as int));
    }
    let (p4, p5) = rest3.split_at(4);
    proof {
        assert(p1.spec_bytes() =~= b.subrange(0, 8));
        assert(p2.spec_bytes() =~= b.subrange(8, 12));
        assert(p3.spec_bytes() =~= b.subrange(12, 16));
        assert(p4.spec_bytes() =~= b.subrange(16, 20));
        assert(p5.spec_bytes() =~= b.subrange(20, b.len() as int));
        vstd::utf8::encode_utf8_decode_utf8(p1@);
        vstd::utf8::encode_utf8_decode_utf8(p2@);
        vstd::utf8::encode_utf8_decode_utf8(p3@);
        vstd::utf8::encode_utf8_decode_utf8(p4@);
        vstd::utf8::encode_utf8_decode_utf8(p5@);
    }
    let mut formatted = String::from_str(p1);
    formatted.append("-");
    formatted.append(p2);
    formatted.append("-");
    formatted.append(p3);
    formatted.append("-");
    formatted.append(p4);
    formatted.append("-");
    formatted.append(p5);
    assert(formatted@ =~= hyphenated_id(b));
    match parse_uuid(formatted.as_str()) {
        Ok(bytes) => Ok(bytes),
        Err(message) => {
            let mut text = String::from_str("UUID parse failed: ");
            text.append(message.as_str());
            Err(text)
        },
    }
}


proof fn lemma_channel_bytes_len()
    ensures
        channel_bytes().len() == 20,
{
    reveal_strlit("velocity:player_info");
    assert(CHANNEL@.len() == 20);
    assert(vstd::utf8::is_ascii_chars(CHANNEL@));
    vstd::utf8::is_ascii_chars_encode_utf8(CHANNEL@);
}

/// The bytes of a forwarding request that a backend server sends: a zero
/// VarInt first when the connection is compressed, then the login plugin
/// request id `0x04`, the message id, the channel name as a string field,
/// and the data.
pub open spec fn spec_plugin_request(msg_id: i32, data: Seq<u8>, compressed: bool) -> Seq<u8> {
    (if compressed {
        varint_of(0)
    } else {
        Seq::empty()
    }) + varint_of(0x04) + varint_of(msg_id) + varint_of(((channel_bytes().len() as usize) as i32))
        + channel_bytes() + data
}

/// Every forwarding request on the Velocity channel is recognised, with its
/// message id; the requested version is the data's one byte, or `1` when the
/// data is not one byte long.
pub proof fn lemma_plugin_request_recognised(msg_id: i32, data: Seq<u8>, compressed: bool)
    ensures
        spec_parse_velocity_plugin_msg(spec_plugin_request(msg_id, data, compressed), compressed)
            == Some((msg_id, if data.len() == 1 { data[0] as i32 } else { 1i32 })),
{
    lemma_channel_bytes_len();
    let c = channel_bytes();
    let n: i32 = 20;
    let tail3 = c + data;
    let tail2 = varint_of(n) + tail3;
    let tail1 = varint_of(msg_id) + tail2;
    let body = varint_of(0x04) + tail1;
    assert(spec_plugin_request(msg_id, data, compressed) =~= (if compressed {
        varint_of(0)
    } else {
        Seq::empty()
    }) + body);
    lemma_varint_roundtrip(0, body);
    assert((varint_of(0) + body).skip(varint_of(0).len() as int) =~= body);
    assert(Seq::<u8>::empty() + body =~= body);
    lemma_varint_roundtrip(0x04, tail1);
    assert(body.skip(varint_of(0x04).len() as int) =~= tail1);
    lemma_varint_roundtrip(msg_id, tail2);
    assert(tail1.skip(varint_of(msg_id).len() as int) =~= tail2);
    lemma_varint_roundtrip(n, tail3);
    assert(tail2.skip(varint_of(n).len() as int) =~= tail3);
    assert(tail3.take(20) =~= c);
    assert(tail3.skip(20) =~= data);
}


// ----------------------------------------------------------------------------
// Laws of forwarding
// ----------------------------------------------------------------------------

/// The signed payload holds, at fixed places, the forwarding version `1`, the
/// address field, the sixteen id bytes exactly as given, the user name field
/// and the property list.
pub proof fn lemma_forwarding_payload_fields(
    address: Seq<char>,
    uuid: Seq<u8>,
    username: Seq<char>,
    properties: Seq<PropertyView>,
)
    requires
        uuid.len() == 16,
    ensures
        ({
            let p = forwarding_payload(address, uuid, username, properties);
            let a = string_field(address).len() as int;
            let u = string_field(username).len() as int;
            &&& p.len() >= 17 + a + u
            &&& p[0] == 1u8
            &&& p.subrange(1, 1 + a) == string_field(address)
            &&& p.subrange(1 + a, 17 + a) == uuid
            &&& p.subrange(17 + a, 17 + a + u) == string_field(username)
            &&& p.skip(17 + a + u) == properties_field(properties)
        }),
{
    let one: i32 = 1;
    assert(varint_of(one) =~= seq![1u8]);
    let p = forwarding_payload(address, uuid, username, properties);
    let sa = string_field(address);
    let su = string_field(username);
    let pf = properties_field(properties);
    assert(p =~= seq![1u8] + sa + uuid + su + pf);
    let a = sa.len() as int;
    let u = su.len() as int;
    assert(p.subrange(1, 1 + a) =~= sa);
    assert(p.subrange(1 + a, 17 + a) =~= uuid);
    assert(p.subrange(17 + a, 17 + a + u) =~= su);
    assert(p.skip(17 + a + u) =~= pf);
}

/// A login plugin response reads back, field by field: with compression on,
/// first a VarInt `0` of one byte (the packet is not compressed); then the
/// response id `0x02`, the message id, the "understood" byte `1`, and the data.
pub proof fn lemma_login_plugin_response_fields(msg_id: i32, data: Seq<u8>, compressed: bool)
    ensures
        ({
            let out = spec_login_plugin_response(msg_id, data, compressed);
            let r = if compressed {
                out.skip(1)
            } else {
                out
            };
            let k = varint_of(msg_id).len() as int;
            &&& compressed ==> varint_read(out) == Some((0i32, 1nat))
            &&& compressed ==> out.skip(1) == spec_login_plugin_response(msg_id, data, false)
            &&& varint_read(r) == Some((2i32, 1nat))
            &&& varint_read(r.skip(1)) == Some((msg_id, varint_of(msg_id).len()))
            &&& r.len() == 2 + k + data.len()
            &&& r[1 + k] == 1u8
            &&& r.skip(2 + k) == data
        }),
{
    let zero: i32 = 0;
    let two: i32 = 2;
    assert(varint_of(zero) =~= seq![0u8]);
    assert(varint_of(two) =~= seq![2u8]);
    let out = spec_login_plugin_response(msg_id, data, compressed);
    let plain = spec_login_plugin_response(msg_id, data, false);
    let tail = varint_of(msg_id) + seq![1u8] + data;
    assert(plain =~= seq![2u8] + tail);
    lemma_varint_roundtrip(two, tail);
    lemma_varint_roundtrip(msg_id, seq![1u8] + data);
    assert(plain.skip(1) =~= varint_of(msg_id) + (seq![1u8] + data));
    assert(plain.skip(1 + varint_of(msg_id).len() as int) =~= seq![1u8] + data);
    assert(plain.skip(2 + varint_of(msg_id).len() as int) =~= data);
    if compressed {
        assert(out =~= seq![0u8] + plain);
        lemma_varint_roundtrip(zero, plain);
        assert(out.skip(1) =~= plain);
    } else {
        assert(out =~= plain);
    }
}

/// A login plugin request on the channel `channel`, as a backend server
/// writes it: the compression marker when compressed, the request id `0x04`,
/// the message id, the channel name as a length-prefixed field, then the data.
pub open spec fn plugin_request_on(
    msg_id: i32,
    channel: Seq<u8>,
    data: Seq<u8>,
    compressed: bool,
) -> Seq<u8> {
    (if compressed {
        varint_of(0)
    } else {
        Seq::empty()
    }) + varint_of(0x04) + varint_of(msg_id) + varint_of(((channel.len() as usize) as i32))
        + channel + data
}

/// A login plugin request is recognised as a forwarding request exactly when
/// its channel is `velocity:player_info`; on any other channel it is not.
#[verifier::rlimit(50)]
pub proof fn lemma_request_recognised_only_on_channel(
    msg_id: i32,
    channel: Seq<u8>,
    data: Seq<u8>,
    compressed: bool,
)
    requires
        channel.len() <= 0x7fff_ffff,
    ensures
        spec_parse_velocity_plugin_msg(plugin_request_on(msg_id, channel, data, compressed), compressed)
            == (if channel == channel_bytes() {
            Some((msg_id, if data.len() == 1 { data[0] as i32 } else { 1i32 }))
        } else {
            None
        }),
{
    lemma_channel_bytes_len();
    let n: i32 = (channel.len() as usize) as i32;
    assert(n as usize == channel.len());
    let tail3 = channel + data;
    let tail2 = varint_of(n) + tail3;
    let tail1 = varint_of(msg_id) + tail2;
    let body = varint_of(0x04) + tail1;
    assert(plugin_request_on(msg_id, channel, data, compressed) =~= (if compressed {
        varint_of(0)
    } else {
        Seq::empty()
    }) + body);
    lemma_varint_roundtrip(0, body);
    assert((varint_of(0) + body).skip(varint_of(0).len() as int) =~= body);
    assert(Seq::<u8>::empty() + body =~= body);
    lemma_varint_roundtrip(0x04, tail1);
    assert(body.skip(varint_of(0x04).len() as int) =~= tail1);
    lemma_varint_roundtrip(msg_id, tail2);
    assert(tail1.skip(varint_of(msg_id).len() as int) =~= tail2);
    lemma_varint_roundtrip(n, tail3);
    assert(tail2.skip(varint_of(n).len() as int) =~= tail3);
    assert(tail3.take(channel.len() as int) =~= channel);
    assert(tail3.skip(channel.len() as int) =~= data);
    let s0 = if compressed {
        (varint_of(0) + body).skip(varint_of(0).len() as int)
    } else {
        Seq::<u8>::empty() + body
    };
    assert(s0 == body);
    assert(varint_read(body) == Some((0x04i32, varint_of(0x04).len())));
    assert(varint_read(tail1) == Some((msg_id, varint_of(msg_id).len())));
    assert(varint_read(tail2) == Some((n, varint_of(n).len())));
    if channel == channel_bytes() {
        assert(tail3.take(n as usize as int) == channel_bytes());
    } else {
        assert(tail3.take(n as usize as int) != channel_bytes());
    }
}

proof fn lemma_varint_read_len(s: Seq<u8>)
    ensures
        varint_read(s) matches Some((_, k)) ==> 1 <= k <= s.len(),
{
    lemma_varint_len_bound(s, 5);
}

proof fn lemma_varint_len_bound(s: Seq<u8>, budget: nat)
    ensures
        crate::protocol::varint::varint_len_within(s, budget) matches Some(k) ==> 1 <= k <= s.len(),
    decreases budget,
{
    if budget > 0 && s.len() > 0 {
        lemma_varint_len_bound(s.drop_first(), (budget - 1) as nat);
    }
}

/// Whenever a frame is recognised as a forwarding request, the bytes
/// `velocity:player_info` stand in it.
pub proof fn lemma_parsed_request_names_channel(frame: Seq<u8>, compressed: bool)
    ensures
        spec_parse_velocity_plugin_msg(frame, compressed) is Some ==> exists|k: int|
            0 <= k && k + 20 <= frame.len() && #[trigger] frame.subrange(k, k + 20)
                == channel_bytes(),
{
    lemma_channel_bytes_len();
    if spec_parse_velocity_plugin_msg(frame, compressed) is Some {
        let s: Seq<u8> = if compressed {
            let (_, k0) = varint_read(frame).unwrap();
            lemma_varint_read_len(frame);
            frame.skip(k0 as int)
        } else {
            frame
        };
        let off0: int = frame.len() - s.len();
        assert(s =~= frame.skip(off0));
        lemma_varint_read_len(s);
        let (_, k1) = varint_read(s).unwrap();
        let s2 = s.skip(k1 as int);
        lemma_varint_read_len(s2);
        let (_, k2) = varint_read(s2).unwrap();
        let s3 = s2.skip(k2 as int);
        lemma_varint_read_len(s3);
        let (_, k3) = varint_read(s3).unwrap();
        let s4 = s3.skip(k3 as int);
        let k = off0 + k1 + k2 + k3;
        assert(s4 =~= frame.skip(k));
        assert(s4.take(20) =~= frame.subrange(k, k + 20));
    }
}

/// Of the digest, the offline id keeps every bit but the version nibble of
/// byte 6, set to `3`, and the variant bits of byte 8, set to `10`.
pub proof fn lemma_offline_uuid_keeps_digest(username: Seq<char>)
    requires
        md5_digest(encode_utf8("OfflinePlayer:"@) + encode_utf8(username)).len() == 16,
    ensures
        ({
            let h = md5_digest(encode_utf8("OfflinePlayer:"@) + encode_utf8(username));
            let id = spec_offline_player_uuid(username);
            &&& id.len() == 16
            &&& forall|i: int| 0 <= i < 16 && i != 6 && i != 8 ==> id[i] == h[i]
            &&& id[6] >> 4 == 3 && id[6] & 0x0f == h[6] & 0x0f
            &&& id[8] >> 6 == 2 && id[8] & 0x3f == h[8] & 0x3f
        }),
{
    let h = md5_digest(encode_utf8("OfflinePlayer:"@) + encode_utf8(username));
    let h6 = h[6];
    let h8 = h[8];
    let b6 = (h6 & 0x0f) | 0x30;
    let b8 = (h8 & 0x3f) | 0x80;
    assert((b6 >> 4) == 3 && (b8 >> 6) == 2 && b6 & 0x0f == h6 & 0x0f && b8 & 0x3f == h8 & 0x3f)
        by (bit_vector)
        requires
            b6 == (h6 & 0x0f) | 0x30,
            b8 == (h8 & 0x3f) | 0x80,
    ;
}

} // verus!
