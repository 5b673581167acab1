//! MQTT wire codec: control packet types, fixed and variable headers, and a
//! byte-stream parser for the packets the broker consumes, with encoders for
//! the numeric wire forms.

use vstd::prelude::*;

verus! {

use vstd::string::StringSliceAdditionalSpecFns;
use vstd::utf8::valid_utf8;

/// Why a packet failed to decode.
#[derive(Clone, Copy, Debug, PartialEq, Eq, Structural)]
pub enum DecodeError {
    /// Reserved fixed-header flag bits are wrong for the packet type.
    MalformedFixedHeader,
    /// The remaining-length field used more than four bytes.
    VarIntOverflow,
    /// The buffer ended in the middle of the packet.
    UnexpectedEof,
    /// A topic, client identifier or payload string is not valid UTF-8.
    InvalidUtf8,
    /// A CONNECT named a protocol version other than 3, 4 or 5.
    UnsupportedProtocol,
}

/// The sixteen MQTT control packet types.
#[derive(Clone, Copy, Debug, PartialEq, Eq, Structural)]
pub enum ControlPacketType {
    Reserved,
    Connect,
    Connack,
    Publish,
    Puback,
    Pubrec,
    Pubrel,
    Pubcomp,
    Subscribe,
    Suback,
    Unsubscribe,
    Unsuback,
    Pingreq,
    Pingresp,
    Disconnect,
    Auth,
}

/// The packet type for a four-bit wire code.
pub open spec fn spec_packet_type_of(code: int) -> ControlPacketType {
    if code == 1 {
        ControlPacketType::Connect
    } else if code == 2 {
        ControlPacketType::Connack
    } else if code == 3 {
        ControlPacketType::Publish
    } else if code == 4 {
        ControlPacketType::Puback
    } else if code == 5 {
        ControlPacketType::Pubrec
    } else if code == 6 {
        ControlPacketType::Pubrel
    } else if code == 7 {
        ControlPacketType::Pubcomp
    } else if code == 8 {
        ControlPacketType::Subscribe
    } else if code == 9 {
        ControlPacketType::Suback
    } else if code == 10 {
        ControlPacketType::Unsubscribe
    } else if code == 11 {
        ControlPacketType::Unsuback
    } else if code == 12 {
        ControlPacketType::Pingreq
    } else if code == 13 {
        ControlPacketType::Pingresp
    } else if code == 14 {
        ControlPacketType::Disconnect
    } else if code == 15 {
        ControlPacketType::Auth
    } else {
        ControlPacketType::Reserved
    }
}

impl ControlPacketType {
    /// The packet type encoded by the upper four bits' value.
    pub fn from_code(code: u8) -> (r: ControlPacketType)
        ensures
            r == spec_packet_type_of(code as int),
    {
        if code == 1 {
            ControlPacketType::Connect
        } else if code == 2 {
            ControlPacketType::Connack
        } else if code == 3 {
            ControlPacketType::Publish
        } else if code == 4 {
            ControlPacketType::Puback
        } else if code == 5 {
            ControlPacketType::Pubrec
        } else if code == 6 {
            ControlPacketType::Pubrel
        } else if code == 7 {
            ControlPacketType::Pubcomp
        } else if code == 8 {
            ControlPacketType::Subscribe
        } else if code == 9 {
            ControlPacketType::Suback
        } else if code == 10 {
            ControlPacketType::Unsubscribe
        } else if code == 11 {
            ControlPacketType::Unsuback
        } else if code == 12 {
            ControlPacketType::Pingreq
        } else if code == 13 {
            ControlPacketType::Pingresp
        } else if code == 14 {
            ControlPacketType::Disconnect
        } else if code == 15 {
            ControlPacketType::Auth
        } else {
            ControlPacketType::Reserved
        }
    }

    /// The four-bit wire code of this packet type.
    pub fn code(&self) -> (r: u8)
        ensures
            r == spec_packet_code(*self),
    {
        match self {
            ControlPacketType::Reserved => 0,
            ControlPacketType::Connect => 1,
            ControlPacketType::Connack => 2,
            ControlPacketType::Publish => 3,
            ControlPacketType::Puback => 4,
            ControlPacketType::Pubrec => 5,
            ControlPacketType::Pubrel => 6,
            ControlPacketType::Pubcomp => 7,
            ControlPacketType::Subscribe => 8,
            ControlPacketType::Suback => 9,
            ControlPacketType::Unsubscribe => 10,
            ControlPacketType::Unsuback => 11,
            ControlPacketType::Pingreq => 12,
            ControlPacketType::Pingresp => 13,
            ControlPacketType::Disconnect => 14,
            ControlPacketType::Auth => 15,
        }
    }
}

/// The four-bit wire code of a packet type.
pub open spec fn spec_packet_code(t: ControlPacketType) -> u8 {
    match t {
        ControlPacketType::Reserved => 0,
        ControlPacketType::Connect => 1,
        ControlPacketType::Connack => 2,
        ControlPacketType::Publish => 3,
        ControlPacketType::Puback => 4,
        ControlPacketType::Pubrec => 5,
        ControlPacketType::Pubrel => 6,
        ControlPacketType::Pubcomp => 7,
        ControlPacketType::Subscribe => 8,
        ControlPacketType::Suback => 9,
        ControlPacketType::Unsubscribe => 10,
        ControlPacketType::Unsuback => 11,
        ControlPacketType::Pingreq => 12,
        ControlPacketType::Pingresp => 13,
        ControlPacketType::Disconnect => 14,
        ControlPacketType::Auth => 15,
    }
}

/// Wire code and packet type invert each other.
pub proof fn lemma_packet_code_inverse(t: ControlPacketType, code: int)
    ensures
        spec_packet_type_of(spec_packet_code(t) as int) == t,
        0 <= code <= 15 ==> spec_packet_code(spec_packet_type_of(code)) == code,
{
}

/// Who handed a PUBLISH to the session: the connected client or the broker.
#[derive(Clone, Copy, Debug, PartialEq, Eq, Structural)]
pub enum PublishSource {
    Client,
    Server,
}

/// The fixed header that starts every control packet.
#[derive(Clone, Debug, PartialEq, Eq, Structural)]
pub struct FixedHeader {
    pub control_packet: ControlPacketType,
    pub length: u32,
    pub dup: bool,
    pub qos: u8,
    pub retain: bool,
}

/// The CONNECT flag byte, unpacked.
#[derive(Clone, Copy, Debug, PartialEq, Eq, Structural)]
pub struct ConnectFlags {
    pub user_name: bool,
    pub password: bool,
    pub will_retain: bool,
    pub will_qos: u8,
    pub will: bool,
    pub clean_session: bool,
}

/// The CONNECT flags a byte unpacks to: one field per documented bit, with
/// `will_qos` keeping bits 3 and 4 in place as they sit in the wire byte.
pub open spec fn spec_connect_flags(byte: u8) -> ConnectFlags {
    ConnectFlags {
        user_name: byte as int / 128 % 2 == 1,
        password: byte as int / 64 % 2 == 1,
        will_retain: byte as int / 32 % 2 == 1,
        will_qos: (byte as int % 32 - byte as int % 8) as u8,
        will: byte as int / 4 % 2 == 1,
        clean_session: byte as int / 2 % 2 == 1,
    }
}

impl ConnectFlags {
    /// Unpack the CONNECT flag byte.
    pub fn new(byte: u8) -> (r: ConnectFlags)
        ensures
            r == spec_connect_flags(byte),
    {
        let r = ConnectFlags {
            user_name: byte / 128 % 2 == 1,
            password: byte / 64 % 2 == 1,
            will_retain: byte / 32 % 2 == 1,
            will_qos: byte % 32 - byte % 8,
            will: byte / 4 % 2 == 1,
            clean_session: byte / 2 % 2 == 1,
        };
        r
    }
}

/// The CONNECT variable header.
#[derive(Clone, Debug, PartialEq, Eq)]
pub struct ConnectVariableHeader {
    pub protocol_name: String,
    pub protocol_version: u32,
    pub connect_flags: ConnectFlags,
    pub keep_alive: u32,
}

/// The PUBLISH variable header.
#[derive(Clone, Debug, PartialEq, Eq)]
pub struct PublishVariableHeader {
    pub topic_name: String,
    pub message_id: u32,
}

/// A variable header that carries only a packet identifier.
#[derive(Clone, Copy, Debug, PartialEq, Eq, Structural)]
pub struct MessageIDVariableHeader {
    pub message_id: u32,
}

/// The variable header of a parsed packet.
#[derive(Clone, Debug, PartialEq, Eq)]
pub enum VariableHeader {
    Empty,
    Connect(ConnectVariableHeader),
    Publish(PublishVariableHeader),
    Subscribe(MessageIDVariableHeader),
}

/// The CONNECT payload: client identifier first, then the optional fields in
/// wire order.
#[derive(Clone, Debug, PartialEq, Eq)]
pub struct ConnectPayload {
    pub client_id: String,
    pub will_topic: Option<String>,
    pub will_message: Option<String>,
    pub user_name: Option<String>,
    pub password: Option<String>,
}

/// One requested subscription: a filter and the requested QoS.
#[derive(Clone, Debug, PartialEq, Eq)]
pub struct SubscriptionRequest {
    pub topic: String,
    pub qos: u8,
}

/// The payload of a parsed packet.
#[derive(Clone, Debug, PartialEq, Eq)]
pub enum MqttPayload {
    Empty,
    Connect(Vec<String>),
    Publish(String),
    Subscribe(Vec<SubscriptionRequest>),
}

/// A parsed control packet, as far as the broker consumes them.
#[derive(Clone, Debug, PartialEq, Eq)]
pub enum MqttMessage {
    Connect(FixedHeader, ConnectVariableHeader, ConnectPayload),
    Subscribe(FixedHeader, MessageIDVariableHeader, Vec<SubscriptionRequest>),
    Publish(FixedHeader, PublishVariableHeader, String, PublishSource),
    Puback(FixedHeader, MessageIDVariableHeader),
    Pubrec(FixedHeader, MessageIDVariableHeader),
    Pubrel(FixedHeader, MessageIDVariableHeader),
    Pubcomp(FixedHeader, MessageIDVariableHeader),
    Pingreq(FixedHeader),
    Disconnect(FixedHeader),
    Unknown,
}

/// The two-byte big-endian form of a packet identifier.
pub open spec fn spec_multibyte(message_id: u32) -> Seq<u8> {
    seq![(message_id as int / 256 % 256) as u8, (message_id as int % 256) as u8]
}

/// The MQTT variable-length integer form: seven bits per byte, least
/// significant group first, high bit set while more groups follow. Zero
/// encodes to no bytes at all.
pub open spec fn spec_varint(length: u32) -> Seq<u8>
    decreases length,
{
    if length == 0 {
        Seq::empty()
    } else if length as int / 128 > 0 {
        seq![(length as int % 128 + 128) as u8] + spec_varint((length as int / 128) as u32)
    } else {
        seq![(length as int % 128) as u8]
    }
}

impl MqttMessage {
    /// The two-byte big-endian form of a packet identifier's low 16 bits.
    pub fn encode_multibyte_num(message_id: u32) -> (r: Vec<u8>)
        ensures
            r@ == spec_multibyte(message_id),
    {
        let hi = ((message_id / 256) % 256) as u8;
        let lo = (message_id % 256) as u8;
        let mut v: Vec<u8> = Vec::new();
        v.push(hi);
        v.push(lo);
        proof {
            assert(v@ =~= spec_multibyte(message_id));
        }
        v
    }

    /// Encode a remaining-length value as a variable-length integer.
    pub fn encode_variable_num(length: u32) -> (r: Vec<u8>)
        ensures
            r@ == spec_varint(length),
    {
        let mut v: Vec<u8> = Vec::new();
        let mut rest: u32 = length;
        while rest > 0
            invariant
                spec_varint(length) == v@ + spec_varint(rest),
            decreases rest,
        {
            let mut next: u32 = rest % 128;
            rest = rest / 128;
            if rest > 0 {
                next = next + 128;
            }
            let ghost prev = v@;
            let ghost prev_rest = if rest > 0 { (next - 128) + 128 * rest } else {
                next + 128 * rest
            };
            v.push(next as u8);
            proof {
                assert(v@ =~= prev + seq![next as u8]);
                assert((prev + seq![next as u8]) + spec_varint(rest) =~= prev + (seq![
                    next as u8,
                ] + spec_varint(rest)));
            }
        }
        proof {
            assert(v@ + spec_varint(0) =~= v@);
        }
        v
    }

    /// Frame a packet that carries a packet identifier: a type nibble (or a
    /// prebuilt first byte), the remaining length, the identifier, and the
    /// payload.
    pub fn bytes_with_message_id(flag: u8, message_id: u32, payload: Option<Vec<u8>>) -> (r: Vec<
        u8,
    >)
        requires
            payload is Some ==> payload.unwrap()@.len() + 2 <= u32::MAX,
            payload is None ==> true,
        ensures
            ({
                let body = if payload is Some {
                    payload.unwrap()@
                } else {
                    Seq::<u8>::empty()
                };
                let first = if flag <= 15 {
                    (flag * 16) as u8
                } else {
                    flag
                };
                r@ == seq![first] + spec_varint((2 + body.len()) as u32) + spec_multibyte(
                    message_id,
                ) + body
            }),
    {
        let first: u8 = if flag <= 15 {
            flag * 16
        } else {
            flag
        };
        let body: Vec<u8> = match payload {
            Some(p) => p,
            None => Vec::new(),
        };
        let ghost body_view = body@;
        let mut message_id_bytes = MqttMessage::encode_multibyte_num(message_id);
        let remaining: u32 = (2 + body.len()) as u32;
        let mut length = MqttMessage::encode_variable_num(remaining);
        let mut v: Vec<u8> = Vec::new();
        v.push(first);
        v.append(&mut length);
        v.append(&mut message_id_bytes);
        let mut body_mut = body;
        v.append(&mut body_mut);
        proof {
            assert(v@ =~= seq![first] + spec_varint(remaining) + spec_multibyte(message_id)
                + body_view);
        }
        v
    }
}

/// A byte test for scanning a variable-length integer: does bit 6 hold a
/// continuation mark?
pub fn is_variable_length_int(byte: u8) -> (r: bool)
    ensures
        r == (byte as int / 64 % 2 == 1),
{
    byte / 64 % 2 == 1
}


/// The bytes a `String` holds.
pub open spec fn string_bytes(s: String) -> Seq<u8> {
    vstd::utf8::encode_utf8(s@)
}

/// Relies on String::from_utf8: it succeeds exactly on valid UTF-8 and the
/// string then holds the given bytes.
#[verifier::external_body]
pub(crate) fn string_from_utf8(bytes: Vec<u8>) -> (r: Option<String>)
    ensures
        r is Some <==> valid_utf8(bytes@),
        r is Some ==> string_bytes(r.unwrap()) == bytes@,
{
    String::from_utf8(bytes).ok()
}

/// The big-endian two-byte size stored at `c`.
pub open spec fn str_size_at(buf: Seq<u8>, c: int) -> int {
    buf[c] as int * 256 + buf[c + 1] as int
}

/// One length-prefixed UTF-8 string: its bytes and the position after it.
pub open spec fn spec_read_string(buf: Seq<u8>, c: int) -> Result<(Seq<u8>, int), DecodeError> {
    if c + 2 > buf.len() {
        Err(DecodeError::UnexpectedEof)
    } else {
        let n = str_size_at(buf, c);
        if c + 2 + n > buf.len() {
            Err(DecodeError::UnexpectedEof)
        } else if !valid_utf8(buf.subrange(c + 2, c + 2 + n)) {
            Err(DecodeError::InvalidUtf8)
        } else {
            Ok((buf.subrange(c + 2, c + 2 + n), c + 2 + n))
        }
    }
}

/// A variable-length integer read at `c` with at most `fuel` bytes: its value
/// and the position after it.
pub open spec fn spec_read_varint(buf: Seq<u8>, c: int, fuel: int) -> Result<
    (int, int),
    DecodeError,
>
    decreases fuel,
{
    if fuel <= 0 {
        Err(DecodeError::VarIntOverflow)
    } else if c < 0 || c >= buf.len() {
        Err(DecodeError::UnexpectedEof)
    } else if buf[c] < 128 {
        Ok((buf[c] as int, c + 1))
    } else {
        match spec_read_varint(buf, c + 1, fuel - 1) {
            Ok((v, c2)) => Ok(((buf[c] as int - 128) + 128 * v, c2)),
            Err(e) => Err(e),
        }
    }
}

/// Upper bound of a variable-length integer read with `fuel` bytes.
pub open spec fn pow128(fuel: int) -> int
    decreases fuel,
{
    if fuel <= 0 {
        1
    } else {
        128 * pow128(fuel - 1)
    }
}

/// The bounds used for remaining-length values.
pub proof fn lemma_pow128_values()
    ensures
        pow128(0) == 1,
        pow128(1) == 128,
        pow128(2) == 16384,
        pow128(3) == 2097152,
        pow128(4) == 268435456,
{
    assert(pow128(0) == 1);
    assert(pow128(1) == 128);
    assert(pow128(2) == 16384);
    assert(pow128(3) == 2097152);
    assert(pow128(4) == 268435456);
}

/// A variable-length integer read with `fuel` bytes is below `128^fuel`.
pub proof fn lemma_varint_bound(buf: Seq<u8>, c: int, fuel: int)
    ensures
        spec_read_varint(buf, c, fuel) matches Ok((v, c2)) ==> 0 <= v < pow128(fuel) && c < c2
            <= buf.len(),
    decreases fuel,
{
    lemma_pow128_pos(fuel - 1);
    if fuel > 0 && 0 <= c < buf.len() && buf[c] >= 128 {
        lemma_varint_bound(buf, c + 1, fuel - 1);
        assert(pow128(fuel) == 128 * pow128(fuel - 1));
    }
}

/// `128^fuel` is positive.
pub proof fn lemma_pow128_pos(fuel: int)
    ensures
        pow128(fuel) >= 1,
    decreases fuel,
{
    if fuel > 0 {
        lemma_pow128_pos(fuel - 1);
    }
}

/// The reserved flag bits allowed for each packet type: PUBLISH may use its
/// dup/QoS/retain bits but not QoS 3; PUBREL, SUBSCRIBE and UNSUBSCRIBE fix
/// the bits to 2; every other type fixes them to 0.
pub open spec fn spec_flags_ok(ptype: int, flags: int) -> bool {
    if ptype == 3 {
        flags % 8 / 2 != 3
    } else if ptype == 6 || ptype == 8 || ptype == 10 {
        flags == 2
    } else {
        flags == 0
    }
}

/// The fixed header read at `c` and the position after it.
pub open spec fn spec_parse_fixed_header(buf: Seq<u8>, c: int) -> Result<
    (FixedHeader, int),
    DecodeError,
> {
    if c < 0 || c >= buf.len() {
        Err(DecodeError::UnexpectedEof)
    } else {
        let b = buf[c] as int;
        let ptype = b / 16;
        let flags = b % 16;
        if !spec_flags_ok(ptype, flags) {
            Err(DecodeError::MalformedFixedHeader)
        } else {
            match spec_read_varint(buf, c + 1, 4) {
                Ok((v, c2)) => Ok(
                    (
                        FixedHeader {
                            control_packet: spec_packet_type_of(ptype),
                            length: v as u32,
                            dup: flags >= 8,
                            qos: (flags % 8 / 2) as u8,
                            retain: flags % 2 == 1,
                        },
                        c2,
                    ),
                ),
                Err(e) => Err(e),
            }
        }
    }
}

/// The strings read back to back from `c` until the buffer ends or a string
/// is broken; a broken string ends the list silently.
pub open spec fn spec_read_strings(buf: Seq<u8>, c: int) -> Seq<Seq<u8>>
    decreases buf.len() - c,
{
    if c >= buf.len() {
        Seq::empty()
    } else {
        match spec_read_string(buf, c) {
            Ok((str0, c2)) => seq![str0] + spec_read_strings(buf, c2),
            Err(_) => Seq::empty(),
        }
    }
}

/// The subscription requests read back to back from `c`: each a string and a
/// QoS byte, a missing QoS byte standing as zero.
pub open spec fn spec_read_subs(buf: Seq<u8>, c: int) -> Seq<(Seq<u8>, u8)>
    decreases buf.len() - c,
{
    if c >= buf.len() {
        Seq::empty()
    } else {
        match spec_read_string(buf, c) {
            Ok((str0, c2)) => {
                let q = if c2 < buf.len() {
                    buf[c2]
                } else {
                    0
                };
                let c3 = if c2 < buf.len() {
                    c2 + 1
                } else {
                    c2
                };
                seq![(str0, q)] + spec_read_subs(buf, c3)
            },
            Err(_) => Seq::empty(),
        }
    }
}

/// The view of a parsed subscription request.
pub open spec fn sub_request_view(r: SubscriptionRequest) -> (Seq<u8>, u8) {
    (string_bytes(r.topic), r.qos)
}

/// The optional CONNECT payload field at position `i` of the string list.
pub open spec fn payload_field_at(field: Option<String>, strings: Seq<Seq<u8>>, i: int) -> bool {
    if strings.len() > i {
        field matches Some(s) && string_bytes(s) == strings[i]
    } else {
        field is None
    }
}

/// The CONNECT variable header at `c`: protocol name bytes, version byte,
/// flag byte, keep-alive value, and the position after it.
pub open spec fn spec_parse_connect_vh(buf: Seq<u8>, c: int) -> Result<
    (Seq<u8>, u8, u8, int, int),
    DecodeError,
> {
    match spec_read_string(buf, c) {
        Ok((name, c2)) => {
            if c2 + 4 > buf.len() {
                Err(DecodeError::UnexpectedEof)
            } else {
                Ok((name, buf[c2], buf[c2 + 1], str_size_at(buf, c2 + 2), c2 + 4))
            }
        },
        Err(e) => Err(e),
    }
}

/// What parsing a CONNECT body (after the fixed header) must produce.
pub open spec fn spec_connect_outcome(
    buf: Seq<u8>,
    c: int,
    fh: FixedHeader,
    r: Result<MqttMessage, DecodeError>,
) -> bool {
    match spec_parse_connect_vh(buf, c) {
        Err(e) => r == Err::<MqttMessage, DecodeError>(e),
        Ok((name, version, flags, keep_alive, c2)) => {
            if version != 3 && version != 4 && version != 5 {
                r == Err::<MqttMessage, DecodeError>(DecodeError::UnsupportedProtocol)
            } else {
                let strings = spec_read_strings(buf, c2);
                r matches Ok(MqttMessage::Connect(fh2, vh, p)) && fh2 == fh && string_bytes(
                    vh.protocol_name,
                ) == name && vh.protocol_version == version as u32 && vh.connect_flags
                    == spec_connect_flags(flags) && vh.keep_alive == keep_alive as u32 && (if
                strings.len() > 0 {
                    string_bytes(p.client_id) == strings[0]
                } else {
                    string_bytes(p.client_id) == Seq::<u8>::empty()
                }) && payload_field_at(p.will_topic, strings, 1) && payload_field_at(
                    p.will_message,
                    strings,
                    2,
                ) && payload_field_at(p.user_name, strings, 3) && payload_field_at(
                    p.password,
                    strings,
                    4,
                )
            }
        },
    }
}

/// What parsing a PUBLISH body (after the fixed header) must produce.
pub open spec fn spec_publish_outcome(
    buf: Seq<u8>,
    c: int,
    fh: FixedHeader,
    r: Result<MqttMessage, DecodeError>,
) -> bool {
    match spec_read_string(buf, c) {
        Err(e) => r == Err::<MqttMessage, DecodeError>(e),
        Ok((topic, c2)) => {
            if fh.qos > 0 && c2 + 2 > buf.len() {
                r == Err::<MqttMessage, DecodeError>(DecodeError::UnexpectedEof)
            } else {
                let mid = if fh.qos > 0 {
                    str_size_at(buf, c2)
                } else {
                    0
                };
                let c3 = if fh.qos > 0 {
                    c2 + 2
                } else {
                    c2
                };
                let body = buf.subrange(c3, buf.len() as int);
                if valid_utf8(body) {
                    r matches Ok(MqttMessage::Publish(fh2, vh, payload, src)) && fh2 == fh
                        && string_bytes(vh.topic_name) == topic && vh.message_id == mid as u32
                        && string_bytes(payload) == body && src == PublishSource::Client
                } else {
                    r == Err::<MqttMessage, DecodeError>(DecodeError::InvalidUtf8)
                }
            }
        },
    }
}

/// What parsing a SUBSCRIBE body (after the fixed header) must produce.
pub open spec fn spec_subscribe_outcome(
    buf: Seq<u8>,
    c: int,
    fh: FixedHeader,
    r: Result<MqttMessage, DecodeError>,
) -> bool {
    if fh.qos > 0 && c + 2 > buf.len() {
        r == Err::<MqttMessage, DecodeError>(DecodeError::UnexpectedEof)
    } else {
        let mid = if fh.qos > 0 {
            str_size_at(buf, c)
        } else {
            0
        };
        let c2 = if fh.qos > 0 {
            c + 2
        } else {
            c
        };
        let subs = spec_read_subs(buf, c2);
        r matches Ok(MqttMessage::Subscribe(fh2, vh, reqs)) && fh2 == fh && vh.message_id == mid
            as u32 && reqs@.map_values(|q: SubscriptionRequest| sub_request_view(q)) == subs
    }
}

/// What parsing an acknowledgement body (a bare packet identifier) must
/// produce, for the given constructor.
pub open spec fn spec_msgid_outcome(
    buf: Seq<u8>,
    c: int,
    r: Result<MessageIDVariableHeader, DecodeError>,
) -> bool {
    if c + 2 > buf.len() {
        r == Err::<MessageIDVariableHeader, DecodeError>(DecodeError::UnexpectedEof)
    } else {
        (r matches Ok(h) && h.message_id == str_size_at(buf, c) as u32)
    }
}

/// What an acknowledgement arm of the packet parser must produce.
pub open spec fn ack_arm_outcome(
    buf: Seq<u8>,
    c: int,
    fh: FixedHeader,
    r: Result<MqttMessage, DecodeError>,
) -> bool {
    if c + 2 > buf.len() {
        r == Err::<MqttMessage, DecodeError>(DecodeError::UnexpectedEof)
    } else {
        let mid = str_size_at(buf, c) as u32;
        match fh.control_packet {
            ControlPacketType::Puback => (r matches Ok(MqttMessage::Puback(f2, h)) && f2 == fh
                && h.message_id == mid),
            ControlPacketType::Pubrec => (r matches Ok(MqttMessage::Pubrec(f2, h)) && f2 == fh
                && h.message_id == mid),
            ControlPacketType::Pubrel => (r matches Ok(MqttMessage::Pubrel(f2, h)) && f2 == fh
                && h.message_id == mid),
            ControlPacketType::Pubcomp => (r matches Ok(MqttMessage::Pubcomp(f2, h)) && f2 == fh
                && h.message_id == mid),
            _ => true,
        }
    }
}

/// A cursor over a packet buffer.
#[derive(Debug)]
pub struct ByteParser {
    pub buf: Vec<u8>,
    pub cursor: usize,
}

impl ByteParser {
    /// A parser at the start of the buffer.
    pub fn new(buf: Vec<u8>) -> (r: ByteParser)
        ensures
            r.buf@ == buf@,
            r.cursor == 0,
    {
        ByteParser { buf, cursor: 0 }
    }

    /// Read one byte and advance, or return nothing at the end.
    pub fn next(&mut self) -> (r: Option<u8>)
        ensures
            final(self).buf@ == old(self).buf@,
            if old(self).cursor < old(self).buf@.len() {
                r == Some(old(self).buf@[old(self).cursor as int]) && final(self).cursor == old(self).cursor + 1
            } else {
                r is None && final(self).cursor == old(self).cursor
            },
    {
        if self.cursor < self.buf.len() {
            let b = self.buf[self.cursor];
            self.cursor = self.cursor + 1;
            Some(b)
        } else {
            None
        }
    }

    /// Read one byte without advancing.
    pub fn peek(&mut self) -> (r: Option<u8>)
        ensures
            final(self).buf@ == old(self).buf@,
            final(self).cursor == old(self).cursor,
            if old(self).cursor < old(self).buf@.len() {
                r == Some(old(self).buf@[old(self).cursor as int])
            } else {
                r is None
            },
    {
        if self.cursor < self.buf.len() {
            Some(self.buf[self.cursor])
        } else {
            None
        }
    }

    /// Take the next `n` bytes, or fail without moving when fewer remain.
    pub fn take(&mut self, n: usize) -> (r: Result<Vec<u8>, DecodeError>)
        ensures
            final(self).buf@ == old(self).buf@,
            if old(self).cursor + n <= old(self).buf@.len() {
                r matches Ok(v) && v@ == old(self).buf@.subrange(
                    old(self).cursor as int,
                    old(self).cursor + n,
                ) && final(self).cursor == old(self).cursor + n
            } else {
                r == Err::<Vec<u8>, DecodeError>(DecodeError::UnexpectedEof) && final(self).cursor == old(self).cursor
            },
    {
        if self.cursor <= self.buf.len() && n <= self.buf.len() - self.cursor {
            let s = vstd::slice::slice_subrange(self.buf.as_slice(), self.cursor, self.cursor + n);
            let v = vstd::slice::slice_to_vec(s);
            self.cursor = self.cursor + n;
            Ok(v)
        } else {
            Err(DecodeError::UnexpectedEof)
        }
    }

    /// Read a two-byte big-endian size.
    pub fn get_str_size(&mut self) -> (r: Result<u32, DecodeError>)
        ensures
            final(self).buf@ == old(self).buf@,
            if old(self).cursor + 2 <= old(self).buf@.len() {
                r == Ok::<u32, DecodeError>(
                    str_size_at(old(self).buf@, old(self).cursor as int) as u32,
                ) && final(self).cursor == old(self).cursor + 2
            } else {
                r == Err::<u32, DecodeError>(DecodeError::UnexpectedEof) && final(self).cursor == old(self).cursor
            },
    {
        let bytes = self.take(2)?;
        let size = (bytes[0] as u32) * 256 + (bytes[1] as u32);
        Ok(size)
    }

    /// Read a length-prefixed UTF-8 string.
    pub fn parse_string_mandatory(&mut self) -> (r: Result<String, DecodeError>)
        ensures
            final(self).buf@ == old(self).buf@,
            match spec_read_string(old(self).buf@, old(self).cursor as int) {
                Ok((bytes, c2)) => r matches Ok(s) && string_bytes(s) == bytes && final(self).cursor
                    == c2,
                Err(e) => r == Err::<String, DecodeError>(e),
            },
    {
        let size = self.get_str_size()?;
        let bytes = self.take(size as usize)?;
        match string_from_utf8(bytes) {
            Some(s) => Ok(s),
            None => Err(DecodeError::InvalidUtf8),
        }
    }

    /// Read a length-prefixed UTF-8 string; same reading as
    /// `parse_string_mandatory`.
    pub fn parse_string(&mut self) -> (r: Result<String, DecodeError>)
        ensures
            final(self).buf@ == old(self).buf@,
            match spec_read_string(old(self).buf@, old(self).cursor as int) {
                Ok((bytes, c2)) => r matches Ok(s) && string_bytes(s) == bytes && final(self).cursor
                    == c2,
                Err(e) => r == Err::<String, DecodeError>(e),
            },
    {
        self.parse_string_mandatory()
    }

    /// Take bytes while the condition holds of each.
    pub fn take_while<F: Fn(u8) -> bool>(&mut self, cond: F) -> (r: Result<Vec<u8>, DecodeError>)
        requires
            forall|b: u8| #[trigger] cond.requires((b,)),
        ensures
            final(self).buf@ == old(self).buf@,
            old(self).cursor <= old(self).buf@.len() ==> (r matches Ok(v) && old(self).cursor
                <= final(self).cursor <= old(self).buf@.len() && v@ == old(self).buf@.subrange(
                old(self).cursor as int,
                final(self).cursor as int,
            ) && (forall|j: int|
                old(self).cursor <= j < final(self).cursor ==> cond.ensures(
                    (old(self).buf@[j],),
                    true,
                )) && (final(self).cursor < old(self).buf@.len() ==> cond.ensures(
                (old(self).buf@[final(self).cursor as int],),
                false,
            ))),
    {
        let start = self.cursor;
        if start > self.buf.len() {
            return Err(DecodeError::UnexpectedEof);
        }
        let ghost buf0 = self.buf@;
        let mut curr = start;
        loop
            invariant
                self.buf@ == buf0,
                self.cursor == start,
                start <= curr <= buf0.len(),
                forall|j: int| start <= j < curr ==> cond.ensures((buf0[j],), true),
                forall|b: u8| #[trigger] cond.requires((b,)),
            ensures
                self.buf@ == buf0,
                self.cursor == start,
                start <= curr <= buf0.len(),
                forall|j: int| start <= j < curr ==> cond.ensures((buf0[j],), true),
                curr < buf0.len() ==> cond.ensures((buf0[curr as int],), false),
            decreases buf0.len() - curr,
        {
            if curr >= self.buf.len() {
                break;
            }
            let b = self.buf[curr];
            if !cond(b) {
                break;
            }
            curr = curr + 1;
        }
        let s = vstd::slice::slice_subrange(self.buf.as_slice(), start, curr);
        let v = vstd::slice::slice_to_vec(s);
        self.cursor = curr;
        Ok(v)
    }

    /// Read a variable-length integer of at most `fuel` bytes.
    fn read_varint(&mut self, fuel: u8) -> (r: Result<u32, DecodeError>)
        requires
            fuel <= 4,
        ensures
            final(self).buf@ == old(self).buf@,
            match spec_read_varint(old(self).buf@, old(self).cursor as int, fuel as int) {
                Ok((v, c2)) => r == Ok::<u32, DecodeError>(v as u32) && final(self).cursor == c2,
                Err(e) => r == Err::<u32, DecodeError>(e),
            },
        decreases fuel,
    {
        proof {
            lemma_varint_bound(old(self).buf@, old(self).cursor as int, fuel as int);
            lemma_pow128_values();
        }
        if fuel == 0 {
            return Err(DecodeError::VarIntOverflow);
        }
        if self.cursor >= self.buf.len() {
            return Err(DecodeError::UnexpectedEof);
        }
        let b = self.buf[self.cursor];
        if b < 128 {
            self.cursor = self.cursor + 1;
            return Ok(b as u32);
        }
        self.cursor = self.cursor + 1;
        proof {
            lemma_varint_bound(self.buf@, self.cursor as int, fuel as int - 1);
        }
        let rest = self.read_varint(fuel - 1)?;
        Ok((b as u32 - 128) + 128 * rest)
    }

    /// Parse the fixed header: the packet-type byte with its flag bits
    /// checked, then the remaining length.
    pub fn parse_fixed_header(&mut self) -> (r: Result<FixedHeader, DecodeError>)
        ensures
            final(self).buf@ == old(self).buf@,
            match spec_parse_fixed_header(old(self).buf@, old(self).cursor as int) {
                Ok((fh, c2)) => r == Ok::<FixedHeader, DecodeError>(fh) && final(self).cursor == c2,
                Err(e) => r == Err::<FixedHeader, DecodeError>(e),
            },
    {
        if self.cursor >= self.buf.len() {
            return Err(DecodeError::UnexpectedEof);
        }
        let b = self.buf[self.cursor];
        let ptype = b / 16;
        let flags = b % 16;
        let flags_ok = if ptype == 3 {
            flags % 8 / 2 != 3
        } else if ptype == 6 || ptype == 8 || ptype == 10 {
            flags == 2
        } else {
            flags == 0
        };
        if !flags_ok {
            return Err(DecodeError::MalformedFixedHeader);
        }
        self.cursor = self.cursor + 1;
        let length = self.read_varint(4)?;
        Ok(
            FixedHeader {
                control_packet: ControlPacketType::from_code(ptype),
                length,
                dup: flags >= 8,
                qos: flags % 8 / 2,
                retain: flags % 2 == 1,
            },
        )
    }
}


impl ByteParser {
    /// Parse the CONNECT variable header.
    pub fn parse_variable_header_connect(&mut self) -> (r: Result<
        ConnectVariableHeader,
        DecodeError,
    >)
        ensures
            final(self).buf@ == old(self).buf@,
            match spec_parse_connect_vh(old(self).buf@, old(self).cursor as int) {
                Ok((name, version, flags, keep_alive, c2)) => (r matches Ok(h) && string_bytes(
                    h.protocol_name,
                ) == name && h.protocol_version == version as u32 && h.connect_flags
                    == spec_connect_flags(flags) && h.keep_alive == keep_alive as u32 && final(self).cursor == c2),
                Err(e) => r == Err::<ConnectVariableHeader, DecodeError>(e),
            },
    {
        let protocol_name = self.parse_string_mandatory()?;
        let version_bytes = self.take(1)?;
        let protocol_version = version_bytes[0] as u32;
        let flag_bytes = self.take(1)?;
        let connect_flags = ConnectFlags::new(flag_bytes[0]);
        let keep_alive = self.get_str_size()?;
        Ok(ConnectVariableHeader { protocol_name, protocol_version, connect_flags, keep_alive })
    }

    /// Parse the PUBLISH variable header; a packet identifier follows the
    /// topic only for QoS above zero.
    pub fn parse_variable_header_publish(&mut self, qos: u8) -> (r: Result<
        PublishVariableHeader,
        DecodeError,
    >)
        ensures
            final(self).buf@ == old(self).buf@,
            match spec_read_string(old(self).buf@, old(self).cursor as int) {
                Ok((topic, c2)) => {
                    if qos > 0 && c2 + 2 > old(self).buf@.len() {
                        r == Err::<PublishVariableHeader, DecodeError>(DecodeError::UnexpectedEof)
                    } else {
                        let mid = if qos > 0 {
                            str_size_at(old(self).buf@, c2)
                        } else {
                            0
                        };
                        let c3 = if qos > 0 {
                            c2 + 2
                        } else {
                            c2
                        };
                        r matches Ok(h) && string_bytes(h.topic_name) == topic && h.message_id
                            == mid as u32 && final(self).cursor == c3
                    }
                },
                Err(e) => r == Err::<PublishVariableHeader, DecodeError>(e),
            },
    {
        let topic_name = self.parse_string_mandatory()?;
        let message_id = if qos > 0 {
            self.get_str_size()?
        } else {
            0
        };
        Ok(PublishVariableHeader { topic_name, message_id })
    }

    /// Parse a packet-identifier variable header; the identifier is present
    /// only for QoS above zero.
    pub fn parse_variable_header_subscribe(&mut self, qos: u8) -> (r: Result<
        MessageIDVariableHeader,
        DecodeError,
    >)
        ensures
            final(self).buf@ == old(self).buf@,
            if qos > 0 && old(self).cursor + 2 > old(self).buf@.len() {
                r == Err::<MessageIDVariableHeader, DecodeError>(DecodeError::UnexpectedEof)
            } else {
                (r matches Ok(h) && h.message_id == (if qos > 0 {
                    str_size_at(old(self).buf@, old(self).cursor as int)
                } else {
                    0
                }) as u32 && final(self).cursor == (if qos > 0 {
                    old(self).cursor + 2
                } else {
                    old(self).cursor as int
                }))
            },
    {
        let message_id = if qos > 0 {
            self.get_str_size()?
        } else {
            0
        };
        Ok(MessageIDVariableHeader { message_id })
    }

    /// Parse the variable header for a packet type: CONNECT and PUBLISH have
    /// one, every other type parses as empty here.
    pub fn parse_variable_header(&mut self, control_packet: ControlPacketType) -> (r: Result<
        VariableHeader,
        DecodeError,
    >)
        ensures
            final(self).buf@ == old(self).buf@,
            match control_packet {
                ControlPacketType::Connect => match spec_parse_connect_vh(
                    old(self).buf@,
                    old(self).cursor as int,
                ) {
                    Ok((name, version, flags, keep_alive, c2)) => (r matches Ok(
                        VariableHeader::Connect(h),
                    ) && string_bytes(h.protocol_name) == name && h.protocol_version == version
                        as u32 && h.connect_flags == spec_connect_flags(flags) && h.keep_alive
                        == keep_alive as u32 && final(self).cursor == c2),
                    Err(e) => r == Err::<VariableHeader, DecodeError>(e),
                },
                ControlPacketType::Publish => match spec_read_string(
                    old(self).buf@,
                    old(self).cursor as int,
                ) {
                    Ok((topic, c2)) => (r matches Ok(VariableHeader::Publish(h)) && string_bytes(
                        h.topic_name,
                    ) == topic && h.message_id == 0 && final(self).cursor == c2),
                    Err(e) => r == Err::<VariableHeader, DecodeError>(e),
                },
                _ => r == Ok::<VariableHeader, DecodeError>(VariableHeader::Empty) && final(self).cursor == old(self).cursor,
            },
    {
        match control_packet {
            ControlPacketType::Connect => {
                let h = self.parse_variable_header_connect()?;
                Ok(VariableHeader::Connect(h))
            },
            ControlPacketType::Publish => {
                let h = self.parse_variable_header_publish(0)?;
                Ok(VariableHeader::Publish(h))
            },
            _ => Ok(VariableHeader::Empty),
        }
    }

    /// Read length-prefixed strings until the buffer ends or one is broken.
    fn read_strings(&mut self) -> (r: Vec<String>)
        ensures
            final(self).buf@ == old(self).buf@,
            r@.map_values(|s1: String| string_bytes(s1)) == spec_read_strings(
                old(self).buf@,
                old(self).cursor as int,
            ),
    {
        let ghost buf = self.buf@;
        let ghost start = self.cursor as int;
        let mut out: Vec<String> = Vec::new();
        if self.cursor >= self.buf.len() {
            proof {
                assert(out@.map_values(|s1: String| string_bytes(s1)) =~= spec_read_strings(
                    buf,
                    start,
                ));
            }
            return out;
        }
        loop
            invariant_except_break
                self.cursor <= buf.len(),
                spec_read_strings(buf, start) =~= out@.map_values(|s1: String| string_bytes(s1))
                    + spec_read_strings(buf, self.cursor as int),
            invariant
                self.buf@ == buf,
            ensures
                self.buf@ == buf,
                out@.map_values(|s1: String| string_bytes(s1)) =~= spec_read_strings(buf, start),
            decreases buf.len() - self.cursor,
        {
            if self.cursor >= self.buf.len() {
                proof {
                    assert(spec_read_strings(buf, self.cursor as int) =~= Seq::<Seq<u8>>::empty());
                    assert(out@.map_values(|s1: String| string_bytes(s1)) + Seq::<
                        Seq<u8>,
                    >::empty() =~= out@.map_values(|s1: String| string_bytes(s1)));
                }
                break;
            }
            let ghost c = self.cursor as int;
            let ghost prev = out@;
            match self.parse_string() {
                Ok(s1) => {
                    out.push(s1);
                    proof {
                        let f = |s1: String| string_bytes(s1);
                        assert(out@ =~= prev.push(s1));
                        assert(prev.push(s1).map_values(f) =~= prev.map_values(f) + seq![
                            string_bytes(s1),
                        ]);
                        assert(spec_read_strings(buf, c) == seq![string_bytes(s1)]
                            + spec_read_strings(buf, self.cursor as int));
                        assert(spec_read_strings(buf, start) =~= out@.map_values(f)
                            + spec_read_strings(buf, self.cursor as int));
                    }
                },
                Err(_) => {
                    proof {
                        assert(spec_read_strings(buf, c) =~= Seq::<Seq<u8>>::empty());
                        assert(out@.map_values(|s1: String| string_bytes(s1)) + Seq::<
                            Seq<u8>,
                        >::empty() =~= out@.map_values(|s1: String| string_bytes(s1)));
                    }
                    break;
                },
            }
        }
        out
    }

    /// Read subscription requests until the buffer ends or a string is
    /// broken; a missing QoS byte stands as zero.
    fn read_subs(&mut self) -> (r: Vec<SubscriptionRequest>)
        ensures
            final(self).buf@ == old(self).buf@,
            r@.map_values(|q: SubscriptionRequest| sub_request_view(q)) == spec_read_subs(
                old(self).buf@,
                old(self).cursor as int,
            ),
    {
        let ghost buf = self.buf@;
        let ghost start = self.cursor as int;
        let mut out: Vec<SubscriptionRequest> = Vec::new();
        if self.cursor >= self.buf.len() {
            proof {
                assert(out@.map_values(|q: SubscriptionRequest| sub_request_view(q))
                    =~= spec_read_subs(buf, start));
            }
            return out;
        }
        loop
            invariant_except_break
                self.cursor <= buf.len(),
                spec_read_subs(buf, start) =~= out@.map_values(
                    |q: SubscriptionRequest| sub_request_view(q),
                ) + spec_read_subs(buf, self.cursor as int),
            invariant
                self.buf@ == buf,
            ensures
                self.buf@ == buf,
                out@.map_values(|q: SubscriptionRequest| sub_request_view(q)) =~= spec_read_subs(
                    buf,
                    start,
                ),
            decreases buf.len() - self.cursor,
        {
            if self.cursor >= self.buf.len() {
                proof {
                    assert(spec_read_subs(buf, self.cursor as int) =~= Seq::<
                        (Seq<u8>, u8),
                    >::empty());
                    assert(out@.map_values(|q: SubscriptionRequest| sub_request_view(q)) + Seq::<
                        (Seq<u8>, u8),
                    >::empty() =~= out@.map_values(|q: SubscriptionRequest| sub_request_view(q)));
                }
                break;
            }
            let ghost c = self.cursor as int;
            let ghost prev = out@;
            match self.parse_string() {
                Ok(topic) => {
                    let ghost c2 = self.cursor as int;
                    let qos = match self.next() {
                        Some(b) => b,
                        None => 0,
                    };
                    let req = SubscriptionRequest { topic, qos };
                    out.push(req);
                    proof {
                        let f = |q: SubscriptionRequest| sub_request_view(q);
                        assert(out@ =~= prev.push(req));
                        assert(prev.push(req).map_values(f) =~= prev.map_values(f) + seq![
                            sub_request_view(req),
                        ]);
                        assert(spec_read_subs(buf, c) == seq![sub_request_view(req)]
                            + spec_read_subs(buf, self.cursor as int));
                        assert(spec_read_subs(buf, start) =~= out@.map_values(f) + spec_read_subs(
                            buf,
                            self.cursor as int,
                        ));
                    }
                },
                Err(_) => {
                    proof {
                        assert(spec_read_subs(buf, c) =~= Seq::<(Seq<u8>, u8)>::empty());
                        assert(out@.map_values(|q: SubscriptionRequest| sub_request_view(q)) + Seq::<
                            (Seq<u8>, u8),
                        >::empty() =~= out@.map_values(
                            |q: SubscriptionRequest| sub_request_view(q),
                        ));
                    }
                    break;
                },
            }
        }
        out
    }

    /// Parse a CONNECT body: variable header, protocol version check, then
    /// the payload strings in wire order.
    pub fn parse_connect_message(&mut self, fixed_header: FixedHeader) -> (r: Result<
        MqttMessage,
        DecodeError,
    >)
        ensures
            final(self).buf@ == old(self).buf@,
            spec_connect_outcome(old(self).buf@, old(self).cursor as int, fixed_header, r),
    {
        let variable_header = self.parse_variable_header_connect()?;
        let v = variable_header.protocol_version;
        if v != 3 && v != 4 && v != 5 {
            return Err(DecodeError::UnsupportedProtocol);
        }
        let strings = self.read_strings();
        let ghost ss = strings@.map_values(|s1: String| string_bytes(s1));
        let client_id = if strings.len() > 0 {
            strings[0].clone()
        } else {
            String::new()
        };
        let will_topic = if strings.len() > 1 {
            Some(strings[1].clone())
        } else {
            None
        };
        let will_message = if strings.len() > 2 {
            Some(strings[2].clone())
        } else {
            None
        };
        let user_name = if strings.len() > 3 {
            Some(strings[3].clone())
        } else {
            None
        };
        let password = if strings.len() > 4 {
            Some(strings[4].clone())
        } else {
            None
        };
        let payload = ConnectPayload { client_id, will_topic, will_message, user_name, password };
        proof {
            assert(vstd::utf8::encode_utf8(Seq::<char>::empty()) =~= Seq::<u8>::empty());
        }
        Ok(MqttMessage::Connect(fixed_header, variable_header, payload))
    }

    /// Parse a PUBLISH body: variable header, then the rest of the buffer as
    /// the payload string, consuming the input whole.
    pub fn parse_publish_message(&mut self, fixed_header: FixedHeader) -> (r: Result<
        MqttMessage,
        DecodeError,
    >)
        ensures
            final(self).buf@ == old(self).buf@,
            spec_publish_outcome(old(self).buf@, old(self).cursor as int, fixed_header, r),
            r is Ok ==> final(self).cursor == old(self).buf@.len(),
    {
        let variable_header = self.parse_variable_header_publish(fixed_header.qos)?;
        let n = self.buf.len() - self.cursor;
        let bytes = self.take(n)?;
        proof {
            assert(bytes@ =~= old(self).buf@.subrange(
                old(self).buf@.len() - n,
                old(self).buf@.len() as int,
            ));
        }
        let payload = match string_from_utf8(bytes) {
            Some(s1) => s1,
            None => {
                return Err(DecodeError::InvalidUtf8);
            },
        };
        Ok(
            MqttMessage::Publish(
                fixed_header,
                variable_header,
                payload,
                PublishSource::Client,
            ),
        )
    }

    /// Parse a SUBSCRIBE body: packet identifier, then the requested
    /// subscriptions.
    pub fn parse_subscribe_message(&mut self, fixed_header: FixedHeader) -> (r: Result<
        MqttMessage,
        DecodeError,
    >)
        ensures
            final(self).buf@ == old(self).buf@,
            spec_subscribe_outcome(old(self).buf@, old(self).cursor as int, fixed_header, r),
    {
        let variable_header = self.parse_variable_header_subscribe(fixed_header.qos)?;
        let payload = self.read_subs();
        Ok(MqttMessage::Subscribe(fixed_header, variable_header, payload))
    }

    /// Parse the payload alone for a packet type, from the cursor to the end
    /// of the buffer.
    pub fn parse_payload(&mut self, control_packet: ControlPacketType) -> (r: Result<
        MqttPayload,
        DecodeError,
    >)
        ensures
            final(self).buf@ == old(self).buf@,
            match control_packet {
                ControlPacketType::Connect => (r matches Ok(MqttPayload::Connect(ss))
                    && ss@.map_values(|s1: String| string_bytes(s1)) == spec_read_strings(
                    old(self).buf@,
                    old(self).cursor as int,
                )),
                ControlPacketType::Publish => {
                    let body = old(self).buf@.subrange(
                        old(self).cursor as int,
                        old(self).buf@.len() as int,
                    );
                    if old(self).cursor <= old(self).buf@.len() && valid_utf8(body) {
                        r matches Ok(MqttPayload::Publish(s1)) && string_bytes(s1) == body
                    } else {
                        r == Err::<MqttPayload, DecodeError>(DecodeError::InvalidUtf8) || r == Err::<
                            MqttPayload,
                            DecodeError,
                        >(DecodeError::UnexpectedEof)
                    }
                },
                ControlPacketType::Subscribe => (r matches Ok(MqttPayload::Subscribe(qs))
                    && qs@.map_values(|q: SubscriptionRequest| sub_request_view(q))
                    == spec_read_subs(old(self).buf@, old(self).cursor as int)),
                _ => r == Ok::<MqttPayload, DecodeError>(MqttPayload::Empty),
            },
    {
        match control_packet {
            ControlPacketType::Connect => Ok(MqttPayload::Connect(self.read_strings())),
            ControlPacketType::Publish => {
                if self.cursor > self.buf.len() {
                    return Err(DecodeError::UnexpectedEof);
                }
                let n = self.buf.len() - self.cursor;
                let bytes = self.take(n)?;
                proof {
                    assert(bytes@ =~= old(self).buf@.subrange(
                        old(self).cursor as int,
                        old(self).buf@.len() as int,
                    ));
                }
                match string_from_utf8(bytes) {
                    Some(s1) => Ok(MqttPayload::Publish(s1)),
                    None => Err(DecodeError::InvalidUtf8),
                }
            },
            ControlPacketType::Subscribe => Ok(MqttPayload::Subscribe(self.read_subs())),
            _ => Ok(MqttPayload::Empty),
        }
    }

    /// Parse one control packet: the fixed header, then the body for the
    /// packet types the broker consumes; other types parse as `Unknown`.
    pub fn parse_mqtt(&mut self) -> (r: Result<MqttMessage, DecodeError>)
        ensures
            final(self).buf@ == old(self).buf@,
            match spec_parse_fixed_header(old(self).buf@, old(self).cursor as int) {
                Err(e) => r == Err::<MqttMessage, DecodeError>(e),
                Ok((fh, c2)) => match fh.control_packet {
                    ControlPacketType::Connect => spec_connect_outcome(old(self).buf@, c2, fh, r),
                    ControlPacketType::Publish => spec_publish_outcome(old(self).buf@, c2, fh, r),
                    ControlPacketType::Subscribe => spec_subscribe_outcome(
                        old(self).buf@,
                        c2,
                        fh,
                        r,
                    ),
                    ControlPacketType::Puback => ack_arm_outcome(old(self).buf@, c2, fh, r),
                    ControlPacketType::Pubrec => ack_arm_outcome(old(self).buf@, c2, fh, r),
                    ControlPacketType::Pubrel => ack_arm_outcome(old(self).buf@, c2, fh, r),
                    ControlPacketType::Pubcomp => ack_arm_outcome(old(self).buf@, c2, fh, r),
                    ControlPacketType::Pingreq => r == Ok::<MqttMessage, DecodeError>(
                        MqttMessage::Pingreq(fh),
                    ),
                    ControlPacketType::Disconnect => r == Ok::<MqttMessage, DecodeError>(
                        MqttMessage::Disconnect(fh),
                    ),
                    _ => r == Ok::<MqttMessage, DecodeError>(MqttMessage::Unknown),
                },
            },
    {
        let fixed_header = self.parse_fixed_header()?;
        match fixed_header.control_packet {
            ControlPacketType::Connect => self.parse_connect_message(fixed_header),
            ControlPacketType::Publish => self.parse_publish_message(fixed_header),
            ControlPacketType::Subscribe => self.parse_subscribe_message(fixed_header),
            ControlPacketType::Puback => {
                let h = self.parse_message_id_header()?;
                Ok(MqttMessage::Puback(fixed_header, h))
            },
            ControlPacketType::Pubrec => {
                let h = self.parse_message_id_header()?;
                Ok(MqttMessage::Pubrec(fixed_header, h))
            },
            ControlPacketType::Pubrel => {
                let h = self.parse_message_id_header()?;
                Ok(MqttMessage::Pubrel(fixed_header, h))
            },
            ControlPacketType::Pubcomp => {
                let h = self.parse_message_id_header()?;
                Ok(MqttMessage::Pubcomp(fixed_header, h))
            },
            ControlPacketType::Pingreq => Ok(MqttMessage::Pingreq(fixed_header)),
            ControlPacketType::Disconnect => Ok(MqttMessage::Disconnect(fixed_header)),
            _ => Ok(MqttMessage::Unknown),
        }
    }

    /// Read a bare packet-identifier variable header.
    fn parse_message_id_header(&mut self) -> (r: Result<MessageIDVariableHeader, DecodeError>)
        ensures
            final(self).buf@ == old(self).buf@,
            spec_msgid_outcome(old(self).buf@, old(self).cursor as int, r),
    {
        let message_id = self.get_str_size()?;
        Ok(MessageIDVariableHeader { message_id })
    }
}

} // verus!
