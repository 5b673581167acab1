//! Control-packet values as the coordinator, store and workers handle them:
//! plain fields for what the broker reads, with ghost views for contracts.

use vstd::prelude::*;

verus! {

use crate::codec::ControlPacketType;

/// A PUBLISH as admitted by the coordinator.
#[derive(Debug)]
pub struct PublishPacket {
    pub topic: String,
    pub payload: Vec<u8>,
    pub qos: u8,
    pub message_id: Option<u16>,
    pub dup: bool,
    pub retain: bool,
}

/// The ghost value of a `PublishPacket`.
#[verifier::ext_equal]
pub ghost struct PublishPacketView {
    pub topic: Seq<char>,
    pub payload: Seq<u8>,
    pub qos: u8,
    pub message_id: Option<u16>,
    pub dup: bool,
    pub retain: bool,
}

impl View for PublishPacket {
    type V = PublishPacketView;

    open spec fn view(&self) -> PublishPacketView {
        PublishPacketView {
            topic: self.topic@,
            payload: self.payload@,
            qos: self.qos,
            message_id: self.message_id,
            dup: self.dup,
            retain: self.retain,
        }
    }
}

impl PublishPacket {
    /// A value-equal copy.
    pub fn duplicate(&self) -> (r: PublishPacket)
        ensures
            r@ == self@,
    {
        let mut payload: Vec<u8> = Vec::new();
        let mut i: usize = 0;
        while i < self.payload.len()
            invariant
                0 <= i <= self.payload@.len(),
                payload@ == self.payload@.subrange(0, i as int),
            decreases self.payload@.len() - i,
        {
            payload.push(self.payload[i]);
            i = i + 1;
        }
        proof {
            assert(payload@ =~= self.payload@);
        }
        let r = PublishPacket {
            topic: self.topic.clone(),
            payload,
            qos: self.qos,
            message_id: self.message_id,
            dup: self.dup,
            retain: self.retain,
        };
        r
    }
}

/// An acknowledgement packet: PUBACK, PUBREC, PUBREL or PUBCOMP.
#[derive(Clone, Copy, Debug, PartialEq, Eq, Structural)]
pub struct ConfirmationPacket {
    pub cmd: ControlPacketType,
    pub message_id: u16,
}

/// A SUBSCRIBE as the coordinator receives it.
#[derive(Debug)]
pub struct SubscribePacket {
    pub message_id: u16,
    pub subscriptions: Vec<crate::codec::SubscriptionRequest>,
}

/// The ghost value of a `SubscribePacket`: the identifier and each requested
/// filter with its QoS.
#[verifier::ext_equal]
pub ghost struct SubscribePacketView {
    pub message_id: u16,
    pub subscriptions: Seq<(Seq<char>, u8)>,
}

impl View for SubscribePacket {
    type V = SubscribePacketView;

    open spec fn view(&self) -> SubscribePacketView {
        SubscribePacketView {
            message_id: self.message_id,
            subscriptions: self.subscriptions@.map_values(
                |s: crate::codec::SubscriptionRequest| (s.topic@, s.qos),
            ),
        }
    }
}

/// A SUBACK as the coordinator answers a SUBSCRIBE: one granted QoS per
/// requested filter and an overall reason code.
#[derive(Debug)]
pub struct SubackPacket {
    pub message_id: u16,
    pub granted: Vec<u8>,
    pub reason_code: u8,
}

/// The ghost value of a `SubackPacket`.
#[verifier::ext_equal]
pub ghost struct SubackPacketView {
    pub message_id: u16,
    pub granted: Seq<u8>,
    pub reason_code: u8,
}

impl View for SubackPacket {
    type V = SubackPacketView;

    open spec fn view(&self) -> SubackPacketView {
        SubackPacketView {
            message_id: self.message_id,
            granted: self.granted@,
            reason_code: self.reason_code,
        }
    }
}

/// A CONNACK as the broker answers a CONNECT.
#[derive(Clone, Copy, Debug, PartialEq, Eq, Structural)]
pub struct ConnackPacket {
    pub session_present: bool,
    pub code: u8,
}

/// A packet handed to a writer session for egress.
#[derive(Debug)]
pub enum MqttPacket {
    Connack(ConnackPacket),
    Publish(PublishPacket),
    Puback(ConfirmationPacket),
    Pubrec(ConfirmationPacket),
    Pubrel(ConfirmationPacket),
    Pubcomp(ConfirmationPacket),
    Suback(SubackPacket),
    Pingresp,
}

/// The ghost value of an egress packet.
#[verifier::ext_equal]
pub ghost enum MqttPacketView {
    Connack(ConnackPacket),
    Publish(PublishPacketView),
    Puback(ConfirmationPacket),
    Pubrec(ConfirmationPacket),
    Pubrel(ConfirmationPacket),
    Pubcomp(ConfirmationPacket),
    Suback(SubackPacketView),
    Pingresp,
}

impl View for MqttPacket {
    type V = MqttPacketView;

    open spec fn view(&self) -> MqttPacketView {
        match self {
            MqttPacket::Connack(p) => MqttPacketView::Connack(*p),
            MqttPacket::Publish(p) => MqttPacketView::Publish(p@),
            MqttPacket::Puback(p) => MqttPacketView::Puback(*p),
            MqttPacket::Pubrec(p) => MqttPacketView::Pubrec(*p),
            MqttPacket::Pubrel(p) => MqttPacketView::Pubrel(*p),
            MqttPacket::Pubcomp(p) => MqttPacketView::Pubcomp(*p),
            MqttPacket::Suback(p) => MqttPacketView::Suback(p@),
            MqttPacket::Pingresp => MqttPacketView::Pingresp,
        }
    }
}


/// The ceiling MQTT puts on a remaining-length field: four varint bytes.
pub const MAX_REMAINING_LENGTH: u32 = 0x0FFFFFFF;

/// A length-prefixed UTF-8 string on the wire: a big-endian two-byte length,
/// then the bytes.
pub open spec fn spec_wire_str(s: Seq<char>) -> Seq<u8> {
    let b = vstd::utf8::encode_utf8(s);
    seq![(b.len() as int / 256 % 256) as u8, (b.len() as int % 256) as u8] + b
}

/// A big-endian two-byte identifier on the wire.
pub open spec fn spec_wire_u16(v: u16) -> Seq<u8> {
    seq![(v as int / 256) as u8, (v as int % 256) as u8]
}

/// A whole control packet: the first byte, the remaining length, the body.
/// An empty body still carries its explicit zero length byte.
pub open spec fn spec_frame(first: u8, body: Seq<u8>) -> Seq<u8> {
    seq![first] + (if body.len() == 0 {
        seq![0u8]
    } else {
        crate::codec::spec_varint(body.len() as u32)
    }) + body
}

/// The body bytes of an egress packet under a protocol version: version 5
/// carries an empty property section where its format demands one.
pub open spec fn spec_packet_body(p: MqttPacketView, v5: bool) -> Seq<u8> {
    match p {
        MqttPacketView::Connack(c) => seq![
            if c.session_present {
                1u8
            } else {
                0u8
            },
            c.code,
        ] + (if v5 {
            seq![0u8]
        } else {
            Seq::empty()
        }),
        MqttPacketView::Publish(pp) => spec_wire_str(pp.topic) + (if pp.qos > 0 {
            spec_wire_u16(pp.message_id.unwrap_or(0))
        } else {
            Seq::empty()
        }) + (if v5 {
            seq![0u8]
        } else {
            Seq::empty()
        }) + pp.payload,
        MqttPacketView::Puback(c) => spec_wire_u16(c.message_id),
        MqttPacketView::Pubrec(c) => spec_wire_u16(c.message_id),
        MqttPacketView::Pubrel(c) => spec_wire_u16(c.message_id),
        MqttPacketView::Pubcomp(c) => spec_wire_u16(c.message_id),
        MqttPacketView::Suback(sp) => spec_wire_u16(sp.message_id) + (if v5 {
            seq![0u8]
        } else {
            Seq::empty()
        }) + sp.granted,
        MqttPacketView::Pingresp => Seq::empty(),
    }
}

/// The first byte of an egress packet: the type nibble and, for PUBLISH, its
/// dup/QoS/retain flag bits (PUBREL fixes its reserved bits to 2).
pub open spec fn spec_packet_first_byte(p: MqttPacketView) -> u8 {
    match p {
        MqttPacketView::Connack(_) => 0x20,
        MqttPacketView::Publish(pp) => (0x30 + (if pp.dup {
            8int
        } else {
            0int
        }) + (pp.qos as int % 4) * 2 + (if pp.retain {
            1int
        } else {
            0int
        })) as u8,
        MqttPacketView::Puback(_) => 0x40,
        MqttPacketView::Pubrec(_) => 0x50,
        MqttPacketView::Pubrel(_) => 0x62,
        MqttPacketView::Pubcomp(_) => 0x70,
        MqttPacketView::Suback(_) => 0x90,
        MqttPacketView::Pingresp => 0xD0,
    }
}

/// The wire bytes of an egress packet under a protocol version.
pub open spec fn spec_encode_packet(p: MqttPacketView, protocol_version: u8) -> Seq<u8> {
    spec_frame(spec_packet_first_byte(p), spec_packet_body(p, protocol_version == 5))
}

/// An egress packet fits the wire: every string fits its two-byte length and
/// the body fits the remaining-length field.
pub open spec fn spec_packet_encodable(p: MqttPacketView, protocol_version: u8) -> bool {
    &&& spec_packet_body(p, protocol_version == 5).len() <= MAX_REMAINING_LENGTH
    &&& (p matches MqttPacketView::Publish(pp) ==> vstd::utf8::encode_utf8(pp.topic).len()
        <= u16::MAX)
}

/// Append a big-endian two-byte identifier.
fn push_wire_u16(out: &mut Vec<u8>, v: u16)
    ensures
        final(out)@ == old(out)@ + spec_wire_u16(v),
{
    out.push((v / 256) as u8);
    out.push((v % 256) as u8);
    proof {
        assert(out@ =~= old(out)@ + spec_wire_u16(v));
    }
}

/// Serialize an egress packet to its wire bytes; nothing comes back only
/// when the packet does not fit the wire's length fields.
pub fn encode_packet(p: &MqttPacket, protocol_version: u8) -> (r: Option<Vec<u8>>)
    ensures
        r is Some <==> spec_packet_encodable(p@, protocol_version),
        (r matches Some(b) ==> b@ == spec_encode_packet(p@, protocol_version)),
{
    let v5 = protocol_version == 5;
    let mut body: Vec<u8> = Vec::new();
    match p {
        MqttPacket::Connack(c) => {
            body.push(if c.session_present {
                1
            } else {
                0
            });
            body.push(c.code);
            if v5 {
                body.push(0);
            }
            proof {
                assert(body@ =~= spec_packet_body(p@, v5));
            }
        },
        MqttPacket::Publish(pp) => {
            let topic_bytes = pp.topic.as_str().as_bytes();
            if topic_bytes.len() > 0xFFFF {
                proof {
                    assert(!spec_packet_encodable(p@, protocol_version));
                }
                return None;
            }
            let n = topic_bytes.len() as u16;
            push_wire_u16(&mut body, n);
            let mut tb = vstd::slice::slice_to_vec(topic_bytes);
            body.append(&mut tb);
            proof {
                assert(body@ =~= spec_wire_str(pp.topic@));
            }
            if pp.qos > 0 {
                let mid = match pp.message_id {
                    Some(m) => m,
                    None => 0,
                };
                push_wire_u16(&mut body, mid);
            }
            if v5 {
                body.push(0);
            }
            let mut payload = vstd::slice::slice_to_vec(pp.payload.as_slice());
            body.append(&mut payload);
            proof {
                assert(body@ =~= spec_packet_body(p@, v5));
            }
        },
        MqttPacket::Puback(c) => {
            push_wire_u16(&mut body, c.message_id);
            proof {
                assert(body@ =~= spec_packet_body(p@, v5));
            }
        },
        MqttPacket::Pubrec(c) => {
            push_wire_u16(&mut body, c.message_id);
            proof {
                assert(body@ =~= spec_packet_body(p@, v5));
            }
        },
        MqttPacket::Pubrel(c) => {
            push_wire_u16(&mut body, c.message_id);
            proof {
                assert(body@ =~= spec_packet_body(p@, v5));
            }
        },
        MqttPacket::Pubcomp(c) => {
            push_wire_u16(&mut body, c.message_id);
            proof {
                assert(body@ =~= spec_packet_body(p@, v5));
            }
        },
        MqttPacket::Suback(sp) => {
            push_wire_u16(&mut body, sp.message_id);
            if v5 {
                body.push(0);
            }
            let mut granted = vstd::slice::slice_to_vec(sp.granted.as_slice());
            body.append(&mut granted);
            proof {
                assert(body@ =~= spec_packet_body(p@, v5));
            }
        },
        MqttPacket::Pingresp => {
            proof {
                assert(body@ =~= spec_packet_body(p@, v5));
            }
        },
    }
    if body.len() > MAX_REMAINING_LENGTH as usize {
        return None;
    }
    let mut out: Vec<u8> = Vec::new();
    let first = packet_first_byte(p);
    out.push(first);
    if body.len() == 0 {
        out.push(0);
    } else {
        let mut length = crate::codec::MqttMessage::encode_variable_num(body.len() as u32);
        out.append(&mut length);
    }
    out.append(&mut body);
    proof {
        assert(out@ =~= spec_encode_packet(p@, protocol_version));
    }
    Some(out)
}

/// The first byte of an egress packet.
fn packet_first_byte(p: &MqttPacket) -> (r: u8)
    ensures
        r == spec_packet_first_byte(p@),
{
    match p {
        MqttPacket::Connack(_) => 0x20,
        MqttPacket::Publish(pp) => {
            let mut b: u8 = 0x30;
            if pp.dup {
                b = b + 8;
            }
            b = b + (pp.qos % 4) * 2;
            if pp.retain {
                b = b + 1;
            }
            b
        },
        MqttPacket::Puback(_) => 0x40,
        MqttPacket::Pubrec(_) => 0x50,
        MqttPacket::Pubrel(_) => 0x62,
        MqttPacket::Pubcomp(_) => 0x70,
        MqttPacket::Suback(_) => 0x90,
        MqttPacket::Pingresp => 0xD0,
    }
}

} // verus!
