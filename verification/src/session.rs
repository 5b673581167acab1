//! The per-connection reader's decision: which coordinator request or local
//! answer each parsed packet calls for. The host owns the socket; it hands
//! parsed packets in and carries the chosen action out.

use vstd::prelude::*;

verus! {

use crate::codec::{ControlPacketType, MqttMessage, string_bytes};
use crate::packets::{ConfirmationPacket, PublishPacket, SubscribePacket};
use vstd::utf8::encode_utf8;

/// What the reader does with one parsed packet.
#[derive(Debug)]
pub enum ReaderAction {
    /// Hand the SUBSCRIBE to the coordinator.
    Subscribe(SubscribePacket),
    /// Hand the PUBLISH to the coordinator.
    Publish(PublishPacket),
    /// Answer the ping locally through the writer.
    Pong,
    /// Hand the acknowledgement to the coordinator.
    Confirm(ConfirmationPacket),
    /// Tell the coordinator the client left.
    Disconnect,
    /// Nothing to do for this packet.
    Nothing,
}

/// Classify one parsed packet into the reader's next action: SUBSCRIBE and
/// PUBLISH go to the coordinator, the four acknowledgements become
/// confirmations, PINGREQ is answered locally, and DISCONNECT is passed on.
pub fn classify(msg: MqttMessage) -> (r: ReaderAction)
    ensures
        (msg matches MqttMessage::Subscribe(fh, vh, subs) ==> (r matches ReaderAction::Subscribe(p)
            && p@.message_id == vh.message_id as u16 && p@.subscriptions == subs@.map_values(
            |s: crate::codec::SubscriptionRequest| (s.topic@, s.qos),
        ))),
        (msg matches MqttMessage::Publish(fh, vh, payload, src) ==> (r
            matches ReaderAction::Publish(p) && p@.topic == vh.topic_name@ && p@.payload
            == encode_utf8(payload@) && p@.qos == fh.qos && p@.message_id == (if fh.qos > 0 {
            Some(vh.message_id as u16)
        } else {
            None
        }) && p@.dup == fh.dup && p@.retain == fh.retain)),
        (msg matches MqttMessage::Puback(fh, vh) ==> r == ReaderAction::Confirm(
            ConfirmationPacket {
                cmd: ControlPacketType::Puback,
                message_id: vh.message_id as u16,
            },
        )),
        (msg matches MqttMessage::Pubrec(fh, vh) ==> r == ReaderAction::Confirm(
            ConfirmationPacket {
                cmd: ControlPacketType::Pubrec,
                message_id: vh.message_id as u16,
            },
        )),
        (msg matches MqttMessage::Pubrel(fh, vh) ==> r == ReaderAction::Confirm(
            ConfirmationPacket {
                cmd: ControlPacketType::Pubrel,
                message_id: vh.message_id as u16,
            },
        )),
        (msg matches MqttMessage::Pubcomp(fh, vh) ==> r == ReaderAction::Confirm(
            ConfirmationPacket {
                cmd: ControlPacketType::Pubcomp,
                message_id: vh.message_id as u16,
            },
        )),
        (msg matches MqttMessage::Pingreq(fh) ==> r matches ReaderAction::Pong),
        (msg matches MqttMessage::Disconnect(fh) ==> r matches ReaderAction::Disconnect),
        (msg matches MqttMessage::Connect(fh, vh, p) ==> r matches ReaderAction::Nothing),
        (msg is Unknown ==> r matches ReaderAction::Nothing),
{
    match msg {
        MqttMessage::Subscribe(_fh, vh, subs) => ReaderAction::Subscribe(
            SubscribePacket { message_id: vh.message_id as u16, subscriptions: subs },
        ),
        MqttMessage::Publish(fh, vh, payload, _src) => {
            let payload_bytes = vstd::slice::slice_to_vec(payload.as_str().as_bytes());
            ReaderAction::Publish(
                PublishPacket {
                    topic: vh.topic_name,
                    payload: payload_bytes,
                    qos: fh.qos,
                    message_id: if fh.qos > 0 {
                        Some(vh.message_id as u16)
                    } else {
                        None
                    },
                    dup: fh.dup,
                    retain: fh.retain,
                },
            )
        },
        MqttMessage::Puback(_fh, vh) => ReaderAction::Confirm(
            ConfirmationPacket {
                cmd: ControlPacketType::Puback,
                message_id: vh.message_id as u16,
            },
        ),
        MqttMessage::Pubrec(_fh, vh) => ReaderAction::Confirm(
            ConfirmationPacket {
                cmd: ControlPacketType::Pubrec,
                message_id: vh.message_id as u16,
            },
        ),
        MqttMessage::Pubrel(_fh, vh) => ReaderAction::Confirm(
            ConfirmationPacket {
                cmd: ControlPacketType::Pubrel,
                message_id: vh.message_id as u16,
            },
        ),
        MqttMessage::Pubcomp(_fh, vh) => ReaderAction::Confirm(
            ConfirmationPacket {
                cmd: ControlPacketType::Pubcomp,
                message_id: vh.message_id as u16,
            },
        ),
        MqttMessage::Pingreq(_fh) => ReaderAction::Pong,
        MqttMessage::Disconnect(_fh) => ReaderAction::Disconnect,
        MqttMessage::Connect(_fh, _vh, _p) => ReaderAction::Nothing,
        MqttMessage::Unknown => ReaderAction::Nothing,
    }
}

/// The writer identity a CONNECT establishes: the client's identifier, a
/// session identity the host mints, and persistence from the clean-session
/// flag.
pub fn writer_identity(client_id: String, session_id: u128, clean_session: bool, process: Option<
    u64,
>) -> (r: crate::structure::WriterRef)
    ensures
        r@.client_id == client_id@,
        r@.session_id == session_id,
        r@.is_persistent_session == !clean_session,
        r@.process == process,
{
    crate::structure::WriterRef {
        process,
        client_id,
        session_id,
        is_persistent_session: !clean_session,
    }
}

} // verus!
