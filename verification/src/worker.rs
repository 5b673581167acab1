//! Worker decisions: which subscriber a PUBLISH job tries next, what its
//! outcomes add up to, and which coordinator request each finished job owes.
//! The host performs the writes and hands the boolean outcomes back.

use vstd::prelude::*;

verus! {

use crate::codec::ControlPacketType;
use crate::coordinator::{Cleanup, Release, RetryLater, Sent};
use crate::packets::{ConfirmationPacket, MqttPacket, MqttPacketView};
use crate::structure::{
    CompletionMessage,
    ConfirmationMessage,
    Receiver,
    ReceiverView,
    WriterRef,
    WriterRefView,
    duplicate_receivers,
    receivers_view,
    writers_view,
};

/// The request a finished PUBLISH job owes the coordinator.
#[derive(Debug)]
pub enum WorkerRequest {
    Retry(RetryLater),
    MarkSent(Sent),
    Free(Release),
}

/// One delivery round for a PUBLISH job: the subscribers in queue order, a
/// cursor, and the outcomes gathered so far. A QoS 2 round stops at its
/// first success, so the payload reaches at most one subscriber.
#[derive(Debug)]
pub struct PublishDelivery {
    pub qos: u8,
    pub message_uuid: u128,
    pub message_id: Option<u16>,
    pub subscribers: Vec<WriterRef>,
    pub idx: usize,
    pub inactive_subs: Vec<WriterRef>,
    pub receivers: Vec<Receiver>,
    pub done: bool,
}

impl PublishDelivery {
    /// The round's bookkeeping stays consistent: the cursor is in range,
    /// every receiver got the round's QoS from the attempted prefix, and a
    /// QoS 2 round never gathers a second receiver.
    pub open spec fn wf(self) -> bool {
        &&& self.idx <= self.subscribers@.len()
        &&& (self.qos == 2 ==> receivers_view(self.receivers@).len() <= 1)
        &&& (self.qos == 2 && receivers_view(self.receivers@).len() == 1 ==> self.done)
        &&& (forall|j: int|
            0 <= j < receivers_view(self.receivers@).len() ==> (#[trigger] receivers_view(
                self.receivers@,
            )[j]).received_qos == self.qos)
        &&& (forall|j: int|
            0 <= j < receivers_view(self.receivers@).len() ==> writers_view(
                self.subscribers@,
            ).contains((#[trigger] receivers_view(self.receivers@)[j]).writer))
        &&& (forall|j: int|
            0 <= j < writers_view(self.inactive_subs@).len() ==> writers_view(
                self.subscribers@,
            ).contains(#[trigger] writers_view(self.inactive_subs@)[j]))
    }

    /// A fresh round over a queue's subscribers.
    pub fn new(
        qos: u8,
        message_uuid: u128,
        message_id: Option<u16>,
        subscribers: Vec<WriterRef>,
    ) -> (r: PublishDelivery)
        ensures
            r.wf(),
            r.qos == qos,
            r.message_uuid == message_uuid,
            r.message_id == message_id,
            writers_view(r.subscribers@) == writers_view(subscribers@),
            r.idx == 0,
            receivers_view(r.receivers@).len() == 0,
            writers_view(r.inactive_subs@).len() == 0,
            !r.done,
    {
        let r = PublishDelivery {
            qos,
            message_uuid,
            message_id,
            subscribers,
            idx: 0,
            inactive_subs: Vec::new(),
            receivers: Vec::new(),
            done: false,
        };
        proof {
            assert(receivers_view(r.receivers@) =~= Seq::<ReceiverView>::empty());
            assert(writers_view(r.inactive_subs@) =~= Seq::<WriterRefView>::empty());
        }
        r
    }

    /// The subscriber to try next, or nothing when the round is over.
    pub fn next_target(&self) -> (r: Option<WriterRef>)
        ensures
            if !self.done && self.idx < self.subscribers@.len() {
                (r matches Some(w) && w@ == self.subscribers@[self.idx as int]@)
            } else {
                r is None
            },
    {
        if !self.done && self.idx < self.subscribers.len() {
            Some(self.subscribers[self.idx].duplicate())
        } else {
            None
        }
    }

    /// Record one write's outcome: a success files the receiver under the
    /// round's QoS and ends a QoS 2 round; a failure files the subscriber as
    /// inactive. Either way the cursor moves on.
    pub fn on_result(&mut self, ok: bool)
        requires
            old(self).wf(),
            !old(self).done,
            old(self).idx < old(self).subscribers@.len(),
        ensures
            final(self).wf(),
            final(self).qos == old(self).qos,
            final(self).message_uuid == old(self).message_uuid,
            final(self).message_id == old(self).message_id,
            writers_view(final(self).subscribers@) == writers_view(old(self).subscribers@),
            final(self).idx == old(self).idx + 1,
            receivers_view(final(self).receivers@) == (if ok {
                receivers_view(old(self).receivers@).push(
                    ReceiverView {
                        writer: old(self).subscribers@[old(self).idx as int]@,
                        received_qos: old(self).qos,
                    },
                )
            } else {
                receivers_view(old(self).receivers@)
            }),
            writers_view(final(self).inactive_subs@) == (if ok {
                writers_view(old(self).inactive_subs@)
            } else {
                writers_view(old(self).inactive_subs@).push(
                    old(self).subscribers@[old(self).idx as int]@,
                )
            }),
            final(self).done == (ok && old(self).qos == 2),
    {
        let n = self.subscribers.len();
        proof {
            assert(self.idx < n);
        }
        let sub = self.subscribers[self.idx].duplicate();
        let ghost sv = sub@;
        if ok {
            let ghost prev = receivers_view(self.receivers@);
            let qos = self.qos;
            self.receivers.push(Receiver { writer: sub, received_qos: qos });
            proof {
                assert(receivers_view(self.receivers@) =~= prev.push(
                    ReceiverView { writer: sv, received_qos: qos },
                ));
                assert(writers_view(self.subscribers@).contains(sv)) by {
                    assert(writers_view(self.subscribers@)[self.idx as int] == sv);
                }
            }
            if self.qos == 2 {
                self.done = true;
            }
        } else {
            let ghost prev = writers_view(self.inactive_subs@);
            self.inactive_subs.push(sub);
            proof {
                assert(writers_view(self.inactive_subs@) =~= prev.push(sv));
                assert(writers_view(self.subscribers@).contains(sv)) by {
                    assert(writers_view(self.subscribers@)[self.idx as int] == sv);
                }
            }
        }
        self.idx = self.idx + 1;
    }

    /// Did any subscriber accept the message?
    pub fn message_sent(&self) -> (r: bool)
        ensures
            r == (receivers_view(self.receivers@).len() > 0),
    {
        self.receivers.len() > 0
    }

    /// The coordinator request a finished round owes: a retry when a QoS
    /// above zero reached nobody, a release for QoS 0, and a sent report
    /// otherwise.
    pub fn outcome(self) -> (r: WorkerRequest)
        requires
            self.wf(),
        ensures
            ({
                let recs = receivers_view(self.receivers@);
                let dead = writers_view(self.inactive_subs@);
                if recs.len() == 0 && self.qos > 0 {
                    (r matches WorkerRequest::Retry(RetryLater::Publish(u, d)) && u
                        == self.message_uuid && writers_view(d@) == dead)
                } else if self.qos == 0 {
                    (r matches WorkerRequest::Free(Release(u, q, m, d, rs)) && u
                        == self.message_uuid && q == 0 && m is None && writers_view(d@) == dead
                        && receivers_view(rs@) == recs)
                } else {
                    (r matches WorkerRequest::MarkSent(Sent(m, u, q, d, rs)) && m == (match self
                        .message_id {
                        Some(v) => v,
                        None => 0,
                    }) && u == self.message_uuid && q == self.qos && writers_view(d@) == dead
                        && receivers_view(rs@) == recs)
                }
            }),
    {
        let PublishDelivery {
            qos,
            message_uuid,
            message_id,
            subscribers,
            idx,
            inactive_subs,
            receivers,
            done,
        } = self;
        if receivers.len() == 0 && qos > 0 {
            WorkerRequest::Retry(RetryLater::Publish(message_uuid, inactive_subs))
        } else if qos == 0 {
            WorkerRequest::Free(Release(message_uuid, 0, None, inactive_subs, receivers))
        } else {
            let mid = match message_id {
                Some(v) => v,
                None => 0,
            };
            WorkerRequest::MarkSent(Sent(mid, message_uuid, qos, inactive_subs, receivers))
        }
    }
}

/// Exactly-once delivery within a round: a QoS 2 round hands the payload to
/// at most one subscriber, and stops as soon as it has one.
pub proof fn lemma_qos2_single_receiver(d: PublishDelivery)
    requires
        d.wf(),
        d.qos == 2,
    ensures
        receivers_view(d.receivers@).len() <= 1,
        receivers_view(d.receivers@).len() == 1 ==> d.done,
{
}

/// The packet and effective QoS an acknowledgement job writes to the
/// publisher: a PUBACK stays QoS 1, anything else is the QoS 2 PUBREC.
pub fn confirmation_action(c: &ConfirmationMessage) -> (r: (u8, MqttPacket))
    ensures
        c@.packet.cmd == ControlPacketType::Puback ==> r.0 == 1 && r.1@ == MqttPacketView::Puback(
            c@.packet,
        ),
        c@.packet.cmd != ControlPacketType::Puback ==> r.0 == 2 && r.1@ == MqttPacketView::Pubrec(
            c@.packet,
        ),
{
    if c.packet.cmd == ControlPacketType::Puback {
        (1, MqttPacket::Puback(c.packet))
    } else {
        (2, MqttPacket::Pubrec(c.packet))
    }
}

/// The release a delivered acknowledgement job owes the coordinator.
pub fn release_after_confirmation(c: &ConfirmationMessage, qos: u8) -> (r: Release)
    ensures
        ({
            let Release(u, q, m, d, rs) = r;
            u == c@.message_uuid && q == qos && m == Some(c@.message_id) && writers_view(d@).len()
                == 0 && receivers_view(rs@) == c@.receivers
        }),
{
    let r = Release(
        c.message_uuid,
        qos,
        Some(c.message_id),
        Vec::new(),
        duplicate_receivers(&c.receivers),
    );
    proof {
        let Release(u, q, m, d, rs) = r;
        assert(writers_view(d@) =~= Seq::<WriterRefView>::empty());
    }
    r
}

/// The release a delivered acknowledgement owes: only a QoS 1 flow releases
/// here; a QoS 2 flow waits for its PUBREC and PUBREL events.
pub fn confirmation_followup(c: &ConfirmationMessage, qos: u8) -> (r: Option<Release>)
    ensures
        qos == 1 ==> (r matches Some(rel) && ({
            let Release(u, q, m, d, rs) = rel;
            u == c@.message_uuid && q == 1 && m == Some(c@.message_id) && writers_view(d@).len()
                == 0 && receivers_view(rs@) == c@.receivers
        })),
        qos != 1 ==> r is None,
{
    if qos == 1 {
        Some(release_after_confirmation(c, 1))
    } else {
        None
    }
}

/// The PUBCOMP a completion job writes to the subscriber.
pub fn completion_packet(c: &CompletionMessage) -> (r: MqttPacket)
    ensures
        r@ == MqttPacketView::Pubcomp(
            ConfirmationPacket { cmd: ControlPacketType::Pubcomp, message_id: c@.message_id },
        ),
{
    MqttPacket::Pubcomp(
        ConfirmationPacket { cmd: ControlPacketType::Pubcomp, message_id: c.message_id },
    )
}

/// The release a delivered completion job owes the coordinator.
pub fn release_after_completion(c: &CompletionMessage) -> (r: Release)
    ensures
        ({
            let Release(u, q, m, d, rs) = r;
            u == c@.message_uuid && q == 2 && m == Some(c@.message_id) && writers_view(d@).len()
                == 0 && receivers_view(rs@) == seq![c@.receiver]
        }),
{
    let mut rs: Vec<Receiver> = Vec::new();
    rs.push(c.receiver.duplicate());
    let r = Release(c.message_uuid, 2, Some(c.message_id), Vec::new(), rs);
    proof {
        let Release(u, q, m, d, rs2) = r;
        assert(writers_view(d@) =~= Seq::<WriterRefView>::empty());
        assert(receivers_view(rs2@) =~= seq![c@.receiver]);
    }
    r
}

/// The PUBREL a release job forwards to the chosen subscriber.
pub fn release_pubrel(m: &crate::structure::ReleaseMessage) -> (r: MqttPacket)
    ensures
        r@ == MqttPacketView::Pubrel(
            ConfirmationPacket { cmd: ControlPacketType::Pubrel, message_id: m.message_id },
        ),
{
    MqttPacket::Pubrel(
        ConfirmationPacket { cmd: ControlPacketType::Pubrel, message_id: m.message_id },
    )
}

/// The PUBCOMP a release job writes back to the publisher.
pub fn release_pubcomp(m: &crate::structure::ReleaseMessage) -> (r: MqttPacket)
    ensures
        r@ == MqttPacketView::Pubcomp(
            ConfirmationPacket { cmd: ControlPacketType::Pubcomp, message_id: m.message_id },
        ),
{
    MqttPacket::Pubcomp(
        ConfirmationPacket { cmd: ControlPacketType::Pubcomp, message_id: m.message_id },
    )
}

/// The cleanup a fully released QoS 2 message owes the coordinator.
pub fn cleanup_after_release(m: &crate::structure::ReleaseMessage) -> (r: Cleanup)
    ensures
        r == (Cleanup(m.message_uuid, m.message_id, 2)),
{
    Cleanup(m.message_uuid, m.message_id, 2)
}

} // verus!
