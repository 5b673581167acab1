//! The broker's routing structures: writer handles, queues, and the queued
//! units of work that the coordinator schedules.

use vstd::prelude::*;

verus! {

use crate::packets::{ConfirmationPacket, PublishPacket, PublishPacketView};

/// The answer a queue actor gives to a handled request.
#[derive(Clone, Copy, Debug, PartialEq, Eq, Structural)]
pub enum QueueResponse {
    Success,
}

/// A stable handle to a connection's writer session. `process` names the
/// live writer task, or is nothing while the client is disconnected and its
/// session is preserved.
#[derive(Debug)]
pub struct WriterRef {
    pub process: Option<u64>,
    pub client_id: String,
    pub session_id: u128,
    pub is_persistent_session: bool,
}

/// The ghost value of a `WriterRef`.
#[verifier::ext_equal]
pub ghost struct WriterRefView {
    pub process: Option<u64>,
    pub client_id: Seq<char>,
    pub session_id: u128,
    pub is_persistent_session: bool,
}

impl View for WriterRef {
    type V = WriterRefView;

    open spec fn view(&self) -> WriterRefView {
        WriterRefView {
            process: self.process,
            client_id: self.client_id@,
            session_id: self.session_id,
            is_persistent_session: self.is_persistent_session,
        }
    }
}

impl WriterRef {
    /// A value-equal copy.
    pub fn duplicate(&self) -> (r: WriterRef)
        ensures
            r@ == self@,
    {
        WriterRef {
            process: self.process,
            client_id: self.client_id.clone(),
            session_id: self.session_id,
            is_persistent_session: self.is_persistent_session,
        }
    }

    /// Do the two handles name the same writer, session and client?
    pub fn same_as(&self, other: &WriterRef) -> (r: bool)
        ensures
            r == (self@ == other@),
    {
        let process_eq = match (self.process, other.process) {
            (Some(a), Some(b)) => a == b,
            (None, None) => true,
            _ => false,
        };
        let r = process_eq && self.client_id == other.client_id && self.session_id
            == other.session_id && self.is_persistent_session == other.is_persistent_session;
        proof {
            if r {
                assert(self@ =~= other@);
            }
        }
        r
    }
}

/// The ghost value of a writer list.
pub open spec fn writers_view(v: Seq<WriterRef>) -> Seq<WriterRefView> {
    v.map_values(|w: WriterRef| w@)
}

/// A routing queue: one per concrete topic name, with its subscribers in
/// subscription order.
#[derive(Debug)]
pub struct Queue {
    pub id: u128,
    pub name: String,
    pub subscribers: Vec<WriterRef>,
}

/// The ghost value of a `Queue`.
#[verifier::ext_equal]
pub ghost struct QueueView {
    pub id: u128,
    pub name: Seq<char>,
    pub subscribers: Seq<WriterRefView>,
}

impl View for Queue {
    type V = QueueView;

    open spec fn view(&self) -> QueueView {
        QueueView { id: self.id, name: self.name@, subscribers: writers_view(self.subscribers@) }
    }
}

impl Queue {
    /// A value-equal copy.
    pub fn duplicate(&self) -> (r: Queue)
        ensures
            r@ == self@,
    {
        let mut subscribers: Vec<WriterRef> = Vec::new();
        let mut i: usize = 0;
        while i < self.subscribers.len()
            invariant
                0 <= i <= self.subscribers@.len(),
                writers_view(subscribers@) == writers_view(self.subscribers@).subrange(
                    0,
                    i as int,
                ),
            decreases self.subscribers@.len() - i,
        {
            let ghost prev = subscribers@;
            subscribers.push(self.subscribers[i].duplicate());
            proof {
                assert(writers_view(subscribers@) =~= writers_view(prev).push(
                    self.subscribers@[i as int]@,
                ));
                assert(writers_view(subscribers@) =~= writers_view(self.subscribers@).subrange(
                    0,
                    i + 1,
                ));
            }
            i = i + 1;
        }
        proof {
            assert(writers_view(subscribers@) =~= writers_view(self.subscribers@));
        }
        let r = Queue { id: self.id, name: self.name.clone(), subscribers };
        r
    }

    /// Remove every subscriber named in the inactive list; the others keep
    /// their order.
    pub fn drop_inactive_subs(&mut self, inactive_subs: &Vec<WriterRef>) -> (r: ())
        ensures
            final(self).id == old(self).id,
            final(self).name@ == old(self).name@,
            writers_view(final(self).subscribers@) == writers_view(old(self).subscribers@).filter(
                |w: WriterRefView| !writers_view(inactive_subs@).contains(w),
            ),
    {
        let ghost orig = writers_view(self.subscribers@);
        let ghost dead = writers_view(inactive_subs@);
        let mut kept: Vec<WriterRef> = Vec::new();
        let mut i: usize = 0;
        while i < self.subscribers.len()
            invariant
                0 <= i <= self.subscribers@.len(),
                orig == writers_view(self.subscribers@),
                dead == writers_view(inactive_subs@),
                writers_view(kept@) == orig.subrange(0, i as int).filter(
                    |w: WriterRefView| !dead.contains(w),
                ),
            decreases self.subscribers@.len() - i,
        {
            let ghost prefix = orig.subrange(0, i as int);
            let ghost sub = self.subscribers@[i as int]@;
            let mut is_dead = false;
            let mut j: usize = 0;
            while j < inactive_subs.len()
                invariant
                    0 <= j <= inactive_subs@.len(),
                    dead == writers_view(inactive_subs@),
                    orig == writers_view(self.subscribers@),
                    0 <= i < self.subscribers@.len(),
                    sub == self.subscribers@[i as int]@,
                    is_dead == exists|k: int| 0 <= k < j && dead[k] == sub,
                decreases inactive_subs@.len() - j,
            {
                let hit = self.subscribers[i].same_as(&inactive_subs[j]);
                proof {
                    assert(dead[j as int] == inactive_subs@[j as int]@);
                    if hit {
                        assert(dead[j as int] == sub);
                        assert(exists|k: int| 0 <= k < j + 1 && dead[k] == sub);
                    } else {
                        assert(dead[j as int] != sub);
                        assert forall|k: int| 0 <= k < j + 1 && dead[k] == sub implies k
                            < j by {}
                    }
                }
                if hit {
                    is_dead = true;
                }
                j = j + 1;
            }
            proof {
                assert(is_dead == dead.contains(sub));
                assert(orig.subrange(0, i + 1) =~= prefix.push(sub));
                reveal(Seq::filter);
                assert(prefix.push(sub).drop_last() =~= prefix);
                assert(prefix.push(sub).last() == sub);
                assert(prefix.push(sub).filter(|w: WriterRefView| !dead.contains(w)) == if !dead.contains(sub) {
                    prefix.filter(|w: WriterRefView| !dead.contains(w)).push(sub)
                } else {
                    prefix.filter(|w: WriterRefView| !dead.contains(w))
                });
            }
            if !is_dead {
                let ghost prev = kept@;
                kept.push(self.subscribers[i].duplicate());
                proof {
                    assert(writers_view(kept@) =~= writers_view(prev).push(
                        self.subscribers@[i as int]@,
                    ));
                }
            }
            i = i + 1;
        }
        proof {
            assert(orig.subrange(0, orig.len() as int) =~= orig);
        }
        self.subscribers = kept;
    }
}

/// A queued PUBLISH awaiting delivery.
#[derive(Clone, Copy, Debug, PartialEq, Eq, Structural)]
pub struct PublishMessage {
    pub message_uuid: u128,
    pub message_id: Option<u16>,
    pub queue_id: u128,
    pub in_progress: bool,
    pub sent: bool,
}

/// A queued QoS 2 release: both confirmations must arrive before a worker
/// forwards PUBREL and PUBCOMP.
#[derive(Clone, Copy, Debug, PartialEq, Eq, Structural)]
pub struct ReleaseMessage {
    pub message_id: u16,
    pub message_uuid: u128,
    pub pubrec_received: bool,
    pub pubrel_received: bool,
}

/// One subscriber that has had the message handed to its egress, with the
/// effective QoS it was given.
#[derive(Debug)]
pub struct Receiver {
    pub writer: WriterRef,
    pub received_qos: u8,
}

/// The ghost value of a `Receiver`.
#[verifier::ext_equal]
pub ghost struct ReceiverView {
    pub writer: WriterRefView,
    pub received_qos: u8,
}

impl View for Receiver {
    type V = ReceiverView;

    open spec fn view(&self) -> ReceiverView {
        ReceiverView { writer: self.writer@, received_qos: self.received_qos }
    }
}

impl Receiver {
    /// A value-equal copy.
    pub fn duplicate(&self) -> (r: Receiver)
        ensures
            r@ == self@,
    {
        Receiver { writer: self.writer.duplicate(), received_qos: self.received_qos }
    }
}

/// The ghost value of a receiver list.
pub open spec fn receivers_view(v: Seq<Receiver>) -> Seq<ReceiverView> {
    v.map_values(|r: Receiver| r@)
}

/// Copy a receiver list value for value.
pub fn duplicate_receivers(v: &Vec<Receiver>) -> (r: Vec<Receiver>)
    ensures
        receivers_view(r@) == receivers_view(v@),
{
    let mut out: Vec<Receiver> = Vec::new();
    let mut i: usize = 0;
    while i < v.len()
        invariant
            0 <= i <= v@.len(),
            receivers_view(out@) == receivers_view(v@).subrange(0, i as int),
        decreases v@.len() - i,
    {
        let ghost prev = out@;
        out.push(v[i].duplicate());
        proof {
            assert(receivers_view(out@) =~= receivers_view(prev).push(v@[i as int]@));
            assert(receivers_view(out@) =~= receivers_view(v@).subrange(0, i + 1));
        }
        i = i + 1;
    }
    proof {
        assert(receivers_view(out@) =~= receivers_view(v@));
    }
    out
}

/// A queued acknowledgement bound for the original publisher.
#[derive(Debug)]
pub struct ConfirmationMessage {
    pub message_uuid: u128,
    pub packet: ConfirmationPacket,
    pub message_id: u16,
    pub in_progress: bool,
    pub publisher: WriterRef,
    pub receivers: Vec<Receiver>,
    pub started_at: u64,
    pub original_qos: u8,
}

/// The ghost value of a `ConfirmationMessage`.
#[verifier::ext_equal]
pub ghost struct ConfirmationMessageView {
    pub message_uuid: u128,
    pub packet: ConfirmationPacket,
    pub message_id: u16,
    pub in_progress: bool,
    pub publisher: WriterRefView,
    pub receivers: Seq<ReceiverView>,
    pub started_at: u64,
    pub original_qos: u8,
}

impl View for ConfirmationMessage {
    type V = ConfirmationMessageView;

    open spec fn view(&self) -> ConfirmationMessageView {
        ConfirmationMessageView {
            message_uuid: self.message_uuid,
            packet: self.packet,
            message_id: self.message_id,
            in_progress: self.in_progress,
            publisher: self.publisher@,
            receivers: receivers_view(self.receivers@),
            started_at: self.started_at,
            original_qos: self.original_qos,
        }
    }
}

impl ConfirmationMessage {
    /// A value-equal copy.
    pub fn duplicate(&self) -> (r: ConfirmationMessage)
        ensures
            r@ == self@,
    {
        let r = ConfirmationMessage {
            message_uuid: self.message_uuid,
            packet: self.packet,
            message_id: self.message_id,
            in_progress: self.in_progress,
            publisher: self.publisher.duplicate(),
            receivers: duplicate_receivers(&self.receivers),
            started_at: self.started_at,
            original_qos: self.original_qos,
        };
        proof {
            assert(r@ =~= self@);
        }
        r
    }
}

/// A queued QoS 2 completion: a PUBCOMP owed to the subscriber.
#[derive(Debug)]
pub struct CompletionMessage {
    pub message_uuid: u128,
    pub message_id: u16,
    pub in_progress: bool,
    pub publisher: WriterRef,
    pub receiver: Receiver,
    pub started_at: u64,
}

/// The ghost value of a `CompletionMessage`.
#[verifier::ext_equal]
pub ghost struct CompletionMessageView {
    pub message_uuid: u128,
    pub message_id: u16,
    pub in_progress: bool,
    pub publisher: WriterRefView,
    pub receiver: ReceiverView,
    pub started_at: u64,
}

impl View for CompletionMessage {
    type V = CompletionMessageView;

    open spec fn view(&self) -> CompletionMessageView {
        CompletionMessageView {
            message_uuid: self.message_uuid,
            message_id: self.message_id,
            in_progress: self.in_progress,
            publisher: self.publisher@,
            receiver: self.receiver@,
            started_at: self.started_at,
        }
    }
}

impl CompletionMessage {
    /// A value-equal copy.
    pub fn duplicate(&self) -> (r: CompletionMessage)
        ensures
            r@ == self@,
    {
        CompletionMessage {
            message_uuid: self.message_uuid,
            message_id: self.message_id,
            in_progress: self.in_progress,
            publisher: self.publisher.duplicate(),
            receiver: self.receiver.duplicate(),
            started_at: self.started_at,
        }
    }
}

/// The unit of scheduling in the job queue.
#[derive(Debug)]
pub enum QueueMessage {
    Publish(PublishMessage),
    Confirmation(ConfirmationMessage),
    Complete(CompletionMessage),
    Release(ReleaseMessage),
}

/// The ghost value of a `QueueMessage`.
#[verifier::ext_equal]
pub ghost enum QueueMessageView {
    Publish(PublishMessage),
    Confirmation(ConfirmationMessageView),
    Complete(CompletionMessageView),
    Release(ReleaseMessage),
}

impl View for QueueMessage {
    type V = QueueMessageView;

    open spec fn view(&self) -> QueueMessageView {
        match self {
            QueueMessage::Publish(m) => QueueMessageView::Publish(*m),
            QueueMessage::Confirmation(m) => QueueMessageView::Confirmation(m@),
            QueueMessage::Complete(m) => QueueMessageView::Complete(m@),
            QueueMessage::Release(m) => QueueMessageView::Release(*m),
        }
    }
}

/// The message a queue message schedules work for.
pub open spec fn queue_message_uuid(m: QueueMessageView) -> u128 {
    match m {
        QueueMessageView::Publish(p) => p.message_uuid,
        QueueMessageView::Confirmation(c) => c.message_uuid,
        QueueMessageView::Complete(c) => c.message_uuid,
        QueueMessageView::Release(r) => r.message_uuid,
    }
}

/// The large, immutable portion of an admitted PUBLISH.
#[derive(Debug)]
pub struct PublishContext {
    pub packet: PublishPacket,
    pub receivers: Vec<Receiver>,
    pub sender: WriterRef,
    pub started_at: u64,
}

/// The ghost value of a `PublishContext`.
#[verifier::ext_equal]
pub ghost struct PublishContextView {
    pub packet: PublishPacketView,
    pub receivers: Seq<ReceiverView>,
    pub sender: WriterRefView,
    pub started_at: u64,
}

impl View for PublishContext {
    type V = PublishContextView;

    open spec fn view(&self) -> PublishContextView {
        PublishContextView {
            packet: self.packet@,
            receivers: receivers_view(self.receivers@),
            sender: self.sender@,
            started_at: self.started_at,
        }
    }
}

impl PublishContext {
    /// A value-equal copy.
    pub fn duplicate(&self) -> (r: PublishContext)
        ensures
            r@ == self@,
    {
        let r = PublishContext {
            packet: self.packet.duplicate(),
            receivers: duplicate_receivers(&self.receivers),
            sender: self.sender.duplicate(),
            started_at: self.started_at,
        };
        proof {
            assert(r@ =~= self@);
        }
        r
    }
}

/// A PUBLISH job handed to a worker: the queued message and the queue whose
/// subscribers are to receive it.
#[derive(Debug)]
pub struct PublishJob {
    pub message: PublishMessage,
    pub queue: Queue,
}

/// A client known to the coordinator.
#[derive(Debug)]
pub struct Client {
    pub client: Option<u64>,
    pub writer: WriterRef,
    pub should_persist: bool,
}


/// Filtering after a push keeps the element exactly when the predicate holds.
pub proof fn lemma_filter_push<T>(prefix: Seq<T>, x: T, pred: spec_fn(T) -> bool)
    ensures
        prefix.push(x).filter(pred) == (if pred(x) {
            prefix.filter(pred).push(x)
        } else {
            prefix.filter(pred)
        }),
{
    reveal(Seq::filter);
    assert(prefix.push(x).drop_last() =~= prefix);
    assert(prefix.push(x).last() == x);
}

/// A value-equal copy of a queue message.
impl QueueMessage {
    /// A value-equal copy.
    pub fn duplicate(&self) -> (r: QueueMessage)
        ensures
            r@ == self@,
    {
        match self {
            QueueMessage::Publish(m) => QueueMessage::Publish(*m),
            QueueMessage::Confirmation(m) => QueueMessage::Confirmation(m.duplicate()),
            QueueMessage::Complete(m) => QueueMessage::Complete(m.duplicate()),
            QueueMessage::Release(m) => QueueMessage::Release(*m),
        }
    }
}

} // verus!
