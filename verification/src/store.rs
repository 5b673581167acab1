//! The message store: the in-memory index of in-flight messages, their QoS
//! state, publisher context and receiver set, and the mixed job queue that
//! `poll` serves first-ready-first-served.

use vstd::prelude::*;

verus! {

use crate::codec::ControlPacketType;
use crate::packets::{ConfirmationPacket, PublishPacket};
use crate::structure::{
    CompletionMessage,
    CompletionMessageView,
    ConfirmationMessage,
    ConfirmationMessageView,
    PublishContext,
    PublishContextView,
    PublishJob,
    PublishMessage,
    QueueMessage,
    QueueMessageView,
    Receiver,
    ReceiverView,
    ReleaseMessage,
    WriterRef,
    WriterRefView,
    lemma_filter_push,
    queue_message_uuid,
    receivers_view,
};
use crate::topic_tree::{TopicTree, queue_index_by_id, lemma_queue_index_by_id};
use crate::coordinator::{PollResponse, RetryLater};
use crate::structure::QueueView;

/// The first index pairing this key, or the list's length.
pub open spec fn assoc_index<K, V>(s: Seq<(K, V)>, k: K) -> int
    decreases s.len(),
{
    if s.len() == 0 {
        0
    } else if s[0].0 == k {
        0
    } else {
        1 + assoc_index(s.drop_first(), k)
    }
}

/// Where `assoc_index` lands.
pub proof fn lemma_assoc_index<K, V>(s: Seq<(K, V)>, k: K)
    ensures
        0 <= assoc_index(s, k) <= s.len(),
        assoc_index(s, k) < s.len() ==> s[assoc_index(s, k)].0 == k,
        forall|j: int| 0 <= j < assoc_index(s, k) ==> s[j].0 != k,
    decreases s.len(),
{
    if s.len() > 0 && s[0].0 != k {
        lemma_assoc_index(s.drop_first(), k);
        assert forall|j: int| 0 <= j < assoc_index(s, k) implies s[j].0 != k by {
            if j > 0 {
                assert(s.drop_first()[j - 1] == s[j]);
            }
        }
    }
}

/// The first index of this value, or the list's length.
pub open spec fn index_of_val<T>(s: Seq<T>, x: T) -> int
    decreases s.len(),
{
    if s.len() == 0 {
        0
    } else if s[0] == x {
        0
    } else {
        1 + index_of_val(s.drop_first(), x)
    }
}

/// Where `index_of_val` lands.
pub proof fn lemma_index_of_val<T>(s: Seq<T>, x: T)
    ensures
        0 <= index_of_val(s, x) <= s.len(),
        index_of_val(s, x) < s.len() ==> s[index_of_val(s, x)] == x,
        forall|j: int| 0 <= j < index_of_val(s, x) ==> s[j] != x,
        (index_of_val(s, x) < s.len()) == s.contains(x),
    decreases s.len(),
{
    if s.len() > 0 && s[0] != x {
        lemma_index_of_val(s.drop_first(), x);
        assert forall|j: int| 0 <= j < index_of_val(s, x) implies s[j] != x by {
            if j > 0 {
                assert(s.drop_first()[j - 1] == s[j]);
            }
        }
        if s.contains(x) {
            let w = choose|w: int| 0 <= w < s.len() && s[w] == x;
            assert(s.drop_first()[w - 1] == s[w]);
            assert(s.drop_first().contains(x));
        }
        if s.drop_first().contains(x) {
            let w = choose|w: int| 0 <= w < s.drop_first().len() && s.drop_first()[w] == x;
            assert(s[w + 1] == x);
        }
    }
}

/// The ghost value of the context list.
pub open spec fn contexts_view(v: Seq<(u128, PublishContext)>) -> Seq<(u128, PublishContextView)> {
    v.map_values(|p: (u128, PublishContext)| (p.0, p.1@))
}

/// The ghost value of a `MessageStore`.
#[verifier::ext_equal]
pub ghost struct StoreView {
    pub queue: Seq<QueueMessageView>,
    pub contexts: Seq<(u128, PublishContextView)>,
    pub waiting_qos1: Seq<u16>,
    pub waiting_qos2: Seq<u16>,
    pub waiting_release_qos2: Seq<u16>,
    pub message_ids: Seq<(u16, u128)>,
    pub releases: Seq<(u128, ReleaseMessage)>,
}

/// Is a publisher context recorded for this message?
pub open spec fn has_context(s: Seq<(u128, PublishContextView)>, uuid: u128) -> bool {
    assoc_index(s, uuid) < s.len()
}

/// The recorded publisher context for this message.
pub open spec fn context_of(s: Seq<(u128, PublishContextView)>, uuid: u128) -> PublishContextView {
    s[assoc_index(s, uuid)].1
}

/// A queued PUBLISH is actionable: untouched, its publisher connected, and
/// its queue known with at least one subscriber.
pub open spec fn publish_ready(s: StoreView, qs: Seq<QueueView>, m: PublishMessage) -> bool {
    &&& !m.in_progress
    &&& !m.sent
    &&& has_context(s.contexts, m.message_uuid)
    &&& context_of(s.contexts, m.message_uuid).sender.process is Some
    &&& queue_index_by_id(qs, m.queue_id) < qs.len()
    &&& qs[queue_index_by_id(qs, m.queue_id)].subscribers.len() > 0
}

/// A queued acknowledgement is actionable: untouched, not already being
/// acknowledged, and its publisher connected.
pub open spec fn confirmation_ready(s: StoreView, c: ConfirmationMessageView) -> bool {
    &&& !c.in_progress
    &&& !s.waiting_qos1.contains(c.message_id)
    &&& c.publisher.process is Some
    &&& has_context(s.contexts, c.message_uuid)
}

/// A queued completion is actionable: its wait bit is clear.
pub open spec fn complete_ready(s: StoreView, c: CompletionMessageView) -> bool {
    &&& !c.in_progress
    &&& !s.waiting_qos2.contains(c.message_id)
    &&& has_context(s.contexts, c.message_uuid)
}

/// A queued release is actionable: both confirmations arrived and its wait
/// bit is clear.
pub open spec fn release_ready(s: StoreView, m: ReleaseMessage) -> bool {
    &&& !m.in_progress()
    &&& m.pubrec_received
    &&& m.pubrel_received
    &&& !s.waiting_release_qos2.contains(m.message_id)
    &&& has_context(s.contexts, m.message_uuid)
}

impl ReleaseMessage {
    /// Releases carry no own progress bit; scheduling uses the wait set.
    pub open spec fn in_progress(self) -> bool {
        false
    }
}

/// Is this queued unit actionable now?
pub open spec fn msg_ready(s: StoreView, qs: Seq<QueueView>, m: QueueMessageView) -> bool {
    match m {
        QueueMessageView::Publish(p) => publish_ready(s, qs, p),
        QueueMessageView::Confirmation(c) => confirmation_ready(s, c),
        QueueMessageView::Complete(c) => complete_ready(s, c),
        QueueMessageView::Release(r) => release_ready(s, r),
    }
}

/// The first actionable index in the job queue, or the queue's length.
pub open spec fn first_ready(s: StoreView, qs: Seq<QueueView>, i: int) -> int
    decreases s.queue.len() - i,
{
    if i < 0 || i >= s.queue.len() {
        s.queue.len() as int
    } else if msg_ready(s, qs, s.queue[i]) {
        i
    } else {
        first_ready(s, qs, i + 1)
    }
}

/// Where `first_ready` lands.
pub proof fn lemma_first_ready(s: StoreView, qs: Seq<QueueView>, i: int)
    requires
        0 <= i <= s.queue.len(),
    ensures
        i <= first_ready(s, qs, i) <= s.queue.len(),
        first_ready(s, qs, i) < s.queue.len() ==> msg_ready(s, qs, s.queue[first_ready(s, qs, i)]),
        forall|j: int| i <= j < first_ready(s, qs, i) ==> !msg_ready(s, qs, s.queue[j]),
    decreases s.queue.len() - i,
{
    if i < s.queue.len() && !msg_ready(s, qs, s.queue[i]) {
        lemma_first_ready(s, qs, i + 1);
    }
}

/// The in-memory message index and job queue.
#[derive(Debug)]
pub struct MessageStore {
    pub message_queue: Vec<QueueMessage>,
    pub messages: Vec<(u128, PublishContext)>,
    pub waiting_qos1: Vec<u16>,
    pub waiting_qos2: Vec<u16>,
    pub waiting_release_qos2: Vec<u16>,
    pub message_ids: Vec<(u16, u128)>,
    pub qos2_message_release: Vec<(u128, ReleaseMessage)>,
}

impl View for MessageStore {
    type V = StoreView;

    open spec fn view(&self) -> StoreView {
        StoreView {
            queue: self.message_queue@.map_values(|m: QueueMessage| m@),
            contexts: contexts_view(self.messages@),
            waiting_qos1: self.waiting_qos1@,
            waiting_qos2: self.waiting_qos2@,
            waiting_release_qos2: self.waiting_release_qos2@,
            message_ids: self.message_ids@,
            releases: self.qos2_message_release@,
        }
    }
}

/// Find an entry by `u128` key.
fn assoc_find_u128<V>(v: &Vec<(u128, V)>, k: u128) -> (r: Option<usize>)
    ensures
        (match r {
            Some(i) => i as int == assoc_index(v@, k) && (i as int) < v@.len(),
            None => assoc_index(v@, k) == v@.len(),
        }),
{
    proof {
        lemma_assoc_index(v@, k);
    }
    let ghost target = assoc_index(v@, k);
    let mut i: usize = 0;
    while i < v.len()
        invariant
            0 <= i <= v@.len(),
            target == assoc_index(v@, k),
            0 <= target <= v@.len(),
            target < v@.len() ==> v@[target].0 == k,
            forall|j: int| 0 <= j < target ==> v@[j].0 != k,
            i <= target,
        decreases v@.len() - i,
    {
        if v[i].0 == k {
            proof {
                assert(v@[i as int].0 == k);
                assert(i == target);
            }
            return Some(i);
        }
        i = i + 1;
    }
    None
}

/// Find an entry by `u16` key.
fn assoc_find_u16<V>(v: &Vec<(u16, V)>, k: u16) -> (r: Option<usize>)
    ensures
        (match r {
            Some(i) => i as int == assoc_index(v@, k) && (i as int) < v@.len(),
            None => assoc_index(v@, k) == v@.len(),
        }),
{
    proof {
        lemma_assoc_index(v@, k);
    }
    let ghost target = assoc_index(v@, k);
    let mut i: usize = 0;
    while i < v.len()
        invariant
            0 <= i <= v@.len(),
            target == assoc_index(v@, k),
            0 <= target <= v@.len(),
            target < v@.len() ==> v@[target].0 == k,
            forall|j: int| 0 <= j < target ==> v@[j].0 != k,
            i <= target,
        decreases v@.len() - i,
    {
        if v[i].0 == k {
            proof {
                assert(v@[i as int].0 == k);
                assert(i == target);
            }
            return Some(i);
        }
        i = i + 1;
    }
    None
}

/// Does the set hold this identifier?
pub fn contains_u16(v: &Vec<u16>, k: u16) -> (r: bool)
    ensures
        r == v@.contains(k),
{
    proof {
        lemma_index_of_val(v@, k);
    }
    let ghost target = index_of_val(v@, k);
    let mut i: usize = 0;
    while i < v.len()
        invariant
            0 <= i <= v@.len(),
            forall|j: int| 0 <= j < i ==> v@[j] != k,
        decreases v@.len() - i,
    {
        if v[i] == k {
            assert(v@.contains(k));
            return true;
        }
        i = i + 1;
    }
    proof {
        if v@.contains(k) {
            let w = choose|w: int| 0 <= w < v@.len() && v@[w] == k;
            assert(v@[w] != k);
        }
    }
    false
}

/// Remove the first occurrence of an identifier, if present.
fn remove_u16(v: &mut Vec<u16>, k: u16)
    ensures
        ({
            let i = index_of_val(old(v)@, k);
            if i < old(v)@.len() {
                final(v)@ == old(v)@.remove(i)
            } else {
                final(v)@ == old(v)@
            }
        }),
{
    proof {
        lemma_index_of_val(v@, k);
    }
    let ghost target = index_of_val(v@, k);
    let mut i: usize = 0;
    while i < v.len()
        invariant
            v@ == old(v)@,
            target == index_of_val(old(v)@, k),
            0 <= target <= old(v)@.len(),
            target < old(v)@.len() ==> old(v)@[target] == k,
            forall|j: int| 0 <= j < target ==> old(v)@[j] != k,
            0 <= i <= v@.len(),
            forall|j: int| 0 <= j < i ==> v@[j] != k,
            i <= target,
        decreases v@.len() - i,
    {
        if v[i] == k {
            proof {
                assert(v@[i as int] == k);
                assert(i == target);
            }
            v.remove(i);
            return ;
        }
        i = i + 1;
    }
}

/// Remove the first entry with this `u16` key, if present.
fn remove_assoc_u16<V>(v: &mut Vec<(u16, V)>, k: u16)
    ensures
        ({
            let i = assoc_index(old(v)@, k);
            if i < old(v)@.len() {
                final(v)@ == old(v)@.remove(i)
            } else {
                final(v)@ == old(v)@
            }
        }),
{
    proof {
        lemma_assoc_index(v@, k);
    }
    let ghost target = assoc_index(v@, k);
    let mut i: usize = 0;
    while i < v.len()
        invariant
            v@ == old(v)@,
            target == assoc_index(old(v)@, k),
            0 <= target <= old(v)@.len(),
            target < old(v)@.len() ==> old(v)@[target].0 == k,
            forall|j: int| 0 <= j < target ==> old(v)@[j].0 != k,
            0 <= i <= v@.len(),
            forall|j: int| 0 <= j < i ==> v@[j].0 != k,
            i <= target,
        decreases v@.len() - i,
    {
        if v[i].0 == k {
            proof {
                assert(v@[i as int].0 == k);
                assert(i == target);
            }
            v.remove(i);
            return ;
        }
        i = i + 1;
    }
}


/// Keep only the queue messages that do not schedule this message.
pub open spec fn queue_without_uuid(q: Seq<QueueMessageView>, uuid: u128) -> Seq<QueueMessageView> {
    q.filter(|m: QueueMessageView| queue_message_uuid(m) != uuid)
}

/// Rebuild a job queue without a predicate's hits, value for value.
fn retain_queue(q: &mut Vec<QueueMessage>, uuid: u128, only_publish_by_id: Option<u16>)
    ensures
        (only_publish_by_id is None ==> final(q)@.map_values(|m: QueueMessage| m@) == queue_without_uuid(
            old(q)@.map_values(|m: QueueMessage| m@),
            uuid,
        )),
        (only_publish_by_id matches Some(id) ==> final(q)@.map_values(|m: QueueMessage| m@) == old(
            q,
        )@.map_values(|m: QueueMessage| m@).filter(
            |m: QueueMessageView| (!(m matches QueueMessageView::Publish(p) && p.message_id
                == Some(id))),
        )),
{
    let ghost orig = q@.map_values(|m: QueueMessage| m@);
    let ghost pred = if only_publish_by_id is Some {
        |m: QueueMessageView| !(m matches QueueMessageView::Publish(p) && p.message_id
            == only_publish_by_id)
    } else {
        |m: QueueMessageView| queue_message_uuid(m) != uuid
    };
    let mut kept: Vec<QueueMessage> = Vec::new();
    let mut i: usize = 0;
    while i < q.len()
        invariant
            orig == old(q)@.map_values(|m: QueueMessage| m@),
            q@ == old(q)@,
            pred == (if only_publish_by_id is Some {
                |m: QueueMessageView| !(m matches QueueMessageView::Publish(p) && p.message_id
                    == only_publish_by_id)
            } else {
                |m: QueueMessageView| queue_message_uuid(m) != uuid
            }),
            0 <= i <= orig.len(),
            kept@.map_values(|m: QueueMessage| m@) == orig.subrange(0, i as int).filter(pred),
        decreases orig.len() - i,
    {
        let ghost prefix = orig.subrange(0, i as int);
        let ghost cur = orig[i as int];
        let keep = match (&q[i], only_publish_by_id) {
            (QueueMessage::Publish(p), Some(id)) => !(match p.message_id {
                Some(v) => v == id,
                None => false,
            }),
            (m, Some(_)) => true,
            (m, None) => {
                let u = match m {
                    QueueMessage::Publish(p) => p.message_uuid,
                    QueueMessage::Confirmation(c) => c.message_uuid,
                    QueueMessage::Complete(c) => c.message_uuid,
                    QueueMessage::Release(rm) => rm.message_uuid,
                };
                u != uuid
            },
        };
        proof {
            assert(cur == q@[i as int]@);
            assert(keep == pred(cur));
            lemma_filter_push(prefix, cur, pred);
            assert(orig.subrange(0, i + 1) =~= prefix.push(cur));
        }
        if keep {
            let ghost prev = kept@.map_values(|m: QueueMessage| m@);
            kept.push(q[i].duplicate());
            proof {
                assert(kept@.map_values(|m: QueueMessage| m@) =~= prev.push(cur));
            }
        }
        i = i + 1;
    }
    proof {
        assert(orig.subrange(0, orig.len() as int) =~= orig);
    }
    *q = kept;
}

impl MessageStore {
    /// A store over recovered contexts, queue and identifier map, with all
    /// wait sets clear.
    pub fn new(
        messages: Vec<(u128, PublishContext)>,
        message_queue: Vec<QueueMessage>,
        message_ids: Vec<(u16, u128)>,
    ) -> (r: MessageStore)
        ensures
            r@.queue == message_queue@.map_values(|m: QueueMessage| m@),
            r@.contexts == contexts_view(messages@),
            r@.message_ids == message_ids@,
            r@.waiting_qos1.len() == 0,
            r@.waiting_qos2.len() == 0,
            r@.waiting_release_qos2.len() == 0,
            r@.releases.len() == 0,
    {
        MessageStore {
            message_queue,
            messages,
            waiting_qos1: Vec::new(),
            waiting_qos2: Vec::new(),
            waiting_release_qos2: Vec::new(),
            message_ids,
            qos2_message_release: Vec::new(),
        }
    }

    /// Drop every queued unit that schedules this message.
    pub fn drop_messages_by_uuid(&mut self, message_uuid: u128)
        ensures
            final(self)@ == (StoreView {
                queue: queue_without_uuid(old(self)@.queue, message_uuid),
                ..old(self)@
            }),
    {
        retain_queue(&mut self.message_queue, message_uuid, None);
    }

    /// Drop the queued PUBLISH that carries this wire identifier.
    pub fn drop_publish_message_id(&mut self, message_id: u16)
        ensures
            final(self)@ == (StoreView {
                queue: old(self)@.queue.filter(
                    |m: QueueMessageView| (!(m matches QueueMessageView::Publish(p) && p.message_id
                        == Some(message_id))),
                ),
                ..old(self)@
            }),
    {
        retain_queue(&mut self.message_queue, 0, Some(message_id));
    }

    /// Remove every record of this message: queued units, wait bits, the
    /// identifier mapping, the pending release and the publisher context.
    pub fn cleanup_message(&mut self, message_uuid: u128, message_id: u16, qos: u8)
        ensures
            final(self)@.queue == queue_without_uuid(old(self)@.queue, message_uuid),
            final(self)@.waiting_qos1 == (if qos == 1 {
                remove_val_spec(old(self)@.waiting_qos1, message_id)
            } else {
                old(self)@.waiting_qos1
            }),
            final(self)@.waiting_qos2 == (if qos == 2 {
                remove_val_spec(old(self)@.waiting_qos2, message_id)
            } else {
                old(self)@.waiting_qos2
            }),
            final(self)@.waiting_release_qos2 == (if qos == 2 {
                remove_val_spec(old(self)@.waiting_release_qos2, message_id)
            } else {
                old(self)@.waiting_release_qos2
            }),
            final(self)@.message_ids == remove_assoc_spec(old(self)@.message_ids, message_id),
            final(self)@.releases == remove_assoc_spec(old(self)@.releases, message_uuid),
            final(self)@.contexts == remove_assoc_spec(old(self)@.contexts, message_uuid),
    {
        retain_queue(&mut self.message_queue, message_uuid, None);
        if qos == 1 {
            remove_u16(&mut self.waiting_qos1, message_id);
        } else if qos == 2 {
            remove_u16(&mut self.waiting_qos2, message_id);
            remove_u16(&mut self.waiting_release_qos2, message_id);
        }
        remove_assoc_u16(&mut self.message_ids, message_id);
        let ghost rel0 = self.qos2_message_release@;
        proof {
            lemma_assoc_index(self.qos2_message_release@, message_uuid);
        }
        match assoc_find_u128(&self.qos2_message_release, message_uuid) {
            Some(i) => {
                self.qos2_message_release.remove(i);
                proof {
                    assert(self.qos2_message_release@ =~= rel0.remove(
                        assoc_index(rel0, message_uuid),
                    ));
                }
            },
            None => {},
        }
        let ghost ctx0 = contexts_view(self.messages@);
        proof {
            lemma_assoc_index(self.messages@, message_uuid);
            lemma_assoc_index(ctx0, message_uuid);
        }
        let ghost m0 = self.messages@;
        match assoc_find_u128(&self.messages, message_uuid) {
            Some(i) => {
                proof {
                    lemma_assoc_remove_view(m0, message_uuid);
                }
                self.messages.remove(i);
                proof {
                    assert(self.messages@ =~= m0.remove(i as int));
                    assert forall|j: int|
                        0 <= j < contexts_view(m0.remove(i as int)).len() implies contexts_view(
                        m0.remove(i as int),
                    )[j] == contexts_view(m0).remove(i as int)[j] by {
                        if j < i {
                            assert(m0.remove(i as int)[j] == m0[j]);
                        } else {
                            assert(m0.remove(i as int)[j] == m0[j + 1]);
                        }
                    }
                    assert(contexts_view(self.messages@) =~= contexts_view(m0).remove(i as int));
                    assert(ctx0 == contexts_view(m0));
                    assert(contexts_view(self.messages@) =~= ctx0.remove(
                        assoc_index(ctx0, message_uuid),
                    ));
                }
            },
            None => {},
        }
    }

    /// The queued PUBLISH for this message, if one is queued.
    pub fn get_by_uuid(&self, message_uuid: u128) -> (r: Option<PublishMessage>)
        ensures
            ({
                let i = publish_index(self@.queue, message_uuid);
                if i < self@.queue.len() {
                    (r matches Some(m) && QueueMessageView::Publish(m) == self@.queue[i])
                } else {
                    r is None
                }
            }),
    {
        proof {
            lemma_publish_index(self@.queue, message_uuid);
        }
        let ghost target = publish_index(self@.queue, message_uuid);
        let mut i: usize = 0;
        while i < self.message_queue.len()
            invariant
                0 <= i <= self@.queue.len(),
                target == publish_index(self@.queue, message_uuid),
                0 <= target <= self@.queue.len(),
                target < self@.queue.len() ==> (self@.queue[target]
                    matches QueueMessageView::Publish(p) && p.message_uuid == message_uuid),
                forall|j: int|
                    0 <= j < target ==> (!((#[trigger] self@.queue[j])
                        matches QueueMessageView::Publish(p) && p.message_uuid == message_uuid)),
                i <= target,
            decreases self@.queue.len() - i,
        {
            match &self.message_queue[i] {
                QueueMessage::Publish(p) => {
                    if p.message_uuid == message_uuid {
                        proof {
                            assert(self@.queue[i as int] == QueueMessageView::Publish(*p));
                            assert(i == target);
                        }
                        return Some(*p);
                    }
                },
                _ => {},
            }
            proof {
                assert(!(self@.queue[i as int] matches QueueMessageView::Publish(p)
                    && p.message_uuid == message_uuid));
            }
            i = i + 1;
        }
        None
    }

    /// The queue identity of the queued PUBLISH for this message.
    pub fn get_queue_id(&self, uuid: u128) -> (r: Option<u128>)
        ensures
            ({
                let i = publish_index(self@.queue, uuid);
                if i < self@.queue.len() {
                    (r matches Some(q) && (self@.queue[i] matches QueueMessageView::Publish(p)
                        && p.queue_id == q))
                } else {
                    r is None
                }
            }),
    {
        match self.get_by_uuid(uuid) {
            Some(p) => Some(p.queue_id),
            None => None,
        }
    }

    /// Map a wire identifier to this message, replacing an older mapping.
    pub fn register_message_id(&mut self, message_id: Option<u16>, uuid: u128) -> (r: u128)
        ensures
            r == uuid,
            final(self)@ == (StoreView {
                message_ids: (match message_id {
                    Some(id) => remove_assoc_spec(old(self)@.message_ids, id).push((id, uuid)),
                    None => old(self)@.message_ids,
                }),
                ..old(self)@
            }),
    {
        match message_id {
            Some(id) => {
                remove_assoc_u16(&mut self.message_ids, id);
                self.message_ids.push((id, uuid));
            },
            None => {},
        }
        uuid
    }

    /// The message a wire identifier names, if the mapping is live.
    pub fn lookup_uuid(&self, message_id: u16) -> (r: Option<u128>)
        ensures
            ({
                let i = assoc_index(self@.message_ids, message_id);
                if i < self@.message_ids.len() {
                    r == Some(self@.message_ids[i].1)
                } else {
                    r is None
                }
            }),
    {
        proof {
            lemma_assoc_index(self@.message_ids, message_id);
        }
        match assoc_find_u16(&self.message_ids, message_id) {
            Some(i) => {
                proof {
                    assert(i as int == assoc_index(self@.message_ids, message_id));
                }
                Some(self.message_ids[i].1)
            },
            None => None,
        }
    }

    /// Queue an admitted PUBLISH and record its context.
    pub fn insert_publish_message(
        &mut self,
        message_uuid: u128,
        packet: PublishPacket,
        queue_id: u128,
        sender: WriterRef,
        started_at: u64,
    )
        ensures
            final(self)@ == (StoreView {
                queue: old(self)@.queue.push(
                    QueueMessageView::Publish(
                        PublishMessage {
                            message_uuid,
                            message_id: packet@.message_id,
                            queue_id,
                            in_progress: false,
                            sent: false,
                        },
                    ),
                ),
                contexts: old(self)@.contexts.push(
                    (
                        message_uuid,
                        PublishContextView {
                            packet: packet@,
                            receivers: Seq::empty(),
                            sender: sender@,
                            started_at,
                        },
                    ),
                ),
                ..old(self)@
            }),
    {
        let ghost q0 = self@.queue;
        let ghost c0 = self@.contexts;
        let message_id = packet.message_id;
        self.message_queue.push(
            QueueMessage::Publish(
                PublishMessage { message_uuid, message_id, queue_id, in_progress: false, sent: false },
            ),
        );
        let context = PublishContext { packet, receivers: Vec::new(), sender, started_at };
        let ghost ctx_view = context@;
        self.messages.push((message_uuid, context));
        proof {
            assert(self@.queue =~= q0.push(
                QueueMessageView::Publish(
                    PublishMessage {
                        message_uuid,
                        message_id,
                        queue_id,
                        in_progress: false,
                        sent: false,
                    },
                ),
            ));
            assert(self@.contexts =~= c0.push((message_uuid, ctx_view)));
            assert(ctx_view.receivers =~= Seq::<ReceiverView>::empty());
        }
    }
}

/// A list with the first occurrence of a value removed, if any.
pub open spec fn remove_val_spec<T>(s: Seq<T>, x: T) -> Seq<T> {
    if index_of_val(s, x) < s.len() {
        s.remove(index_of_val(s, x))
    } else {
        s
    }
}

/// A list with the first entry under a key removed, if any.
pub open spec fn remove_assoc_spec<K, V>(s: Seq<(K, V)>, k: K) -> Seq<(K, V)> {
    if assoc_index(s, k) < s.len() {
        s.remove(assoc_index(s, k))
    } else {
        s
    }
}

/// The first queued PUBLISH for a message, or the queue's length.
pub open spec fn publish_index(q: Seq<QueueMessageView>, uuid: u128) -> int
    decreases q.len(),
{
    if q.len() == 0 {
        0
    } else if q[0] matches QueueMessageView::Publish(p) && p.message_uuid == uuid {
        0
    } else {
        1 + publish_index(q.drop_first(), uuid)
    }
}

/// Where `publish_index` lands.
pub proof fn lemma_publish_index(q: Seq<QueueMessageView>, uuid: u128)
    ensures
        0 <= publish_index(q, uuid) <= q.len(),
        publish_index(q, uuid) < q.len() ==> (q[publish_index(q, uuid)]
            matches QueueMessageView::Publish(p) && p.message_uuid == uuid),
        forall|j: int|
            0 <= j < publish_index(q, uuid) ==> (!((#[trigger] q[j])
                matches QueueMessageView::Publish(p) && p.message_uuid == uuid)),
    decreases q.len(),
{
    if q.len() > 0 && !(q[0] matches QueueMessageView::Publish(p) && p.message_uuid == uuid) {
        lemma_publish_index(q.drop_first(), uuid);
        assert forall|j: int|
            0 <= j < publish_index(q, uuid) implies !((#[trigger] q[j])
            matches QueueMessageView::Publish(p) && p.message_uuid == uuid) by {
            if j > 0 {
                assert(q.drop_first()[j - 1] == q[j]);
            }
        }
    }
}

/// Removing an association commutes with taking views.
proof fn lemma_assoc_remove_view(v: Seq<(u128, PublishContext)>, k: u128)
    ensures
        assoc_index(contexts_view(v), k) == assoc_index(v, k),
    decreases v.len(),
{
    if v.len() > 0 {
        if v[0].0 != k {
            lemma_assoc_remove_view(v.drop_first(), k);
            assert(contexts_view(v).drop_first() =~= contexts_view(v.drop_first()));
        }
    }
}


/// The fields of a queued PUBLISH, or a quiet default for other units.
pub open spec fn publish_fields(m: QueueMessageView) -> PublishMessage {
    match m {
        QueueMessageView::Publish(p) => p,
        _ => PublishMessage {
            message_uuid: 0,
            message_id: None,
            queue_id: 0,
            in_progress: false,
            sent: false,
        },
    }
}

/// The store after a delivery is recorded: the context holds the receivers,
/// and the queued PUBLISH, where one is still queued, turns sent.
pub open spec fn store_after_mark_sent(s: StoreView, uuid: u128, rv: Seq<ReceiverView>) -> StoreView {
    let pi = publish_index(s.queue, uuid);
    let ci = assoc_index(s.contexts, uuid);
    let p = publish_fields(s.queue[pi]);
    let ctx = s.contexts[ci].1;
    StoreView {
        queue: if pi < s.queue.len() {
            s.queue.update(pi, QueueMessageView::Publish(PublishMessage { sent: true, ..p }))
        } else {
            s.queue
        },
        contexts: s.contexts.update(ci, (uuid, PublishContextView { receivers: rv, ..ctx })),
        ..s
    }
}

/// The acknowledgement a context yields for its publisher.
pub open spec fn confirmation_from_context(
    message_id: u16,
    uuid: u128,
    packet: ConfirmationPacket,
    ctx: PublishContextView,
) -> ConfirmationMessageView {
    ConfirmationMessageView {
        message_uuid: uuid,
        packet,
        message_id,
        in_progress: false,
        publisher: ctx.sender,
        receivers: ctx.receivers,
        started_at: ctx.started_at,
        original_qos: ctx.packet.qos,
    }
}

/// The completion a context yields for its chosen receiver.
pub open spec fn completion_from_context(
    message_id: u16,
    uuid: u128,
    ctx: PublishContextView,
) -> CompletionMessageView {
    CompletionMessageView {
        message_uuid: uuid,
        message_id,
        in_progress: false,
        publisher: ctx.sender,
        receiver: ctx.receivers[0],
        started_at: ctx.started_at,
    }
}

/// The store after one half of a release arrives: an existing record gains
/// the arriving flag, and a release job is queued exactly when both halves
/// have now arrived; a new record is filed with the one flag that arrived.
pub open spec fn store_after_upsert(
    s: StoreView,
    message_id: u16,
    uuid: u128,
    is_pubrec: bool,
) -> StoreView {
    let i = assoc_index(s.releases, uuid);
    if i < s.releases.len() {
        let r0 = s.releases[i].1;
        let r1 = ReleaseMessage {
            message_id: r0.message_id,
            message_uuid: r0.message_uuid,
            pubrec_received: r0.pubrec_received || is_pubrec,
            pubrel_received: r0.pubrel_received || !is_pubrec,
        };
        StoreView {
            queue: if r1.pubrec_received && r1.pubrel_received {
                s.queue.push(QueueMessageView::Release(r1))
            } else {
                s.queue
            },
            releases: s.releases.update(i, (uuid, r1)),
            ..s
        }
    } else {
        StoreView {
            releases: s.releases.push(
                (
                    uuid,
                    ReleaseMessage {
                        message_id,
                        message_uuid: uuid,
                        pubrec_received: is_pubrec,
                        pubrel_received: !is_pubrec,
                    },
                ),
            ),
            ..s
        }
    }
}

impl MessageStore {
    /// May a worker take this acknowledgement now?
    pub fn can_process_confirmation(waiting_qos1: &Vec<u16>, confirm: &ConfirmationMessage) -> (r:
        bool)
        ensures
            r == (!confirm@.in_progress && !waiting_qos1@.contains(confirm@.message_id)
                && confirm@.publisher.process is Some),
    {
        !confirm.in_progress && !contains_u16(waiting_qos1, confirm.message_id)
            && confirm.publisher.process.is_some()
    }

    /// Record a delivery: file the receivers on the message's context, mark
    /// the queued PUBLISH sent where one is still queued, and name its
    /// queue. Nothing changes without a recorded context.
    pub fn mark_sent(&mut self, message_uuid: u128, receivers: &Vec<Receiver>) -> (r: Option<u128>)
        ensures
            ({
                let pi = publish_index(old(self)@.queue, message_uuid);
                let ci = assoc_index(old(self)@.contexts, message_uuid);
                if ci < old(self)@.contexts.len() {
                    final(self)@ == store_after_mark_sent(
                        old(self)@,
                        message_uuid,
                        receivers_view(receivers@),
                    ) && r == (if pi < old(self)@.queue.len() {
                        Some(publish_fields(old(self)@.queue[pi]).queue_id)
                    } else {
                        None::<u128>
                    })
                } else {
                    r is None && final(self)@ == old(self)@
                }
            }),
    {
        proof {
            lemma_publish_index(self@.queue, message_uuid);
            lemma_assoc_index(self@.contexts, message_uuid);
            lemma_assoc_index(self.messages@, message_uuid);
            lemma_assoc_remove_view(self.messages@, message_uuid);
        }
        let ci = match assoc_find_u128(&self.messages, message_uuid) {
            Some(i) => i,
            None => {
                return None;
            },
        };
        let ghost c0 = self@.contexts;
        let mut pair = self.messages.remove(ci);
        pair.1.receivers = crate::structure::duplicate_receivers(receivers);
        let ghost new_ctx = pair.1@;
        self.messages.insert(ci, pair);
        proof {
            assert(new_ctx =~= PublishContextView {
                receivers: receivers_view(receivers@),
                ..c0[ci as int].1
            });
            assert(contexts_view(self.messages@) =~= c0.update(ci as int, (message_uuid, new_ctx)));
        }
        let pi = match self.find_publish(message_uuid) {
            Some(i) => i,
            None => {
                proof {
                    assert(self@ =~= store_after_mark_sent(
                        old(self)@,
                        message_uuid,
                        receivers_view(receivers@),
                    ));
                }
                return None;
            },
        };
        let ghost q0 = self@.queue;
        let m = match &self.message_queue[pi] {
            QueueMessage::Publish(p) => *p,
            _ => {
                return None;
            },
        };
        let updated = PublishMessage {
            message_uuid: m.message_uuid,
            message_id: m.message_id,
            queue_id: m.queue_id,
            in_progress: m.in_progress,
            sent: true,
        };
        self.message_queue.remove(pi);
        self.message_queue.insert(pi, QueueMessage::Publish(updated));
        proof {
            assert(self@.queue =~= q0.update(
                pi as int,
                QueueMessageView::Publish(PublishMessage { sent: true, ..m }),
            ));
            assert(self@ =~= store_after_mark_sent(old(self)@, message_uuid, receivers_view(receivers@)));
        }
        Some(m.queue_id)
    }

    /// The index of the queued PUBLISH for a message.
    fn find_publish(&self, message_uuid: u128) -> (r: Option<usize>)
        ensures
            (match r {
                Some(i) => i as int == publish_index(self@.queue, message_uuid) && (i as int)
                    < self@.queue.len(),
                None => publish_index(self@.queue, message_uuid) == self@.queue.len(),
            }),
    {
        proof {
            lemma_publish_index(self@.queue, message_uuid);
        }
        let ghost target = publish_index(self@.queue, message_uuid);
        let mut i: usize = 0;
        while i < self.message_queue.len()
            invariant
                0 <= i <= self@.queue.len(),
                target == publish_index(self@.queue, message_uuid),
                0 <= target <= self@.queue.len(),
                target < self@.queue.len() ==> (self@.queue[target]
                    matches QueueMessageView::Publish(p) && p.message_uuid == message_uuid),
                forall|j: int|
                    0 <= j < target ==> (!((#[trigger] self@.queue[j])
                        matches QueueMessageView::Publish(p) && p.message_uuid == message_uuid)),
                i <= target,
            decreases self@.queue.len() - i,
        {
            match &self.message_queue[i] {
                QueueMessage::Publish(p) => {
                    if p.message_uuid == message_uuid {
                        proof {
                            assert(self@.queue[i as int] == QueueMessageView::Publish(*p));
                            assert(i == target);
                        }
                        return Some(i);
                    }
                },
                _ => {},
            }
            proof {
                assert(!(self@.queue[i as int] matches QueueMessageView::Publish(p)
                    && p.message_uuid == message_uuid));
            }
            i = i + 1;
        }
        None
    }

    /// Point every context this client published at its new writer handle.
    pub fn update_message_publisher_refs(&mut self, writer: &WriterRef)
        ensures
            final(self)@ == (StoreView {
                contexts: old(self)@.contexts.map_values(
                    |p: (u128, PublishContextView)|
                        if p.1.sender.client_id == writer@.client_id {
                            (p.0, PublishContextView { sender: writer@, ..p.1 })
                        } else {
                            p
                        },
                ),
                ..old(self)@
            }),
    {
        let ghost c0 = self@.contexts;
        let mut i: usize = 0;
        while i < self.messages.len()
            invariant
                c0 == old(self)@.contexts,
                self@.queue == old(self)@.queue,
                self@.waiting_qos1 == old(self)@.waiting_qos1,
                self@.waiting_qos2 == old(self)@.waiting_qos2,
                self@.waiting_release_qos2 == old(self)@.waiting_release_qos2,
                self@.message_ids == old(self)@.message_ids,
                self@.releases == old(self)@.releases,
                0 <= i <= self@.contexts.len(),
                self@.contexts.len() == c0.len(),
                forall|j: int| i <= j < c0.len() ==> self@.contexts[j] == c0[j],
                forall|j: int|
                    0 <= j < i ==> self@.contexts[j] == (if c0[j].1.sender.client_id
                        == writer@.client_id {
                        (c0[j].0, PublishContextView { sender: writer@, ..c0[j].1 })
                    } else {
                        c0[j]
                    }),
            decreases self@.contexts.len() - i,
        {
            let ghost before = self@.contexts[i as int];
            let hit = crate::topic::str_eq(
                self.messages[i].1.sender.client_id.as_str(),
                writer.client_id.as_str(),
            );
            if hit {
                let ghost ctx_pre = contexts_view(self.messages@);
                let mut pair = self.messages.remove(i);
                pair.1.sender = writer.duplicate();
                let ghost new_ctx = pair.1@;
                self.messages.insert(i, pair);
                proof {
                    assert(new_ctx == PublishContextView { sender: writer@, ..before.1 });
                    assert(contexts_view(self.messages@) =~= ctx_pre.update(
                        i as int,
                        (before.0, new_ctx),
                    ));
                }
            }
            i = i + 1;
        }
        proof {
            assert(final(self)@.contexts =~= old(self)@.contexts.map_values(
                |p: (u128, PublishContextView)|
                    if p.1.sender.client_id == writer@.client_id {
                        (p.0, PublishContextView { sender: writer@, ..p.1 })
                    } else {
                        p
                    },
            ));
        }
    }

    /// Forget the recorded context of one message.
    pub fn remove_context(&mut self, message_uuid: u128)
        ensures
            final(self)@ == (StoreView {
                contexts: remove_assoc_spec(old(self)@.contexts, message_uuid),
                ..old(self)@
            }),
    {
        let ghost ctx0 = contexts_view(self.messages@);
        proof {
            lemma_assoc_index(self.messages@, message_uuid);
            lemma_assoc_index(ctx0, message_uuid);
            lemma_assoc_remove_view(self.messages@, message_uuid);
        }
        let ghost m0 = self.messages@;
        match assoc_find_u128(&self.messages, message_uuid) {
            Some(i) => {
                self.messages.remove(i);
                proof {
                    assert(self.messages@ =~= m0.remove(i as int));
                    assert forall|j: int|
                        0 <= j < contexts_view(m0.remove(i as int)).len() implies contexts_view(
                        m0.remove(i as int),
                    )[j] == contexts_view(m0).remove(i as int)[j] by {
                        if j < i {
                            assert(m0.remove(i as int)[j] == m0[j]);
                        } else {
                            assert(m0.remove(i as int)[j] == m0[j + 1]);
                        }
                    }
                    assert(contexts_view(self.messages@) =~= contexts_view(m0).remove(i as int));
                    assert(contexts_view(self.messages@) =~= ctx0.remove(
                        assoc_index(ctx0, message_uuid),
                    ));
                }
            },
            None => {},
        }
    }

    /// Forget the live writer handle on every context this client published;
    /// the messages themselves stay for the client's return.
    pub fn clear_publisher_process(&mut self, client_id: &str)
        ensures
            final(self)@ == (StoreView {
                contexts: old(self)@.contexts.map_values(
                    |p: (u128, PublishContextView)|
                        if p.1.sender.client_id == client_id@ {
                            (
                                p.0,
                                PublishContextView {
                                    sender: WriterRefView { process: None, ..p.1.sender },
                                    ..p.1
                                },
                            )
                        } else {
                            p
                        },
                ),
                ..old(self)@
            }),
    {
        let ghost c0 = self@.contexts;
        let mut i: usize = 0;
        while i < self.messages.len()
            invariant
                c0 == old(self)@.contexts,
                self@.queue == old(self)@.queue,
                self@.waiting_qos1 == old(self)@.waiting_qos1,
                self@.waiting_qos2 == old(self)@.waiting_qos2,
                self@.waiting_release_qos2 == old(self)@.waiting_release_qos2,
                self@.message_ids == old(self)@.message_ids,
                self@.releases == old(self)@.releases,
                0 <= i <= self@.contexts.len(),
                self@.contexts.len() == c0.len(),
                forall|j: int| i <= j < c0.len() ==> self@.contexts[j] == c0[j],
                forall|j: int|
                    0 <= j < i ==> self@.contexts[j] == (if c0[j].1.sender.client_id
                        == client_id@ {
                        (
                            c0[j].0,
                            PublishContextView {
                                sender: WriterRefView { process: None, ..c0[j].1.sender },
                                ..c0[j].1
                            },
                        )
                    } else {
                        c0[j]
                    }),
            decreases self@.contexts.len() - i,
        {
            let ghost before = self@.contexts[i as int];
            let hit = crate::topic::str_eq(
                self.messages[i].1.sender.client_id.as_str(),
                client_id,
            );
            if hit {
                let ghost ctx_pre = contexts_view(self.messages@);
                let mut pair = self.messages.remove(i);
                pair.1.sender.process = None;
                let ghost new_ctx = pair.1@;
                self.messages.insert(i, pair);
                proof {
                    assert(new_ctx =~= PublishContextView {
                        sender: WriterRefView { process: None, ..before.1.sender },
                        ..before.1
                    });
                    assert(contexts_view(self.messages@) =~= ctx_pre.update(
                        i as int,
                        (before.0, new_ctx),
                    ));
                }
            }
            i = i + 1;
        }
        proof {
            assert(final(self)@.contexts =~= old(self)@.contexts.map_values(
                |p: (u128, PublishContextView)|
                    if p.1.sender.client_id == client_id@ {
                        (
                            p.0,
                            PublishContextView {
                                sender: WriterRefView { process: None, ..p.1.sender },
                                ..p.1
                            },
                        )
                    } else {
                        p
                    },
            ));
        }
    }

    /// Queue an acknowledgement bound for the message's publisher; nothing
    /// is queued without a recorded context.
    pub fn insert_confirmation_message(
        &mut self,
        message_id: u16,
        message_uuid: u128,
        packet: ConfirmationPacket,
    ) -> (r: bool)
        ensures
            ({
                let ci = assoc_index(old(self)@.contexts, message_uuid);
                if ci < old(self)@.contexts.len() {
                    let cm = confirmation_from_context(
                        message_id,
                        message_uuid,
                        packet,
                        old(self)@.contexts[ci].1,
                    );
                    r && final(self)@ == (StoreView {
                        queue: old(self)@.queue.push(QueueMessageView::Confirmation(cm)),
                        ..old(self)@
                    })
                } else {
                    !r && final(self)@ == old(self)@
                }
            }),
    {
        proof {
            lemma_assoc_index(self@.contexts, message_uuid);
            lemma_assoc_index(self.messages@, message_uuid);
            lemma_assoc_remove_view(self.messages@, message_uuid);
        }
        let ci = match assoc_find_u128(&self.messages, message_uuid) {
            Some(i) => i,
            None => {
                return false;
            },
        };
        let ghost q0 = self@.queue;
        let ctx = &self.messages[ci].1;
        let msg = ConfirmationMessage {
            message_uuid,
            packet,
            message_id,
            in_progress: false,
            publisher: ctx.sender.duplicate(),
            receivers: crate::structure::duplicate_receivers(&ctx.receivers),
            started_at: ctx.started_at,
            original_qos: ctx.packet.qos,
        };
        let ghost msg_view = msg@;
        self.message_queue.push(QueueMessage::Confirmation(msg));
        proof {
            assert(self@.queue =~= q0.push(QueueMessageView::Confirmation(msg_view)));
            assert(msg_view =~= confirmation_from_context(
                message_id,
                message_uuid,
                packet,
                old(self)@.contexts[ci as int].1,
            ));
        }
        true
    }

    /// File one half of a QoS 2 release: set the arriving flag, and queue the
    /// release job exactly when both halves have now arrived.
    pub fn upsert_release_message(&mut self, message_id: u16, message_uuid: u128, is_pubrec: bool)
        ensures
            final(self)@ == store_after_upsert(old(self)@, message_id, message_uuid, is_pubrec),
    {
        proof {
            lemma_assoc_index(self@.releases, message_uuid);
        }
        let ghost s0 = self@;
        match assoc_find_u128(&self.qos2_message_release, message_uuid) {
            Some(i) => {
                let r0 = self.qos2_message_release[i].1;
                let r1 = ReleaseMessage {
                    message_id: r0.message_id,
                    message_uuid: r0.message_uuid,
                    pubrec_received: r0.pubrec_received || is_pubrec,
                    pubrel_received: r0.pubrel_received || !is_pubrec,
                };
                let ghost rel0 = self.qos2_message_release@;
                self.qos2_message_release.remove(i);
                self.qos2_message_release.insert(i, (message_uuid, r1));
                let ghost q0 = self@.queue;
                if r1.pubrec_received && r1.pubrel_received {
                    self.message_queue.push(QueueMessage::Release(r1));
                    proof {
                        assert(self@.queue =~= q0.push(QueueMessageView::Release(r1)));
                    }
                }
                proof {
                    assert(self.qos2_message_release@ =~= rel0.update(i as int, (message_uuid, r1)));
                    assert(final(self)@ =~= store_after_upsert(s0, message_id, message_uuid, is_pubrec));
                }
            },
            None => {
                self.qos2_message_release.push(
                    (
                        message_uuid,
                        ReleaseMessage {
                            message_id,
                            message_uuid,
                            pubrec_received: is_pubrec,
                            pubrel_received: !is_pubrec,
                        },
                    ),
                );
                proof {
                    assert(final(self)@ =~= store_after_upsert(s0, message_id, message_uuid, is_pubrec));
                }
            },
        }
    }

    /// Record that the publisher released the message (PUBREL arrived).
    pub fn mark_to_be_released(&mut self, message_id: u16, message_uuid: u128)
        ensures
            final(self)@ == store_after_upsert(old(self)@, message_id, message_uuid, false),
    {
        self.upsert_release_message(message_id, message_uuid, false);
    }

    /// Drop the queued PUBLISH for this identifier and file the subscriber's
    /// PUBREC half of the release pair.
    pub fn delete_qos2_message(&mut self, message_id: u16, message_uuid: u128, subscriber: WriterRef)
        ensures
            final(self)@ == store_after_upsert(
                StoreView {
                    queue: old(self)@.queue.filter(
                        |m: QueueMessageView| (!(m matches QueueMessageView::Publish(p)
                            && p.message_id == Some(message_id))),
                    ),
                    ..old(self)@
                },
                message_id,
                message_uuid,
                true,
            ),
    {
        self.drop_publish_message_id(message_id);
        self.upsert_release_message(message_id, message_uuid, true);
        let _ = subscriber;
    }

    /// Queue the PUBCOMP owed to a QoS 2 subscriber; nothing is queued
    /// without a context that names a receiver.
    pub fn insert_completion_message(&mut self, message_id: u16, message_uuid: u128) -> (r: bool)
        ensures
            ({
                let ci = assoc_index(old(self)@.contexts, message_uuid);
                if ci < old(self)@.contexts.len() && old(self)@.contexts[ci].1.receivers.len() > 0 {
                    let cm = completion_from_context(
                        message_id,
                        message_uuid,
                        old(self)@.contexts[ci].1,
                    );
                    r && final(self)@ == (StoreView {
                        queue: old(self)@.queue.push(QueueMessageView::Complete(cm)),
                        ..old(self)@
                    })
                } else {
                    !r && final(self)@ == old(self)@
                }
            }),
    {
        proof {
            lemma_assoc_index(self@.contexts, message_uuid);
            lemma_assoc_index(self.messages@, message_uuid);
            lemma_assoc_remove_view(self.messages@, message_uuid);
        }
        let ci = match assoc_find_u128(&self.messages, message_uuid) {
            Some(i) => i,
            None => {
                return false;
            },
        };
        if self.messages[ci].1.receivers.len() == 0 {
            proof {
                assert(old(self)@.contexts[ci as int].1.receivers.len() == 0);
            }
            return false;
        }
        let ghost q0 = self@.queue;
        let ctx = &self.messages[ci].1;
        let msg = CompletionMessage {
            message_uuid,
            message_id,
            in_progress: false,
            publisher: ctx.sender.duplicate(),
            receiver: ctx.receivers[0].duplicate(),
            started_at: ctx.started_at,
        };
        let ghost msg_view = msg@;
        self.message_queue.push(QueueMessage::Complete(msg));
        proof {
            assert(self@.queue =~= q0.push(QueueMessageView::Complete(msg_view)));
            assert(old(self)@.contexts[ci as int].1.receivers[0] == ctx.receivers@[0]@);
            assert(msg_view =~= completion_from_context(
                message_id,
                message_uuid,
                old(self)@.contexts[ci as int].1,
            ));
        }
        true
    }

    /// Put the PUBLISH back for a later try and drop its dead subscribers
    /// from its queue.
    pub fn retry_message_later(
        &mut self,
        msg: RetryLater,
        topic_tree: &mut TopicTree,
    ) -> (r: bool)
        ensures
            r,
            ({
                let RetryLater::Publish(uuid, inactive) = msg;
                let pi = publish_index(old(self)@.queue, uuid);
                let p = publish_fields(old(self)@.queue[pi]);
                if pi < old(self)@.queue.len() {
                    (final(self)@ == (StoreView {
                        queue: old(self)@.queue.update(
                            pi,
                            QueueMessageView::Publish(PublishMessage { in_progress: false, ..p }),
                        ),
                        ..old(self)@
                    }) && final(topic_tree)@ == crate::topic_tree::tree_after_drop(
                        old(topic_tree)@,
                        p.queue_id,
                        crate::structure::writers_view(inactive@),
                    ))
                } else {
                    final(self)@ == old(self)@ && final(topic_tree)@ == old(topic_tree)@
                }
            }),
    {
        let RetryLater::Publish(uuid, inactive) = msg;
        proof {
            lemma_publish_index(self@.queue, uuid);
        }
        let pi = match self.find_publish(uuid) {
            Some(i) => i,
            None => {
                return true;
            },
        };
        let ghost q0 = self@.queue;
        let m = match &self.message_queue[pi] {
            QueueMessage::Publish(p) => *p,
            _ => {
                return true;
            },
        };
        let updated = PublishMessage {
            message_uuid: m.message_uuid,
            message_id: m.message_id,
            queue_id: m.queue_id,
            in_progress: false,
            sent: m.sent,
        };
        self.message_queue.remove(pi);
        self.message_queue.insert(pi, QueueMessage::Publish(updated));
        proof {
            assert(self@.queue =~= q0.update(
                pi as int,
                QueueMessageView::Publish(PublishMessage { in_progress: false, ..m }),
            ));
        }
        topic_tree.drop_inactive_subs(m.queue_id, &inactive);
        true
    }
}


/// What taking a ready PUBLISH at index `i` yields and leaves behind.
pub open spec fn poll_hit_publish(
    s0: StoreView,
    qs: Seq<QueueView>,
    i: int,
    p: PublishMessage,
    r: PollResponse,
    s1: StoreView,
) -> bool {
    let p1 = PublishMessage { in_progress: true, ..p };
    let qi = queue_index_by_id(qs, p.queue_id);
    &&& (r matches PollResponse::Publish(job, ctx) && job.message == p1 && job.queue@ == qs[qi]
        && ctx@ == context_of(s0.contexts, p.message_uuid))
    &&& s1 == (StoreView { queue: s0.queue.update(i, QueueMessageView::Publish(p1)), ..s0 })
}

/// What taking a ready acknowledgement at index `i` yields and leaves behind.
pub open spec fn poll_hit_confirmation(
    s0: StoreView,
    i: int,
    c: ConfirmationMessageView,
    r: PollResponse,
    s1: StoreView,
) -> bool {
    let c1 = ConfirmationMessageView { in_progress: true, ..c };
    &&& (r matches PollResponse::Confirmation(cm, ctx) && cm@ == c1 && ctx@ == context_of(
        s0.contexts,
        c.message_uuid,
    ))
    &&& s1 == (StoreView {
        queue: s0.queue.update(i, QueueMessageView::Confirmation(c1)),
        waiting_qos1: s0.waiting_qos1.push(c.message_id),
        ..s0
    })
}

/// What taking a ready completion at index `i` yields and leaves behind.
pub open spec fn poll_hit_complete(
    s0: StoreView,
    i: int,
    c: CompletionMessageView,
    r: PollResponse,
    s1: StoreView,
) -> bool {
    let c1 = CompletionMessageView { in_progress: true, ..c };
    &&& (r matches PollResponse::Complete(cm, ctx) && cm@ == c1 && ctx@ == context_of(
        s0.contexts,
        c.message_uuid,
    ))
    &&& s1 == (StoreView {
        queue: s0.queue.update(i, QueueMessageView::Complete(c1)),
        waiting_qos2: s0.waiting_qos2.push(c.message_id),
        ..s0
    })
}

/// What taking a ready release at index `i` yields and leaves behind.
pub open spec fn poll_hit_release(
    s0: StoreView,
    i: int,
    m: ReleaseMessage,
    r: PollResponse,
    s1: StoreView,
) -> bool {
    &&& (r matches PollResponse::Release(rm, ctx) && rm == m && ctx@ == context_of(
        s0.contexts,
        m.message_uuid,
    ))
    &&& s1 == (StoreView { waiting_release_qos2: s0.waiting_release_qos2.push(m.message_id), ..s0 })
}

/// What taking the ready unit at index `i` yields and leaves behind.
pub open spec fn poll_hit(
    s0: StoreView,
    qs: Seq<QueueView>,
    i: int,
    r: PollResponse,
    s1: StoreView,
) -> bool {
    match s0.queue[i] {
        QueueMessageView::Publish(p) => poll_hit_publish(s0, qs, i, p, r, s1),
        QueueMessageView::Confirmation(c) => poll_hit_confirmation(s0, i, c, r, s1),
        QueueMessageView::Complete(c) => poll_hit_complete(s0, i, c, r, s1),
        QueueMessageView::Release(m) => poll_hit_release(s0, i, m, r, s1),
    }
}

impl MessageStore {
    /// Serve the first actionable unit of the job queue, marking it taken in
    /// the same step; with nothing actionable, report no job and change
    /// nothing.
    #[verifier::rlimit(60)]
    pub fn poll(&mut self, topic_tree: &TopicTree) -> (r: PollResponse)
        ensures
            ({
                let s0 = old(self)@;
                let qs = topic_tree@.queues;
                let i = first_ready(s0, qs, 0);
                if i == s0.queue.len() {
                    (r matches PollResponse::NoJob && final(self)@ == s0)
                } else {
                    poll_hit(s0, qs, i, r, final(self)@)
                }
            }),
    {
        let ghost s0 = self@;
        let ghost qs = topic_tree@.queues;
        proof {
            lemma_first_ready(s0, qs, 0);
        }
        let ghost target = first_ready(s0, qs, 0);
        let mut i: usize = 0;
        while i < self.message_queue.len()
            invariant
                s0 == old(self)@,
                self@ == s0,
                qs == topic_tree@.queues,
                target == first_ready(s0, qs, 0),
                0 <= target <= s0.queue.len(),
                target < s0.queue.len() ==> msg_ready(s0, qs, s0.queue[target]),
                forall|j: int| 0 <= j < target ==> !msg_ready(s0, qs, s0.queue[j]),
                0 <= i <= s0.queue.len(),
                i <= target,
            decreases s0.queue.len() - i,
        {
            proof {
                lemma_assoc_index(self@.contexts, queue_message_uuid(s0.queue[i as int]));
                lemma_assoc_remove_view(self.messages@, queue_message_uuid(s0.queue[i as int]));
            }
            match &self.message_queue[i] {
                QueueMessage::Publish(p) => {
                    let m = *p;
                    proof {
                        assert(s0.queue[i as int] == QueueMessageView::Publish(m));
                    }
                    let ci = assoc_find_u128(&self.messages, m.message_uuid);
                    let ready = !m.in_progress && !m.sent && (match ci {
                        Some(c) => self.messages[c].1.sender.process.is_some(),
                        None => false,
                    });
                    let queue_dup = if ready {
                        topic_tree.get_by_id(m.queue_id)
                    } else {
                        None
                    };
                    let ready = ready && (match &queue_dup {
                        Some(q) => q.subscribers.len() > 0,
                        None => false,
                    });
                    proof {
                        assert(ready == publish_ready(s0, qs, m));
                        assert(ready == msg_ready(s0, qs, s0.queue[i as int]));
                    }
                    if ready {
                        proof {
                            assert(i == target);
                        }
                        let ciu = match ci {
                            Some(c) => c,
                            None => {
                                return PollResponse::NoJob;
                            },
                        };
                        let queue = match queue_dup {
                            Some(q) => q,
                            None => {
                                return PollResponse::NoJob;
                            },
                        };
                        let ctx = self.messages[ciu].1.duplicate();
                        let p1 = PublishMessage {
                            message_uuid: m.message_uuid,
                            message_id: m.message_id,
                            queue_id: m.queue_id,
                            in_progress: true,
                            sent: m.sent,
                        };
                        self.message_queue.remove(i);
                        self.message_queue.insert(i, QueueMessage::Publish(p1));
                        proof {
                            assert(self@.queue =~= s0.queue.update(
                                i as int,
                                QueueMessageView::Publish(PublishMessage { in_progress: true, ..m }),
                            ));
                            assert(self@ =~= (StoreView {
                                queue: s0.queue.update(
                                    i as int,
                                    QueueMessageView::Publish(
                                        PublishMessage { in_progress: true, ..m },
                                    ),
                                ),
                                ..s0
                            }));
                        }
                        return PollResponse::Publish(PublishJob { message: p1, queue }, ctx);
                    }
                },
                QueueMessage::Confirmation(c) => {
                    let ghost cv = c@;
                    proof {
                        assert(s0.queue[i as int] == QueueMessageView::Confirmation(cv));
                    }
                    let in_progress = c.in_progress;
                    let message_id = c.message_id;
                    let publisher_live = c.publisher.process.is_some();
                    let waiting = contains_u16(&self.waiting_qos1, message_id);
                    let ci = assoc_find_u128(&self.messages, c.message_uuid);
                    let ready = !in_progress && !waiting && publisher_live && ci.is_some();
                    proof {
                        assert(ready == confirmation_ready(s0, cv));
                        assert(ready == msg_ready(s0, qs, s0.queue[i as int]));
                    }
                    if ready {
                        proof {
                            assert(i == target);
                        }
                        let ciu = match ci {
                            Some(cc) => cc,
                            None => {
                                return PollResponse::NoJob;
                            },
                        };
                        let mut c1 = c.duplicate();
                        c1.in_progress = true;
                        let response_copy = c1.duplicate();
                        let ctx = self.messages[ciu].1.duplicate();
                        self.message_queue.remove(i);
                        self.message_queue.insert(i, QueueMessage::Confirmation(c1));
                        self.waiting_qos1.push(message_id);
                        proof {
                            assert(response_copy@ =~= ConfirmationMessageView {
                                in_progress: true,
                                ..cv
                            });
                            assert(self@.queue =~= s0.queue.update(
                                i as int,
                                QueueMessageView::Confirmation(
                                    ConfirmationMessageView { in_progress: true, ..cv },
                                ),
                            ));
                            assert(self@ =~= (StoreView {
                                queue: s0.queue.update(
                                    i as int,
                                    QueueMessageView::Confirmation(
                                        ConfirmationMessageView { in_progress: true, ..cv },
                                    ),
                                ),
                                waiting_qos1: s0.waiting_qos1.push(cv.message_id),
                                ..s0
                            }));
                        }
                        return PollResponse::Confirmation(response_copy, ctx);
                    }
                },
                QueueMessage::Complete(c) => {
                    let ghost cv = c@;
                    proof {
                        assert(s0.queue[i as int] == QueueMessageView::Complete(cv));
                    }
                    let in_progress = c.in_progress;
                    let message_id = c.message_id;
                    let waiting = contains_u16(&self.waiting_qos2, message_id);
                    let ci = assoc_find_u128(&self.messages, c.message_uuid);
                    let ready = !in_progress && !waiting && ci.is_some();
                    proof {
                        assert(ready == complete_ready(s0, cv));
                        assert(ready == msg_ready(s0, qs, s0.queue[i as int]));
                    }
                    if ready {
                        proof {
                            assert(i == target);
                        }
                        let ciu = match ci {
                            Some(cc) => cc,
                            None => {
                                return PollResponse::NoJob;
                            },
                        };
                        let mut c1 = c.duplicate();
                        c1.in_progress = true;
                        let response_copy = c1.duplicate();
                        let ctx = self.messages[ciu].1.duplicate();
                        self.message_queue.remove(i);
                        self.message_queue.insert(i, QueueMessage::Complete(c1));
                        self.waiting_qos2.push(message_id);
                        proof {
                            assert(response_copy@ =~= CompletionMessageView {
                                in_progress: true,
                                ..cv
                            });
                            assert(self@.queue =~= s0.queue.update(
                                i as int,
                                QueueMessageView::Complete(
                                    CompletionMessageView { in_progress: true, ..cv },
                                ),
                            ));
                            assert(self@ =~= (StoreView {
                                queue: s0.queue.update(
                                    i as int,
                                    QueueMessageView::Complete(
                                        CompletionMessageView { in_progress: true, ..cv },
                                    ),
                                ),
                                waiting_qos2: s0.waiting_qos2.push(cv.message_id),
                                ..s0
                            }));
                        }
                        return PollResponse::Complete(response_copy, ctx);
                    }
                },
                QueueMessage::Release(m) => {
                    let rm = *m;
                    proof {
                        assert(s0.queue[i as int] == QueueMessageView::Release(rm));
                    }
                    let waiting = contains_u16(&self.waiting_release_qos2, rm.message_id);
                    let ci = assoc_find_u128(&self.messages, rm.message_uuid);
                    let ready = rm.pubrec_received && rm.pubrel_received && !waiting && ci.is_some();
                    proof {
                        assert(ready == release_ready(s0, rm));
                        assert(ready == msg_ready(s0, qs, s0.queue[i as int]));
                    }
                    if ready {
                        proof {
                            assert(i == target);
                        }
                        let ciu = match ci {
                            Some(cc) => cc,
                            None => {
                                return PollResponse::NoJob;
                            },
                        };
                        let ctx = self.messages[ciu].1.duplicate();
                        self.waiting_release_qos2.push(rm.message_id);
                        proof {
                            assert(self@ =~= (StoreView {
                                waiting_release_qos2: s0.waiting_release_qos2.push(rm.message_id),
                                ..s0
                            }));
                        }
                        return PollResponse::Release(rm, ctx);
                    }
                },
            }
            i = i + 1;
        }
        PollResponse::NoJob
    }
}


/// A delivered message is never served again: once a queued PUBLISH is
/// marked sent, no poll takes it, so a replayed log cannot double-deliver.
pub proof fn lemma_sent_publish_not_served(s: StoreView, qs: Seq<QueueView>, i: int)
    requires
        0 <= i < s.queue.len(),
        s.queue[i] matches QueueMessageView::Publish(p) && p.sent,
    ensures
        !msg_ready(s, qs, s.queue[i]),
{
}

/// An acknowledgement is served at most once: while its identifier is in the
/// wait set, no poll takes a queued acknowledgement for it, so a repeated
/// PUBACK never reaches the publisher twice.
pub proof fn lemma_waiting_confirmation_not_served(s: StoreView, qs: Seq<QueueView>, i: int)
    requires
        0 <= i < s.queue.len(),
        s.queue[i] matches QueueMessageView::Confirmation(c) && s.waiting_qos1.contains(
            c.message_id,
        ),
    ensures
        !msg_ready(s, qs, s.queue[i]),
{
}

/// Serving an acknowledgement marks its identifier as waiting in the same
/// step, so the identical acknowledgement behind it stays unserved.
pub proof fn lemma_confirmation_marks_waiting(
    s0: StoreView,
    qs: Seq<QueueView>,
    i: int,
    r: PollResponse,
    s1: StoreView,
)
    requires
        0 <= i < s0.queue.len(),
        s0.queue[i] matches QueueMessageView::Confirmation(c),
        poll_hit(s0, qs, i, r, s1),
    ensures
        s0.queue[i] matches QueueMessageView::Confirmation(c) ==> s1.waiting_qos1.contains(
            c.message_id,
        ),
{
    match s0.queue[i] {
        QueueMessageView::Confirmation(c) => {
            assert(s1.waiting_qos1 == s0.waiting_qos1.push(c.message_id));
            assert(s1.waiting_qos1[s1.waiting_qos1.len() - 1] == c.message_id);
        },
        _ => {},
    }
}


/// No silent loss for an acknowledged QoS 1 message: handling a PUBACK for a
/// message whose context is still recorded queues an acknowledgement unit
/// addressed to the original publisher; until a worker serves it, the unit
/// stays in the job queue.
pub proof fn lemma_puback_enqueued(
    s: StoreView,
    uuid: u128,
    mid: u16,
    packet: ConfirmationPacket,
)
    requires
        has_context(s.contexts, uuid),
        packet.cmd == ControlPacketType::Puback,
    ensures
        ({
            let s1 = store_after_confirm_stub(s, uuid, mid, packet);
            &&& s1.queue.len() == s.queue.len() + 1
            &&& s1.queue.last() matches QueueMessageView::Confirmation(c)
            &&& (s1.queue.last() matches QueueMessageView::Confirmation(c) ==> c.message_uuid
                == uuid && c.publisher == context_of(s.contexts, uuid).sender && !c.in_progress)
        }),
{
}

/// The store a handled PUBACK leaves behind, with the context present.
pub open spec fn store_after_confirm_stub(
    s: StoreView,
    uuid: u128,
    mid: u16,
    packet: ConfirmationPacket,
) -> StoreView {
    StoreView {
        queue: s.queue.push(
            QueueMessageView::Confirmation(
                confirmation_from_context(mid, uuid, packet, context_of(s.contexts, uuid)),
            ),
        ),
        ..s
    }
}

} // verus!
