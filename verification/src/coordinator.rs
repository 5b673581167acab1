//! The coordinator: the single owner of the topic tree, message store and
//! write-ahead log, processing one request at a time.

use vstd::prelude::*;

verus! {

use crate::structure::{
    CompletionMessage,
    ConfirmationMessage,
    PublishContext,
    PublishJob,
    PublishMessage,
    Receiver,
    ReleaseMessage,
    WriterRef,
};

/// Ask the coordinator for the next actionable job.
#[derive(Clone, Copy, Debug, PartialEq, Eq, Structural)]
pub struct Poll;

/// The next actionable job, with the publish context it belongs to.
#[derive(Debug)]
pub enum PollResponse {
    NoJob,
    Publish(PublishJob, PublishContext),
    Confirmation(ConfirmationMessage, PublishContext),
    Complete(CompletionMessage, PublishContext),
    Release(ReleaseMessage, PublishContext),
}

/// Release a message: its identity, QoS, wire identifier, the subscribers
/// found inactive, and the receivers recorded for session tracking.
#[derive(Debug)]
pub struct Release(pub u128, pub u8, pub Option<u16>, pub Vec<WriterRef>, pub Vec<Receiver>);

/// Finish a QoS 2 flow by sending PUBCOMP to the subscriber.
#[derive(Clone, Copy, Debug, PartialEq, Eq, Structural)]
pub struct Complete(pub u128, pub u16);

/// Drop every record of a finished QoS 2 message.
#[derive(Clone, Copy, Debug, PartialEq, Eq, Structural)]
pub struct Cleanup(pub u128, pub u16, pub u8);

/// Put a PUBLISH back for a later try, dropping its dead subscribers.
#[derive(Debug)]
pub enum RetryLater {
    Publish(u128, Vec<WriterRef>),
}

/// Mark a message as delivered to its receivers.
#[derive(Debug)]
pub struct Sent(pub u16, pub u128, pub u8, pub Vec<WriterRef>, pub Vec<Receiver>);


use crate::codec::ControlPacketType;
use crate::metrics::MetricsState;
use crate::packets::{ConfirmationPacket, PublishPacket, PublishPacketView, SubackPacket, SubscribePacket};
use crate::store::{
    MessageStore,
    StoreView,
    assoc_index,
    first_ready,
    lemma_assoc_index,
    poll_hit,
    publish_index,
    publish_fields,
    queue_without_uuid,
    remove_assoc_spec,
    store_after_mark_sent,
    store_after_upsert,
    confirmation_from_context,
    completion_from_context,
};
use crate::structure::{Client, WriterRefView, writers_view, QueueMessageView};
use crate::topic_tree::{
    TopicTree,
    TopicTreeView,
    queue_index_by_name,
    lemma_queue_index_by_name,
    tree_after_drop,
    tree_after_ensure,
    tree_after_subscribe,
};
use crate::wal::{Entry, EntryView, PublishEntry, PublishEntryView, AcceptedEntry, SentEntry, DeletedEntry, CompleteEntry, SessionData, entries_view};

/// Relies on uuid::Uuid::new_v4 for a freshly drawn random message identity;
/// nothing is promised of the draw. The call aborts only if the operating
/// system's random source fails, an environmental failure outside any input.
#[verifier::external_body]
fn fresh_uuid() -> u128 {
    uuid::Uuid::new_v4().as_u128()
}

/// The ghost value of a known client.
#[verifier::ext_equal]
pub ghost struct ClientView {
    pub client: Option<u64>,
    pub writer: WriterRefView,
    pub should_persist: bool,
}

impl View for Client {
    type V = ClientView;

    open spec fn view(&self) -> ClientView {
        ClientView { client: self.client, writer: self.writer@, should_persist: self.should_persist }
    }
}

/// The ghost value of the client list.
pub open spec fn clients_view(v: Seq<Client>) -> Seq<ClientView> {
    v.map_values(|c: Client| c@)
}

/// The first client entry under this identifier, or the list's length.
pub open spec fn client_index(cs: Seq<ClientView>, id: Seq<char>) -> int
    decreases cs.len(),
{
    if cs.len() == 0 {
        0
    } else if cs[0].writer.client_id == id {
        0
    } else {
        1 + client_index(cs.drop_first(), id)
    }
}

/// Where `client_index` lands.
pub proof fn lemma_client_index(cs: Seq<ClientView>, id: Seq<char>)
    ensures
        0 <= client_index(cs, id) <= cs.len(),
        client_index(cs, id) < cs.len() ==> cs[client_index(cs, id)].writer.client_id == id,
        forall|j: int| 0 <= j < client_index(cs, id) ==> cs[j].writer.client_id != id,
    decreases cs.len(),
{
    if cs.len() > 0 && cs[0].writer.client_id != id {
        lemma_client_index(cs.drop_first(), id);
        assert forall|j: int| 0 <= j < client_index(cs, id) implies cs[j].writer.client_id
            != id by {
            if j > 0 {
                assert(cs.drop_first()[j - 1] == cs[j]);
            }
        }
    }
}

/// The client list with the entry under an identifier removed, if any.
pub open spec fn remove_client_spec(cs: Seq<ClientView>, id: Seq<char>) -> Seq<ClientView> {
    if client_index(cs, id) < cs.len() {
        cs.remove(client_index(cs, id))
    } else {
        cs
    }
}

/// The store after a PUBLISH is admitted: the identifier mapped, the message
/// queued untouched and unsent, and its context filed.
pub open spec fn store_after_publish(
    s: StoreView,
    uuid: u128,
    p: PublishPacketView,
    qid: u128,
    sender: WriterRefView,
    started_at: u64,
) -> StoreView {
    let ids = match p.message_id {
        Some(id) => remove_assoc_spec(s.message_ids, id).push((id, uuid)),
        None => s.message_ids,
    };
    StoreView {
        queue: s.queue.push(
            QueueMessageView::Publish(
                crate::structure::PublishMessage {
                    message_uuid: uuid,
                    message_id: p.message_id,
                    queue_id: qid,
                    in_progress: false,
                    sent: false,
                },
            ),
        ),
        contexts: s.contexts.push(
            (
                uuid,
                crate::structure::PublishContextView {
                    packet: p,
                    receivers: Seq::empty(),
                    sender,
                    started_at,
                },
            ),
        ),
        message_ids: ids,
        ..s
    }
}

/// The log record an admitted PUBLISH writes.
pub open spec fn publish_wal_entry(
    uuid: u128,
    p: PublishPacketView,
    sender: WriterRefView,
    started_at: u64,
) -> EntryView {
    EntryView::Publish(
        PublishEntryView {
            uuid,
            received_at: started_at,
            packet: p,
            client_id: sender.client_id,
            session: SessionData {
                uuid: sender.session_id,
                is_persistent: sender.is_persistent_session,
            },
        },
    )
}

/// The coordinator's whole state: store, clients, tree, pending log records
/// and counters. The log field grows append-only; the host drains and writes
/// it behind the coordinator's back.
pub struct CoordinatorState {
    pub messages: MessageStore,
    pub clients: Vec<Client>,
    pub metrics: MetricsState,
    pub topic_tree: TopicTree,
    pub wal: Vec<Entry>,
}

impl CoordinatorState {
    /// A coordinator with no queues, clients, messages or log records.
    pub fn new() -> (r: CoordinatorState)
        ensures
            r.messages@.queue.len() == 0,
            r.messages@.contexts.len() == 0,
            r.messages@.waiting_qos1.len() == 0,
            r.messages@.waiting_qos2.len() == 0,
            r.messages@.waiting_release_qos2.len() == 0,
            r.messages@.message_ids.len() == 0,
            r.messages@.releases.len() == 0,
            clients_view(r.clients@).len() == 0,
            r.metrics.connected_clients == 0,
            r.metrics.received_packets == 0,
            r.metrics.active_queues == 0,
            r.topic_tree@.counter == 0,
            r.topic_tree@.queues.len() == 0,
            r.topic_tree@.subscriptions.len() == 0,
            r.wal@.len() == 0,
    {
        CoordinatorState {
            messages: MessageStore::new(Vec::new(), Vec::new(), Vec::new()),
            clients: Vec::new(),
            metrics: MetricsState::new(),
            topic_tree: TopicTree::new(),
            wal: Vec::new(),
        }
    }

    /// Register a connection: the client map holds exactly one entry per
    /// client identifier, the gauge rises, and every context this client
    /// published points at the new writer.
    pub fn connect(&mut self, client: Option<u64>, writer: WriterRef, should_persist: bool) -> (r:
        bool)
        ensures
            r,
            clients_view(final(self).clients@) == remove_client_spec(
                clients_view(old(self).clients@),
                writer@.client_id,
            ).push(ClientView { client, writer: writer@, should_persist }),
            final(self).metrics == (MetricsState {
                connected_clients: if old(self).metrics.connected_clients < i64::MAX {
                    (old(self).metrics.connected_clients + 1) as i64
                } else {
                    i64::MAX
                },
                ..old(self).metrics
            }),
            final(self).messages@ == (StoreView {
                contexts: old(self).messages@.contexts.map_values(
                    |p: (u128, crate::structure::PublishContextView)|
                        if p.1.sender.client_id == writer@.client_id {
                            (
                                p.0,
                                crate::structure::PublishContextView { sender: writer@, ..p.1 },
                            )
                        } else {
                            p
                        },
                ),
                ..old(self).messages@
            }),
            final(self).topic_tree@ == old(self).topic_tree@,
            final(self).wal@ == old(self).wal@,
    {
        self.remove_client(writer.client_id.as_str());
        let w = writer.duplicate();
        let ghost cs = clients_view(self.clients@);
        self.clients.push(Client { client, writer: w, should_persist });
        proof {
            assert(clients_view(self.clients@) =~= cs.push(
                ClientView { client, writer: writer@, should_persist },
            ));
        }
        self.metrics.track_connect();
        self.messages.update_message_publisher_refs(&writer);
        true
    }

    /// Remove the client entry under an identifier, if any.
    fn remove_client(&mut self, client_id: &str)
        ensures
            clients_view(final(self).clients@) == remove_client_spec(
                clients_view(old(self).clients@),
                client_id@,
            ),
            final(self).messages@ == old(self).messages@,
            final(self).metrics == old(self).metrics,
            final(self).topic_tree@ == old(self).topic_tree@,
            final(self).wal@ == old(self).wal@,
    {
        let ghost cs = clients_view(self.clients@);
        proof {
            lemma_client_index(cs, client_id@);
        }
        let ghost target = client_index(cs, client_id@);
        let mut i: usize = 0;
        while i < self.clients.len()
            invariant
                cs == clients_view(self.clients@),
                self.clients@ == old(self).clients@,
                self.messages@ == old(self).messages@,
                self.metrics == old(self).metrics,
                self.topic_tree@ == old(self).topic_tree@,
                self.wal@ == old(self).wal@,
                target == client_index(cs, client_id@),
                0 <= target <= cs.len(),
                target < cs.len() ==> cs[target].writer.client_id == client_id@,
                forall|j: int| 0 <= j < target ==> cs[j].writer.client_id != client_id@,
                0 <= i <= cs.len(),
                i <= target,
            decreases cs.len() - i,
        {
            let hit = crate::topic::str_eq(self.clients[i].writer.client_id.as_str(), client_id);
            if hit {
                proof {
                    assert(cs[i as int].writer.client_id == client_id@);
                    assert(i == target);
                }
                self.clients.remove(i);
                proof {
                    assert(clients_view(self.clients@) =~= cs.remove(target));
                }
                return ;
            }
            i = i + 1;
        }
    }

    /// Unregister a connection: the client entry leaves, the gauge falls, and
    /// this client's contexts lose their live writer handle while the
    /// messages themselves stay.
    pub fn disconnect(&mut self, client_id: &str)
        ensures
            clients_view(final(self).clients@) == remove_client_spec(
                clients_view(old(self).clients@),
                client_id@,
            ),
            final(self).metrics == (MetricsState {
                connected_clients: if old(self).metrics.connected_clients > i64::MIN {
                    (old(self).metrics.connected_clients - 1) as i64
                } else {
                    i64::MIN
                },
                ..old(self).metrics
            }),
            final(self).messages@ == (StoreView {
                contexts: old(self).messages@.contexts.map_values(
                    |p: (u128, crate::structure::PublishContextView)|
                        if p.1.sender.client_id == client_id@ {
                            (
                                p.0,
                                crate::structure::PublishContextView {
                                    sender: crate::structure::WriterRefView {
                                        process: None,
                                        ..p.1.sender
                                    },
                                    ..p.1
                                },
                            )
                        } else {
                            p
                        },
                ),
                ..old(self).messages@
            }),
            final(self).topic_tree@ == old(self).topic_tree@,
            final(self).wal@ == old(self).wal@,
    {
        self.remove_client(client_id);
        self.metrics.track_disconnect();
        self.messages.clear_publisher_process(client_id);
    }

    /// Admit a PUBLISH under a chosen message identity: map its wire
    /// identifier, log it when its QoS asks for the log, ensure its topic's
    /// queue and file the queued message with its context.
    pub fn publish_with_uuid(
        &mut self,
        message_uuid: u128,
        packet: PublishPacket,
        writer: WriterRef,
        started_at: u64,
    ) -> (r: bool)
        requires
            old(self).topic_tree.counter < u128::MAX,
        ensures
            r,
            final(self).topic_tree@ == tree_after_ensure(old(self).topic_tree@, packet@.topic),
            entries_view(final(self).wal@) == entries_view(old(self).wal@) + (if packet@.qos > 0 {
                seq![publish_wal_entry(message_uuid, packet@, writer@, started_at)]
            } else {
                Seq::empty()
            }),
            final(self).messages@ == store_after_publish(
                old(self).messages@,
                message_uuid,
                packet@,
                final(self).topic_tree@.queues[queue_index_by_name(
                    final(self).topic_tree@.queues,
                    packet@.topic,
                )].id,
                writer@,
                started_at,
            ),
            clients_view(final(self).clients@) == clients_view(old(self).clients@),
            final(self).metrics == old(self).metrics,
    {
        let ghost w0 = entries_view(self.wal@);
        if packet.qos > 0 {
            let entry = Entry::Publish(
                PublishEntry {
                    uuid: message_uuid,
                    received_at: started_at,
                    packet: packet.duplicate(),
                    client_id: writer.client_id.clone(),
                    session: SessionData {
                        uuid: writer.session_id,
                        is_persistent: writer.is_persistent_session,
                    },
                },
            );
            let ghost ev = entry@;
            self.wal.push(entry);
            proof {
                assert(ev =~= publish_wal_entry(message_uuid, packet@, writer@, started_at));
                assert(entries_view(self.wal@) =~= w0.push(ev));
                assert(entries_view(self.wal@) =~= w0 + seq![
                    publish_wal_entry(message_uuid, packet@, writer@, started_at),
                ]);
            }
        } else {
            proof {
                assert(entries_view(self.wal@) =~= w0 + Seq::<EntryView>::empty());
            }
        }
        let queue = self.topic_tree.get_by_name(packet.topic.as_str());
        let message_id = packet.message_id;
        self.messages.register_message_id(message_id, message_uuid);
        self.messages.insert_publish_message(message_uuid, packet, queue.id, writer, started_at);
        proof {
            assert(final(self).messages@ =~= store_after_publish(
                old(self).messages@,
                message_uuid,
                packet@,
                queue@.id,
                writer@,
                started_at,
            ));
        }
        true
    }

    /// Admit a PUBLISH under a freshly drawn message identity.
    pub fn publish(&mut self, packet: PublishPacket, writer: WriterRef, started_at: u64) -> (r:
        bool)
        requires
            old(self).topic_tree.counter < u128::MAX,
        ensures
            r,
            exists|uuid: u128|
                {
                    &&& final(self).topic_tree@ == tree_after_ensure(
                        old(self).topic_tree@,
                        packet@.topic,
                    )
                    &&& entries_view(final(self).wal@) == entries_view(old(self).wal@) + (if packet@.qos
                        > 0 {
                        seq![#[trigger] publish_wal_entry(uuid, packet@, writer@, started_at)]
                    } else {
                        Seq::empty()
                    })
                    &&& final(self).messages@ == store_after_publish(
                        old(self).messages@,
                        uuid,
                        packet@,
                        final(self).topic_tree@.queues[queue_index_by_name(
                            final(self).topic_tree@.queues,
                            packet@.topic,
                        )].id,
                        writer@,
                        started_at,
                    )
                },
            clients_view(final(self).clients@) == clients_view(old(self).clients@),
            final(self).metrics == old(self).metrics,
    {
        let uuid = fresh_uuid();
        self.publish_with_uuid(uuid, packet, writer, started_at)
    }

    /// Answer a SUBSCRIBE: record every requested filter, join the queues
    /// each filter selects, and grant each requested QoS.
    pub fn subscribe(&mut self, packet: SubscribePacket, writer: WriterRef) -> (r: SubackPacket)
        requires
            old(self).topic_tree.counter + packet.subscriptions@.len() <= u128::MAX,
        ensures
            final(self).topic_tree@ == tree_after_subscribe_all(
                old(self).topic_tree@,
                packet@.subscriptions,
                writer@,
            ),
            r@.message_id == packet@.message_id,
            r@.granted == packet@.subscriptions.map_values(|s: (Seq<char>, u8)| s.1),
            r@.reason_code == 0,
            final(self).messages@ == old(self).messages@,
            clients_view(final(self).clients@) == clients_view(old(self).clients@),
            final(self).metrics == old(self).metrics,
            final(self).wal@ == old(self).wal@,
    {
        let ghost t0 = self.topic_tree@;
        let ghost subs = packet@.subscriptions;
        let mut granted: Vec<u8> = Vec::new();
        let mut i: usize = 0;
        proof {
            assert(subs.subrange(0, 0) =~= Seq::<(Seq<char>, u8)>::empty());
            lemma_subscribe_all_counter(t0, subs, writer@);
        }
        while i < packet.subscriptions.len()
            invariant
                t0 == old(self).topic_tree@,
                subs == packet@.subscriptions,
                t0.counter + subs.len() <= u128::MAX,
                0 <= i <= subs.len(),
                self.topic_tree@ == tree_after_subscribe_all(t0, subs.subrange(0, i as int), writer@),
                self.topic_tree@.counter <= t0.counter + i,
                granted@ == subs.subrange(0, i as int).map_values(|s: (Seq<char>, u8)| s.1),
                self.messages@ == old(self).messages@,
                self.clients@ == old(self).clients@,
                self.metrics == old(self).metrics,
                self.wal@ == old(self).wal@,
            decreases subs.len() - i,
        {
            let ghost tree_before = self.topic_tree@;
            let topic = packet.subscriptions[i].topic.clone();
            let qos = packet.subscriptions[i].qos;
            proof {
                assert(subs[i as int] == (packet.subscriptions@[i as int].topic@, packet.subscriptions@[i as int].qos));
            }
            self.topic_tree.add_subscriptions(topic, writer.duplicate());
            granted.push(qos);
            proof {
                lemma_tree_after_subscribe_counter(tree_before, subs[i as int].0, writer@);
                lemma_subscribe_all_snoc(t0, subs.subrange(0, i as int), subs[i as int], writer@);
                assert(subs.subrange(0, i + 1) =~= subs.subrange(0, i as int).push(subs[i as int]));
                assert(granted@ =~= subs.subrange(0, i + 1).map_values(|s: (Seq<char>, u8)| s.1));
            }
            i = i + 1;
        }
        proof {
            assert(subs.subrange(0, subs.len() as int) =~= subs);
        }
        SubackPacket { message_id: packet.message_id, granted, reason_code: 0 }
    }
}

/// The tree after every filter of a subscription list is recorded in turn.
pub open spec fn tree_after_subscribe_all(
    t: TopicTreeView,
    subs: Seq<(Seq<char>, u8)>,
    w: WriterRefView,
) -> TopicTreeView
    decreases subs.len(),
{
    if subs.len() == 0 {
        t
    } else {
        tree_after_subscribe_all(tree_after_subscribe(t, subs[0].0, w), subs.drop_first(), w)
    }
}

/// One subscription raises the queue counter by at most one.
pub proof fn lemma_tree_after_subscribe_counter(t: TopicTreeView, filter: Seq<char>, w: WriterRefView)
    ensures
        tree_after_subscribe(t, filter, w).counter <= t.counter + 1,
{
}

/// Folding one more subscription on the right.
pub proof fn lemma_subscribe_all_snoc(
    t: TopicTreeView,
    subs: Seq<(Seq<char>, u8)>,
    x: (Seq<char>, u8),
    w: WriterRefView,
)
    ensures
        tree_after_subscribe_all(t, subs.push(x), w) == tree_after_subscribe(
            tree_after_subscribe_all(t, subs, w),
            x.0,
            w,
        ),
    decreases subs.len(),
{
    if subs.len() == 0 {
        assert(subs.push(x)[0] == x);
        assert(subs.push(x).drop_first() =~= Seq::<(Seq<char>, u8)>::empty());
        assert(tree_after_subscribe_all(t, subs.push(x), w) == tree_after_subscribe_all(
            tree_after_subscribe(t, x.0, w),
            Seq::<(Seq<char>, u8)>::empty(),
            w,
        ));
        assert(tree_after_subscribe_all(t, subs, w) == t);
    } else {
        assert(subs.push(x)[0] == subs[0]);
        assert(subs.push(x).drop_first() =~= subs.drop_first().push(x));
        lemma_subscribe_all_snoc(tree_after_subscribe(t, subs[0].0, w), subs.drop_first(), x, w);
        assert(tree_after_subscribe_all(t, subs.push(x), w) == tree_after_subscribe_all(
            tree_after_subscribe(t, subs[0].0, w),
            subs.drop_first().push(x),
            w,
        ));
        assert(tree_after_subscribe_all(t, subs, w) == tree_after_subscribe_all(
            tree_after_subscribe(t, subs[0].0, w),
            subs.drop_first(),
            w,
        ));
    }
}

/// Folding a subscription list raises the counter by at most its length.
pub proof fn lemma_subscribe_all_counter(t: TopicTreeView, subs: Seq<(Seq<char>, u8)>, w: WriterRefView)
    ensures
        tree_after_subscribe_all(t, subs, w).counter <= t.counter + subs.len(),
    decreases subs.len(),
{
    if subs.len() > 0 {
        lemma_tree_after_subscribe_counter(t, subs[0].0, w);
        lemma_subscribe_all_counter(tree_after_subscribe(t, subs[0].0, w), subs.drop_first(), w);
    }
}


/// The log record an acknowledgement writes.
pub open spec fn accepted_entry(uuid: u128, now: u64, cmd: ControlPacketType, mid: u16) -> EntryView {
    EntryView::Accepted(AcceptedEntry { uuid, accepted_at: now, cmd, message_id: mid })
}

/// The log record a broker-side deletion writes.
pub open spec fn deleted_entry(uuid: u128, now: u64) -> EntryView {
    EntryView::Deleted(DeletedEntry { uuid, deleted_at: now })
}

/// The log record a finished flow writes.
pub open spec fn completed_entry(uuid: u128, now: u64) -> EntryView {
    EntryView::Completed(CompleteEntry { uuid, completed_at: now })
}

/// The log record a delivery writes.
pub open spec fn sent_entry(uuid: u128, now: u64) -> EntryView {
    EntryView::Sent(SentEntry { uuid, sent_at: now })
}

/// The log records one acknowledgement packet appends.
pub open spec fn confirm_wal_delta(
    cmd: ControlPacketType,
    uuid: u128,
    mid: u16,
    now: u64,
) -> Seq<EntryView> {
    if cmd == ControlPacketType::Puback {
        seq![accepted_entry(uuid, now, ControlPacketType::Puback, mid)]
    } else if cmd == ControlPacketType::Pubrel {
        seq![accepted_entry(uuid, now, ControlPacketType::Pubrel, mid)]
    } else if cmd == ControlPacketType::Pubrec {
        seq![deleted_entry(uuid, now)]
    } else if cmd == ControlPacketType::Pubcomp {
        seq![completed_entry(uuid, now)]
    } else {
        Seq::empty()
    }
}

/// The store after one acknowledgement packet is handled.
pub open spec fn store_after_confirm(
    s: StoreView,
    cmd: ControlPacketType,
    uuid: u128,
    mid: u16,
    packet: ConfirmationPacket,
) -> StoreView {
    if cmd == ControlPacketType::Puback {
        if assoc_index(s.contexts, uuid) < s.contexts.len() {
            StoreView {
                queue: s.queue.push(
                    QueueMessageView::Confirmation(
                        confirmation_from_context(
                            mid,
                            uuid,
                            packet,
                            s.contexts[assoc_index(s.contexts, uuid)].1,
                        ),
                    ),
                ),
                ..s
            }
        } else {
            s
        }
    } else if cmd == ControlPacketType::Pubrel {
        store_after_upsert(s, mid, uuid, false)
    } else if cmd == ControlPacketType::Pubrec {
        store_after_upsert(
            StoreView { queue: drop_publish_by_id(s.queue, mid), ..s },
            mid,
            uuid,
            true,
        )
    } else if cmd == ControlPacketType::Pubcomp {
        StoreView { queue: queue_without_uuid(s.queue, uuid), ..s }
    } else {
        StoreView { queue: drop_publish_by_id(s.queue, mid), ..s }
    }
}

/// A job queue without the queued PUBLISH under a wire identifier.
pub open spec fn drop_publish_by_id(q: Seq<QueueMessageView>, mid: u16) -> Seq<QueueMessageView> {
    q.filter(
        |m: QueueMessageView|
            (!(m matches QueueMessageView::Publish(p) && p.message_id == Some(mid))),
    )
}

/// Whether an acknowledgement packet reports success.
pub open spec fn confirm_ok(s: StoreView, cmd: ControlPacketType, uuid: u128) -> bool {
    if cmd == ControlPacketType::Puback {
        assoc_index(s.contexts, uuid) < s.contexts.len()
    } else {
        true
    }
}

impl CoordinatorState {
    /// Handle an acknowledgement: log it by kind, advance the QoS flow it
    /// belongs to, and report failure only on an unknown wire identifier or
    /// a PUBACK whose message left the store.
    pub fn confirm(&mut self, packet: ConfirmationPacket, subscriber: WriterRef, now: u64) -> (r:
        bool)
        ensures
            final(self).topic_tree@ == old(self).topic_tree@,
            clients_view(final(self).clients@) == clients_view(old(self).clients@),
            final(self).metrics == old(self).metrics,
            ({
                let ids = old(self).messages@.message_ids;
                let ui = assoc_index(ids, packet.message_id);
                if ui >= ids.len() {
                    (!r && final(self).messages@ == old(self).messages@ && final(self).wal@ == old(
                        self,
                    ).wal@)
                } else {
                    let uuid = ids[ui].1;
                    &&& r == confirm_ok(old(self).messages@, packet.cmd, uuid)
                    &&& final(self).messages@ == store_after_confirm(
                        old(self).messages@,
                        packet.cmd,
                        uuid,
                        packet.message_id,
                        packet,
                    )
                    &&& entries_view(final(self).wal@) == entries_view(old(self).wal@)
                        + confirm_wal_delta(packet.cmd, uuid, packet.message_id, now)
                }
            }),
    {
        let message_id = packet.message_id;
        let uuid = match self.messages.lookup_uuid(message_id) {
            Some(u) => u,
            None => {
                return false;
            },
        };
        let ghost w0 = entries_view(self.wal@);
        if packet.cmd == ControlPacketType::Puback {
            self.wal.push(
                Entry::Accepted(
                    AcceptedEntry {
                        uuid,
                        accepted_at: now,
                        cmd: ControlPacketType::Puback,
                        message_id,
                    },
                ),
            );
            proof {
                assert(entries_view(self.wal@) =~= w0 + confirm_wal_delta(
                    packet.cmd,
                    uuid,
                    message_id,
                    now,
                ));
            }
            self.messages.insert_confirmation_message(message_id, uuid, packet)
        } else if packet.cmd == ControlPacketType::Pubrel {
            self.wal.push(
                Entry::Accepted(
                    AcceptedEntry {
                        uuid,
                        accepted_at: now,
                        cmd: ControlPacketType::Pubrel,
                        message_id,
                    },
                ),
            );
            proof {
                assert(entries_view(self.wal@) =~= w0 + confirm_wal_delta(
                    packet.cmd,
                    uuid,
                    message_id,
                    now,
                ));
            }
            self.messages.mark_to_be_released(message_id, uuid);
            true
        } else if packet.cmd == ControlPacketType::Pubrec {
            self.wal.push(Entry::Deleted(DeletedEntry { uuid, deleted_at: now }));
            proof {
                assert(entries_view(self.wal@) =~= w0 + confirm_wal_delta(
                    packet.cmd,
                    uuid,
                    message_id,
                    now,
                ));
            }
            self.messages.delete_qos2_message(message_id, uuid, subscriber);
            true
        } else if packet.cmd == ControlPacketType::Pubcomp {
            self.wal.push(Entry::Completed(CompleteEntry { uuid, completed_at: now }));
            proof {
                assert(entries_view(self.wal@) =~= w0 + confirm_wal_delta(
                    packet.cmd,
                    uuid,
                    message_id,
                    now,
                ));
            }
            self.messages.drop_messages_by_uuid(uuid);
            true
        } else {
            proof {
                assert(entries_view(self.wal@) =~= w0 + confirm_wal_delta(
                    packet.cmd,
                    uuid,
                    message_id,
                    now,
                ));
            }
            self.messages.drop_publish_message_id(message_id);
            true
        }
    }

    /// Serve the next actionable job, marking it taken in the same step.
    pub fn poll_job(&mut self) -> (r: PollResponse)
        ensures
            final(self).topic_tree@ == old(self).topic_tree@,
            clients_view(final(self).clients@) == clients_view(old(self).clients@),
            final(self).metrics == old(self).metrics,
            final(self).wal@ == old(self).wal@,
            ({
                let s0 = old(self).messages@;
                let qs = old(self).topic_tree@.queues;
                let i = first_ready(s0, qs, 0);
                if i == s0.queue.len() {
                    (r matches PollResponse::NoJob && final(self).messages@ == s0)
                } else {
                    poll_hit(s0, qs, i, r, final(self).messages@)
                }
            }),
    {
        self.messages.poll(&self.topic_tree)
    }

    /// Release a message: log what its QoS owes the log, drop the inactive
    /// subscribers from its queue, and drop every queued unit it still has.
    pub fn release_message(&mut self, release: Release, now: u64) -> (r: bool)
        ensures
            r,
            clients_view(final(self).clients@) == clients_view(old(self).clients@),
            final(self).metrics == old(self).metrics,
            ({
                let Release(uuid, qos, mid, inactive, receivers) = release;
                let s0 = old(self).messages@;
                let pi = publish_index(s0.queue, uuid);
                &&& entries_view(final(self).wal@) == entries_view(old(self).wal@) + (if qos == 1 {
                    seq![deleted_entry(uuid, now), completed_entry(uuid, now)]
                } else if qos == 2 {
                    seq![completed_entry(uuid, now)]
                } else {
                    Seq::empty()
                })
                &&& final(self).topic_tree@ == (if pi < s0.queue.len() {
                    tree_after_drop(
                        old(self).topic_tree@,
                        publish_fields(s0.queue[pi]).queue_id,
                        writers_view(inactive@),
                    )
                } else {
                    old(self).topic_tree@
                })
                &&& final(self).messages@ == (StoreView {
                    queue: queue_without_uuid(s0.queue, uuid),
                    ..s0
                })
            }),
    {
        let Release(uuid, qos, mid, inactive, receivers) = release;
        let ghost w0 = entries_view(self.wal@);
        if qos == 1 {
            self.wal.push(Entry::Deleted(DeletedEntry { uuid, deleted_at: now }));
            self.wal.push(Entry::Completed(CompleteEntry { uuid, completed_at: now }));
            proof {
                assert(entries_view(self.wal@) =~= w0 + seq![
                    deleted_entry(uuid, now),
                    completed_entry(uuid, now),
                ]);
            }
        } else if qos == 2 {
            self.wal.push(Entry::Completed(CompleteEntry { uuid, completed_at: now }));
            proof {
                assert(entries_view(self.wal@) =~= w0 + seq![completed_entry(uuid, now)]);
            }
        } else {
            proof {
                assert(entries_view(self.wal@) =~= w0 + Seq::<EntryView>::empty());
            }
        }
        match self.messages.get_queue_id(uuid) {
            Some(qid) => {
                self.topic_tree.drop_inactive_subs(qid, &inactive);
            },
            None => {},
        }
        self.messages.drop_messages_by_uuid(uuid);
        let _ = mid;
        let _ = receivers;
        true
    }

    /// Queue the PUBCOMP a finished QoS 2 subscriber flow owes; nothing is
    /// queued without a context that names a receiver.
    pub fn complete_message(&mut self, complete: Complete) -> (r: bool)
        ensures
            final(self).topic_tree@ == old(self).topic_tree@,
            clients_view(final(self).clients@) == clients_view(old(self).clients@),
            final(self).metrics == old(self).metrics,
            final(self).wal@ == old(self).wal@,
            ({
                let Complete(uuid, mid) = complete;
                let s0 = old(self).messages@;
                let ci = assoc_index(s0.contexts, uuid);
                if ci < s0.contexts.len() && s0.contexts[ci].1.receivers.len() > 0 {
                    (r && final(self).messages@ == (StoreView {
                        queue: s0.queue.push(
                            QueueMessageView::Complete(
                                completion_from_context(mid, uuid, s0.contexts[ci].1),
                            ),
                        ),
                        ..s0
                    }))
                } else {
                    !r && final(self).messages@ == s0
                }
            }),
    {
        let Complete(uuid, mid) = complete;
        self.messages.insert_completion_message(mid, uuid)
    }

    /// Drop every record of a finished message.
    pub fn cleanup(&mut self, cleanup: Cleanup) -> (r: bool)
        ensures
            r,
            final(self).topic_tree@ == old(self).topic_tree@,
            clients_view(final(self).clients@) == clients_view(old(self).clients@),
            final(self).metrics == old(self).metrics,
            final(self).wal@ == old(self).wal@,
            ({
                let Cleanup(uuid, mid, qos) = cleanup;
                let s0 = old(self).messages@;
                &&& final(self).messages@.queue == queue_without_uuid(s0.queue, uuid)
                &&& final(self).messages@.message_ids == remove_assoc_spec(s0.message_ids, mid)
                &&& final(self).messages@.releases == remove_assoc_spec(s0.releases, uuid)
                &&& final(self).messages@.contexts == remove_assoc_spec(s0.contexts, uuid)
            }),
    {
        let Cleanup(uuid, mid, qos) = cleanup;
        self.messages.cleanup_message(uuid, mid, qos);
        true
    }

    /// Put a PUBLISH back for a later try, dropping its dead subscribers.
    pub fn retry_message_later(&mut self, msg: RetryLater) -> (r: bool)
        ensures
            r,
            clients_view(final(self).clients@) == clients_view(old(self).clients@),
            final(self).metrics == old(self).metrics,
            final(self).wal@ == old(self).wal@,
            ({
                let RetryLater::Publish(uuid, inactive) = msg;
                let s0 = old(self).messages@;
                let pi = publish_index(s0.queue, uuid);
                let p = publish_fields(s0.queue[pi]);
                if pi < s0.queue.len() {
                    (final(self).messages@ == (StoreView {
                        queue: s0.queue.update(
                            pi,
                            QueueMessageView::Publish(
                                crate::structure::PublishMessage { in_progress: false, ..p },
                            ),
                        ),
                        ..s0
                    }) && final(self).topic_tree@ == tree_after_drop(
                        old(self).topic_tree@,
                        p.queue_id,
                        writers_view(inactive@),
                    ))
                } else {
                    (final(self).messages@ == s0 && final(self).topic_tree@ == old(
                        self,
                    ).topic_tree@)
                }
            }),
    {
        self.messages.retry_message_later(msg, &mut self.topic_tree)
    }

    /// Record a delivery: log it, mark the message sent with its receivers,
    /// drop the dead subscribers, and for QoS 2 queue the PUBREC owed to the
    /// publisher.
    pub fn mark_sent(&mut self, sent: Sent, now: u64) -> (r: bool)
        ensures
            clients_view(final(self).clients@) == clients_view(old(self).clients@),
            final(self).metrics == old(self).metrics,
            ({
                let Sent(mid, uuid, qos, inactive, receivers) = sent;
                let s0 = old(self).messages@;
                let pi = publish_index(s0.queue, uuid);
                let ci = assoc_index(s0.contexts, uuid);
                &&& entries_view(final(self).wal@) == entries_view(old(self).wal@) + seq![
                    sent_entry(uuid, now),
                ]
                &&& (if pi < s0.queue.len() && ci < s0.contexts.len() {
                    let s1 = store_after_mark_sent(
                        s0,
                        uuid,
                        crate::structure::receivers_view(receivers@),
                    );
                    &&& r
                    &&& final(self).topic_tree@ == tree_after_drop(
                        old(self).topic_tree@,
                        publish_fields(s0.queue[pi]).queue_id,
                        writers_view(inactive@),
                    )
                    &&& final(self).messages@ == (if qos == 2 {
                        StoreView {
                            queue: s1.queue.push(
                                QueueMessageView::Confirmation(
                                    confirmation_from_context(
                                        mid,
                                        uuid,
                                        ConfirmationPacket {
                                            cmd: ControlPacketType::Pubrec,
                                            message_id: mid,
                                        },
                                        s1.contexts[assoc_index(s1.contexts, uuid)].1,
                                    ),
                                ),
                            ),
                            ..s1
                        }
                    } else {
                        s1
                    })
                } else if ci < s0.contexts.len() {
                    // The queued PUBLISH is already gone (a racing PUBREC can
                    // drop it), but the receivers are still filed.
                    (!r && final(self).messages@ == store_after_mark_sent(
                        s0,
                        uuid,
                        crate::structure::receivers_view(receivers@),
                    ) && final(self).topic_tree@ == old(self).topic_tree@)
                } else {
                    (!r && final(self).messages@ == s0 && final(self).topic_tree@ == old(
                        self,
                    ).topic_tree@)
                })
            }),
    {
        let Sent(mid, uuid, qos, inactive, receivers) = sent;
        let ghost w0 = entries_view(self.wal@);
        self.wal.push(Entry::Sent(SentEntry { uuid, sent_at: now }));
        proof {
            assert(entries_view(self.wal@) =~= w0 + seq![sent_entry(uuid, now)]);
        }
        let qid = match self.messages.mark_sent(uuid, &receivers) {
            Some(q) => q,
            None => {
                return false;
            },
        };
        self.topic_tree.drop_inactive_subs(qid, &inactive);
        if qos == 2 {
            let pubrec = ConfirmationPacket { cmd: ControlPacketType::Pubrec, message_id: mid };
            proof {
                let s0 = old(self).messages@;
                let ci = assoc_index(s0.contexts, uuid);
                let s1 = store_after_mark_sent(
                    s0,
                    uuid,
                    crate::structure::receivers_view(receivers@),
                );
                lemma_assoc_index(s0.contexts, uuid);
                assert(s1.contexts =~= s0.contexts.update(
                    ci,
                    (uuid, s1.contexts[ci].1),
                ));
                lemma_assoc_update_same_key(s0.contexts, ci, s1.contexts[ci].1);
                assert(assoc_index(s1.contexts, uuid) == ci);
            }
            self.messages.insert_confirmation_message(mid, uuid, pubrec);
        }
        true
    }
}

/// Updating an entry in place keeps every key where it was.
pub proof fn lemma_assoc_update_same_key(
    s: Seq<(u128, crate::structure::PublishContextView)>,
    i: int,
    v: crate::structure::PublishContextView,
)
    requires
        0 <= i < s.len(),
    ensures
        assoc_index(s.update(i, (s[i].0, v)), s[i].0) == assoc_index(s, s[i].0),
    decreases s.len(),
{
    let k = s[i].0;
    let s2 = s.update(i, (k, v));
    lemma_assoc_index(s, k);
    lemma_assoc_index(s2, k);
    let a = assoc_index(s, k);
    let b = assoc_index(s2, k);
    assert(a <= i);
    assert(s2[a].0 == s[a].0);
    if b < a {
        assert(s[b].0 == s2[b].0);
        assert(s2[b].0 != k || b >= a);
        assert(false);
    }
    if a < b {
        assert(s2[a].0 == k);
        assert(false);
    }
}


/// The writer handle a recovered PUBLISH gets: its recorded identity with no
/// live connection yet.
pub open spec fn recovered_writer(p: PublishEntryView) -> WriterRefView {
    WriterRefView {
        process: None,
        client_id: p.client_id,
        session_id: p.session.uuid,
        is_persistent_session: p.session.is_persistent,
    }
}

/// Replaying one log record over the tree and store.
pub open spec fn replay_step(t: TopicTreeView, s: StoreView, e: EntryView) -> (
    TopicTreeView,
    StoreView,
) {
    match e {
        EntryView::Publish(p) => {
            let t1 = tree_after_ensure(t, p.packet.topic);
            let qid = t1.queues[queue_index_by_name(t1.queues, p.packet.topic)].id;
            (
                t1,
                store_after_publish(s, p.uuid, p.packet, qid, recovered_writer(p), p.received_at),
            )
        },
        EntryView::Sent(e2) => {
            if assoc_index(s.contexts, e2.uuid) < s.contexts.len() {
                (t, store_after_mark_sent(s, e2.uuid, Seq::empty()))
            } else {
                (t, s)
            }
        },
        EntryView::Completed(c) => (
            t,
            StoreView {
                queue: queue_without_uuid(s.queue, c.uuid),
                contexts: remove_assoc_spec(s.contexts, c.uuid),
                ..s
            },
        ),
        _ => (t, s),
    }
}

/// Replaying a whole log in order.
pub open spec fn replay(t: TopicTreeView, s: StoreView, es: Seq<EntryView>) -> (
    TopicTreeView,
    StoreView,
)
    decreases es.len(),
{
    if es.len() == 0 {
        (t, s)
    } else {
        let n = replay_step(t, s, es[0]);
        replay(n.0, n.1, es.drop_first())
    }
}

/// Replaying one more record on the right.
pub proof fn lemma_replay_snoc(t: TopicTreeView, s: StoreView, es: Seq<EntryView>, x: EntryView)
    ensures
        replay(t, s, es.push(x)) == replay_step(
            replay(t, s, es).0,
            replay(t, s, es).1,
            x,
        ),
    decreases es.len(),
{
    if es.len() == 0 {
        assert(es.push(x)[0] == x);
        assert(es.push(x).drop_first() =~= Seq::<EntryView>::empty());
        let n = replay_step(t, s, x);
        assert(replay(t, s, es.push(x)) == replay(n.0, n.1, Seq::<EntryView>::empty()));
        assert(replay(t, s, es) == (t, s));
    } else {
        assert(es.push(x)[0] == es[0]);
        assert(es.push(x).drop_first() =~= es.drop_first().push(x));
        let n = replay_step(t, s, es[0]);
        lemma_replay_snoc(n.0, n.1, es.drop_first(), x);
        assert(replay(t, s, es.push(x)) == replay(n.0, n.1, es.drop_first().push(x)));
        assert(replay(t, s, es) == replay(n.0, n.1, es.drop_first()));
    }
}

/// One replay step raises the queue counter by at most one.
pub proof fn lemma_replay_step_counter(t: TopicTreeView, s: StoreView, e: EntryView)
    ensures
        replay_step(t, s, e).0.counter <= t.counter + 1,
{
}

impl CoordinatorState {
    /// Rebuild the coordinator from a log read at boot: every logged PUBLISH
    /// returns with its context and no live writer, deliveries are marked
    /// sent again, and completed messages leave. The pending-log field starts
    /// empty: the host begins a fresh log after replay.
    pub fn recover(entries: &Vec<Entry>) -> (r: CoordinatorState)
        ensures
            ({
                let end = replay(
                    CoordinatorState::empty_tree(),
                    CoordinatorState::empty_store(),
                    entries_view(entries@),
                );
                r.topic_tree@ == end.0 && r.messages@ == end.1
            }),
            clients_view(r.clients@).len() == 0,
            r.wal@.len() == 0,
            r.metrics.connected_clients == 0,
            r.metrics.received_packets == 0,
            r.metrics.active_queues == 0,
    {
        let mut state = CoordinatorState::new();
        let ghost t0 = CoordinatorState::empty_tree();
        let ghost s0 = CoordinatorState::empty_store();
        proof {
            assert(state.topic_tree@ =~= t0);
            assert(state.messages@ =~= s0);
            assert(entries_view(entries@).subrange(0, 0) =~= Seq::<EntryView>::empty());
        }
        let ghost es = entries_view(entries@);
        let mut i: usize = 0;
        while i < entries.len()
            invariant
                es == entries_view(entries@),
                0 <= i <= es.len(),
                (state.topic_tree@, state.messages@) == replay(t0, s0, es.subrange(0, i as int)),
                state.topic_tree@.counter <= i,
                clients_view(state.clients@).len() == 0,
                state.wal@.len() == 0,
                state.metrics.connected_clients == 0,
                state.metrics.received_packets == 0,
                state.metrics.active_queues == 0,
            decreases es.len() - i,
        {
            let ghost tree_pre = state.topic_tree@;
            let ghost store_pre = state.messages@;
            proof {
                assert(es[i as int] == entries@[i as int]@);
                lemma_replay_step_counter(tree_pre, store_pre, es[i as int]);
            }
            match &entries[i] {
                Entry::Publish(p) => {
                    let queue = state.topic_tree.get_by_name(p.packet.topic.as_str());
                    let writer = WriterRef {
                        process: None,
                        client_id: p.client_id.clone(),
                        session_id: p.session.uuid,
                        is_persistent_session: p.session.is_persistent,
                    };
                    state.messages.register_message_id(p.packet.message_id, p.uuid);
                    state.messages.insert_publish_message(
                        p.uuid,
                        p.packet.duplicate(),
                        queue.id,
                        writer,
                        p.received_at,
                    );
                    proof {
                        assert(state.messages@ =~= store_after_publish(
                            store_pre,
                            p.uuid,
                            p.packet@,
                            queue@.id,
                            recovered_writer(p@),
                            p.received_at,
                        ));
                        assert((state.topic_tree@, state.messages@) == replay_step(
                            tree_pre,
                            store_pre,
                            es[i as int],
                        ));
                    }
                },
                Entry::Sent(e2) => {
                    let empty_recv: Vec<Receiver> = Vec::new();
                    proof {
                        assert(crate::structure::receivers_view(empty_recv@) =~= Seq::<
                            crate::structure::ReceiverView,
                        >::empty());
                    }
                    let _ = state.messages.mark_sent(e2.uuid, &empty_recv);
                    proof {
                        assert((state.topic_tree@, state.messages@) == replay_step(
                            tree_pre,
                            store_pre,
                            es[i as int],
                        ));
                    }
                },
                Entry::Completed(c) => {
                    state.messages.drop_messages_by_uuid(c.uuid);
                    state.messages.remove_context(c.uuid);
                    proof {
                        assert((state.topic_tree@, state.messages@) == replay_step(
                            tree_pre,
                            store_pre,
                            es[i as int],
                        ));
                    }
                },
                Entry::Accepted(_) => {
                    proof {
                        assert((state.topic_tree@, state.messages@) == replay_step(
                            tree_pre,
                            store_pre,
                            es[i as int],
                        ));
                    }
                },
                Entry::Deleted(_) => {
                    proof {
                        assert((state.topic_tree@, state.messages@) == replay_step(
                            tree_pre,
                            store_pre,
                            es[i as int],
                        ));
                    }
                },
            }
            proof {
                lemma_replay_snoc(t0, s0, es.subrange(0, i as int), es[i as int]);
                assert(es.subrange(0, i + 1) =~= es.subrange(0, i as int).push(es[i as int]));
            }
            i = i + 1;
        }
        proof {
            assert(es.subrange(0, es.len() as int) =~= es);
        }
        state
    }

    /// The tree a fresh coordinator starts from.
    pub open spec fn empty_tree() -> TopicTreeView {
        TopicTreeView { counter: 0, queues: Seq::empty(), subscriptions: Seq::empty() }
    }

    /// The store a fresh coordinator starts from.
    pub open spec fn empty_store() -> StoreView {
        StoreView {
            queue: Seq::empty(),
            contexts: Seq::empty(),
            waiting_qos1: Seq::empty(),
            waiting_qos2: Seq::empty(),
            waiting_release_qos2: Seq::empty(),
            message_ids: Seq::empty(),
            releases: Seq::empty(),
        }
    }
}

} // verus!
