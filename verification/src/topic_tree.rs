//! The topic tree: one queue per concrete topic name, a stable queue
//! identity per topic, and the recorded filters that future queues must
//! honor.

use vstd::prelude::*;

verus! {

use vstd::utf8::encode_utf8;
use crate::structure::{Queue, QueueView, WriterRef, WriterRefView, writers_view};
use crate::topic::{has_wildcard, topic_matches};

/// Does a filter string select a topic string?
pub open spec fn filter_selects(filter: Seq<char>, topic: Seq<char>) -> bool {
    topic_matches(encode_utf8(filter), encode_utf8(topic))
}

/// A recorded subscription: a filter and the writer it subscribes.
#[derive(Debug)]
pub struct Subscription {
    pub filter: String,
    pub writer: WriterRef,
}

/// The ghost value of a `Subscription`.
#[verifier::ext_equal]
pub ghost struct SubscriptionView {
    pub filter: Seq<char>,
    pub writer: WriterRefView,
}

impl View for Subscription {
    type V = SubscriptionView;

    open spec fn view(&self) -> SubscriptionView {
        SubscriptionView { filter: self.filter@, writer: self.writer@ }
    }
}

/// The ghost value of a subscription list.
pub open spec fn subscriptions_view(v: Seq<Subscription>) -> Seq<SubscriptionView> {
    v.map_values(|s: Subscription| s@)
}

/// The index of the queue with this name, or the list's length.
pub open spec fn queue_index_by_name(qs: Seq<QueueView>, name: Seq<char>) -> int
    decreases qs.len(),
{
    if qs.len() == 0 {
        0
    } else if qs[0].name == name {
        0
    } else {
        1 + queue_index_by_name(qs.drop_first(), name)
    }
}

/// The index of the queue with this identity, or the list's length.
pub open spec fn queue_index_by_id(qs: Seq<QueueView>, id: u128) -> int
    decreases qs.len(),
{
    if qs.len() == 0 {
        0
    } else if qs[0].id == id {
        0
    } else {
        1 + queue_index_by_id(qs.drop_first(), id)
    }
}

/// The writers of the recorded subscriptions whose filter selects the topic.
pub open spec fn matching_subscribers(subs: Seq<SubscriptionView>, topic: Seq<char>) -> Seq<
    WriterRefView,
> {
    subs.filter(|s: SubscriptionView| filter_selects(s.filter, topic)).map_values(
        |s: SubscriptionView| s.writer,
    )
}

/// Where the first-index spec functions land: in range with a hit, or at the
/// length with no hit.
pub proof fn lemma_queue_index_by_name(qs: Seq<QueueView>, name: Seq<char>)
    ensures
        0 <= queue_index_by_name(qs, name) <= qs.len(),
        queue_index_by_name(qs, name) < qs.len() ==> qs[queue_index_by_name(qs, name)].name
            == name,
        forall|j: int| 0 <= j < queue_index_by_name(qs, name) ==> qs[j].name != name,
    decreases qs.len(),
{
    if qs.len() > 0 && qs[0].name != name {
        lemma_queue_index_by_name(qs.drop_first(), name);
        assert forall|j: int| 0 <= j < queue_index_by_name(qs, name) implies qs[j].name != name by {
            if j > 0 {
                assert(qs.drop_first()[j - 1] == qs[j]);
            }
        }
    }
}

/// Same placement for lookup by identity.
pub proof fn lemma_queue_index_by_id(qs: Seq<QueueView>, id: u128)
    ensures
        0 <= queue_index_by_id(qs, id) <= qs.len(),
        queue_index_by_id(qs, id) < qs.len() ==> qs[queue_index_by_id(qs, id)].id == id,
        forall|j: int| 0 <= j < queue_index_by_id(qs, id) ==> qs[j].id != id,
    decreases qs.len(),
{
    if qs.len() > 0 && qs[0].id != id {
        lemma_queue_index_by_id(qs.drop_first(), id);
        assert forall|j: int| 0 <= j < queue_index_by_id(qs, id) implies qs[j].id != id by {
            if j > 0 {
                assert(qs.drop_first()[j - 1] == qs[j]);
            }
        }
    }
}

/// The topic tree: queues in creation order, the next queue identity, and
/// the recorded subscriptions.
#[derive(Debug)]
pub struct TopicTree {
    pub counter: u128,
    pub queues: Vec<Queue>,
    pub subscriptions: Vec<Subscription>,
}

/// The ghost value of a `TopicTree`.
#[verifier::ext_equal]
pub ghost struct TopicTreeView {
    pub counter: u128,
    pub queues: Seq<QueueView>,
    pub subscriptions: Seq<SubscriptionView>,
}

impl View for TopicTree {
    type V = TopicTreeView;

    open spec fn view(&self) -> TopicTreeView {
        TopicTreeView {
            counter: self.counter,
            queues: self.queues@.map_values(|q: Queue| q@),
            subscriptions: subscriptions_view(self.subscriptions@),
        }
    }
}

/// The tree after a topic's queue is ensured: unchanged when the name is
/// known, else one fresh queue whose subscribers are the recorded matches.
pub open spec fn tree_after_ensure(t: TopicTreeView, topic: Seq<char>) -> TopicTreeView {
    if queue_index_by_name(t.queues, topic) < t.queues.len() {
        t
    } else {
        TopicTreeView {
            counter: (t.counter + 1) as u128,
            queues: t.queues.push(
                QueueView {
                    id: t.counter,
                    name: topic,
                    subscribers: matching_subscribers(t.subscriptions, topic),
                },
            ),
            subscriptions: t.subscriptions,
        }
    }
}

/// The tree after a subscription: the filter is recorded, the queue for a
/// wildcard-free filter is ensured first, and the writer joins every queue
/// the filter selects.
pub open spec fn tree_after_subscribe(
    t: TopicTreeView,
    filter: Seq<char>,
    w: WriterRefView,
) -> TopicTreeView {
    let t1 = if !crate::topic::has_wildcard(encode_utf8(filter)) {
        tree_after_ensure(t, filter)
    } else {
        t
    };
    TopicTreeView {
        counter: t1.counter,
        queues: t1.queues.map_values(
            |q: QueueView|
                if filter_selects(filter, q.name) {
                    QueueView { id: q.id, name: q.name, subscribers: q.subscribers.push(w) }
                } else {
                    q
                },
        ),
        subscriptions: t1.subscriptions.push(SubscriptionView { filter, writer: w }),
    }
}

/// The tree after inactive subscribers leave one queue: only that queue's
/// subscriber list changes, keeping its order.
pub open spec fn tree_after_drop(
    t: TopicTreeView,
    queue_id: u128,
    dead: Seq<WriterRefView>,
) -> TopicTreeView {
    let i = queue_index_by_id(t.queues, queue_id);
    if i < t.queues.len() {
        let q = t.queues[i];
        TopicTreeView {
            counter: t.counter,
            queues: t.queues.update(
                i,
                QueueView {
                    id: q.id,
                    name: q.name,
                    subscribers: q.subscribers.filter(|w: WriterRefView| !dead.contains(w)),
                },
            ),
            subscriptions: t.subscriptions,
        }
    } else {
        t
    }
}

impl TopicTree {
    /// An empty tree.
    pub fn new() -> (r: TopicTree)
        ensures
            r@.counter == 0,
            r@.queues.len() == 0,
            r@.subscriptions.len() == 0,
    {
        TopicTree { counter: 0, queues: Vec::new(), subscriptions: Vec::new() }
    }

    /// The index of the topic's queue, if the topic is known.
    fn find_queue(&self, topic: &str) -> (r: Option<usize>)
        ensures
            ({
                let i = queue_index_by_name(self@.queues, topic@);
                if i < self@.queues.len() {
                    r == Some(i as usize)
                } else {
                    r is None
                }
            }),
    {
        proof {
            lemma_queue_index_by_name(self@.queues, topic@);
        }
        let ghost target = queue_index_by_name(self@.queues, topic@);
        let mut i: usize = 0;
        while i < self.queues.len()
            invariant
                0 <= i <= self@.queues.len(),
                target == queue_index_by_name(self@.queues, topic@),
                0 <= target <= self@.queues.len(),
                target < self@.queues.len() ==> self@.queues[target].name == topic@,
                forall|j: int| 0 <= j < target ==> self@.queues[j].name != topic@,
                forall|j: int| 0 <= j < i ==> self@.queues[j].name != topic@,
            decreases self@.queues.len() - i,
        {
            if crate::topic::str_eq(self.queues[i].name.as_str(), topic) {
                proof {
                    assert(self@.queues[i as int].name == topic@);
                }
                return Some(i);
            }
            i = i + 1;
        }
        None
    }

    /// Ensure the topic has a queue; a fresh queue takes the next identity
    /// and the recorded matching subscribers.
    pub fn ensure_topic_queue(&mut self, topic: &str) -> (idx: usize)
        requires
            old(self).counter < u128::MAX,
        ensures
            final(self)@ == tree_after_ensure(old(self)@, topic@),
            idx == queue_index_by_name(final(self)@.queues, topic@),
            idx < final(self)@.queues.len(),
            final(self)@.queues[idx as int].name == topic@,
    {
        let ghost qlen = self@.queues.len();
        let n = self.queues.len();
        proof {
            assert(qlen == n);
            lemma_queue_index_by_name(self@.queues, topic@);
        }
        match self.find_queue(topic) {
            Some(i) => {
                proof {
                    let qi = queue_index_by_name(self@.queues, topic@);
                    assert(qi < self@.queues.len());
                    assert(self@.queues[qi].name == topic@);
                }
                i
            },
            None => {
                let ghost old_tree = self@;
                let subscribers = self.matching_recorded_subscribers(topic);
                let queue = Queue { id: self.counter, name: topic.to_owned(), subscribers };
                let idx = self.queues.len();
                self.queues.push(queue);
                self.counter = self.counter + 1;
                proof {
                    assert(self@.queues =~= old_tree.queues.push(
                        QueueView {
                            id: old_tree.counter,
                            name: topic@,
                            subscribers: matching_subscribers(old_tree.subscriptions, topic@),
                        },
                    ));
                    assert(self@.subscriptions =~= old_tree.subscriptions);
                    assert(self@ =~= tree_after_ensure(old_tree, topic@));
                    lemma_queue_index_by_name(old_tree.queues, topic@);
                    assert forall|j: int|
                        0 <= j < self@.queues.len() && self@.queues[j].name == topic@ implies j
                        == idx by {
                        if j < idx {
                            assert(old_tree.queues[j] == self@.queues[j]);
                        }
                    }
                    lemma_queue_index_by_name(self@.queues, topic@);
                    let qi = queue_index_by_name(self@.queues, topic@);
                    assert(self@.queues[idx as int].name == topic@);
                    if qi == self@.queues.len() {
                        assert(false);
                    }
                    assert(self@.queues[qi].name == topic@);
                    assert(qi == idx);
                }
                idx
            },
        }
    }

    /// The recorded subscribers whose filter selects this topic.
    fn matching_recorded_subscribers(&self, topic: &str) -> (r: Vec<WriterRef>)
        ensures
            writers_view(r@) == matching_subscribers(self@.subscriptions, topic@),
    {
        let ghost subs = self@.subscriptions;
        let ghost pred = |s: SubscriptionView| filter_selects(s.filter, topic@);
        let mut out: Vec<WriterRef> = Vec::new();
        let mut i: usize = 0;
        while i < self.subscriptions.len()
            invariant
                0 <= i <= self@.subscriptions.len(),
                subs == self@.subscriptions,
                writers_view(out@) == subs.subrange(0, i as int).filter(
                    |s: SubscriptionView| filter_selects(s.filter, topic@),
                ).map_values(|s: SubscriptionView| s.writer),
            decreases self@.subscriptions.len() - i,
        {
            let ghost prefix = subs.subrange(0, i as int);
            let ghost cur = subs[i as int];
            let hit = crate::topic::match_topic(self.subscriptions[i].filter.as_str(), topic);
            proof {
                assert(cur == self.subscriptions@[i as int]@);
                assert(hit == filter_selects(cur.filter, topic@));
                reveal(Seq::filter);
                assert(prefix.push(cur).drop_last() =~= prefix);
                assert(prefix.push(cur).last() == cur);
                assert(subs.subrange(0, i + 1) =~= prefix.push(cur));
            }
            if hit {
                let ghost prev = out@;
                out.push(self.subscriptions[i].writer.duplicate());
                proof {
                    assert(writers_view(out@) =~= writers_view(prev).push(cur.writer));
                    assert(subs.subrange(0, i + 1).filter(
                        |s: SubscriptionView| filter_selects(s.filter, topic@),
                    ).map_values(|s: SubscriptionView| s.writer) =~= prefix.filter(
                        |s: SubscriptionView| filter_selects(s.filter, topic@),
                    ).map_values(|s: SubscriptionView| s.writer).push(cur.writer));
                }
            } else {
                proof {
                    assert(subs.subrange(0, i + 1).filter(
                        |s: SubscriptionView| filter_selects(s.filter, topic@),
                    ) =~= prefix.filter(|s: SubscriptionView| filter_selects(s.filter, topic@)));
                }
            }
            i = i + 1;
        }
        proof {
            assert(subs.subrange(0, subs.len() as int) =~= subs);
        }
        out
    }

    /// The queue for a topic name, created if the name is new.
    pub fn get_by_name(&mut self, topic: &str) -> (r: Queue)
        requires
            old(self).counter < u128::MAX,
        ensures
            final(self)@ == tree_after_ensure(old(self)@, topic@),
            r@ == final(self)@.queues[queue_index_by_name(final(self)@.queues, topic@)],
            r@.name == topic@,
    {
        let idx = self.ensure_topic_queue(topic);
        self.queues[idx].duplicate()
    }

    /// The queue with this identity, if one exists.
    pub fn get_by_id(&self, queue_id: u128) -> (r: Option<Queue>)
        ensures
            ({
                let i = queue_index_by_id(self@.queues, queue_id);
                if i < self@.queues.len() {
                    r matches Some(q) && q@ == self@.queues[i]
                } else {
                    r is None
                }
            }),
    {
        proof {
            lemma_queue_index_by_id(self@.queues, queue_id);
        }
        let ghost target = queue_index_by_id(self@.queues, queue_id);
        let mut i: usize = 0;
        while i < self.queues.len()
            invariant
                0 <= i <= self@.queues.len(),
                target == queue_index_by_id(self@.queues, queue_id),
                0 <= target <= self@.queues.len(),
                target < self@.queues.len() ==> self@.queues[target].id == queue_id,
                forall|j: int| 0 <= j < target ==> self@.queues[j].id != queue_id,
                forall|j: int| 0 <= j < i ==> self@.queues[j].id != queue_id,
            decreases self@.queues.len() - i,
        {
            if self.queues[i].id == queue_id {
                proof {
                    assert(self@.queues[i as int].id == queue_id);
                    if i < target {
                        assert(false);
                    }
                    if target < i {
                        assert(self@.queues[target].id == queue_id);
                    }
                    assert(i == target);
                }
                return Some(self.queues[i].duplicate());
            }
            i = i + 1;
        }
        None
    }

    /// Remove the named inactive subscribers from the queue with this
    /// identity; without such a queue nothing changes.
    pub fn drop_inactive_subs(&mut self, queue_id: u128, inactive_subs: &Vec<WriterRef>)
        ensures
            final(self)@ == tree_after_drop(old(self)@, queue_id, writers_view(inactive_subs@)),
    {
        proof {
            lemma_queue_index_by_id(self@.queues, queue_id);
        }
        let ghost target = queue_index_by_id(self@.queues, queue_id);
        let ghost orig = self@;
        let mut i: usize = 0;
        while i < self.queues.len()
            invariant
                orig == old(self)@,
                0 <= i <= self@.queues.len(),
                self@.counter == orig.counter,
                self@.subscriptions == orig.subscriptions,
                self@.queues.len() == orig.queues.len(),
                target == queue_index_by_id(orig.queues, queue_id),
                0 <= target <= orig.queues.len(),
                target < orig.queues.len() ==> orig.queues[target].id == queue_id,
                forall|j: int| 0 <= j < target ==> orig.queues[j].id != queue_id,
                forall|j: int| 0 <= j < orig.queues.len() && j != target ==> self@.queues[j]
                    == orig.queues[j],
                forall|j: int| i <= j < orig.queues.len() ==> self@.queues[j] == orig.queues[j],
                i <= target,
            decreases self@.queues.len() - i,
        {
            if self.queues[i].id == queue_id {
                proof {
                    assert(self@.queues[i as int] == orig.queues[i as int]);
                    assert(orig.queues[i as int].id == queue_id);
                    assert(i == target);
                }
                let ghost qs_before = self@.queues;
                let mut queue = self.queues.remove(i);
                queue.drop_inactive_subs(inactive_subs);
                self.queues.insert(i, queue);
                proof {
                    assert(self@.queues[i as int].subscribers =~= orig.queues[target].subscribers.filter(
                        |w: WriterRefView| !writers_view(inactive_subs@).contains(w),
                    ));
                    assert forall|j: int|
                        0 <= j < orig.queues.len() && j != i implies self@.queues[j]
                        == orig.queues[j] by {
                        if j < i {
                            assert(self@.queues[j] == qs_before[j]);
                        } else {
                            assert(self@.queues[j] == qs_before[j]);
                        }
                    }
                    assert(self@.counter == orig.counter);
                    assert(self@.subscriptions =~= orig.subscriptions);
                    assert(self@.queues =~= tree_after_drop(
                        orig,
                        queue_id,
                        writers_view(inactive_subs@),
                    ).queues);
                    assert(self@ =~= tree_after_drop(orig, queue_id, writers_view(inactive_subs@)));
                }
                return ;
            }
            i = i + 1;
        }
        proof {
            assert(self@.queues =~= orig.queues);
            assert(self@ =~= tree_after_drop(orig, queue_id, writers_view(inactive_subs@)));
        }
    }

    /// The names of the queues a wildcard filter selects.
    pub fn match_wildcard_subscriptions(&self, wildcard: &str) -> (r: Vec<String>)
        ensures
            r@.map_values(|s: String| s@) == self@.queues.filter(
                |q: QueueView| filter_selects(wildcard@, q.name),
            ).map_values(|q: QueueView| q.name),
    {
        let ghost qs = self@.queues;
        let ghost pred = |q: QueueView| filter_selects(wildcard@, q.name);
        let mut out: Vec<String> = Vec::new();
        let mut i: usize = 0;
        while i < self.queues.len()
            invariant
                0 <= i <= self@.queues.len(),
                qs == self@.queues,
                out@.map_values(|s: String| s@) == qs.subrange(0, i as int).filter(
                    |q: QueueView| filter_selects(wildcard@, q.name),
                ).map_values(|q: QueueView| q.name),
            decreases self@.queues.len() - i,
        {
            let ghost prefix = qs.subrange(0, i as int);
            let ghost cur = qs[i as int];
            let hit = crate::topic::match_topic(wildcard, self.queues[i].name.as_str());
            proof {
                assert(cur == self.queues@[i as int]@);
                assert(hit == filter_selects(wildcard@, cur.name));
                reveal(Seq::filter);
                assert(prefix.push(cur).drop_last() =~= prefix);
                assert(prefix.push(cur).last() == cur);
                assert(qs.subrange(0, i + 1) =~= prefix.push(cur));
            }
            if hit {
                let ghost prev = out@;
                out.push(self.queues[i].name.clone());
                proof {
                    assert(out@.map_values(|s: String| s@) =~= prev.map_values(
                        |s: String| s@,
                    ).push(cur.name));
                    assert(qs.subrange(0, i + 1).filter(
                        |q: QueueView| filter_selects(wildcard@, q.name),
                    ).map_values(|q: QueueView| q.name) =~= prefix.filter(
                        |q: QueueView| filter_selects(wildcard@, q.name),
                    ).map_values(|q: QueueView| q.name).push(cur.name));
                }
            } else {
                proof {
                    assert(qs.subrange(0, i + 1).filter(
                        |q: QueueView| filter_selects(wildcard@, q.name),
                    ) =~= prefix.filter(|q: QueueView| filter_selects(wildcard@, q.name)));
                }
            }
            i = i + 1;
        }
        proof {
            assert(qs.subrange(0, qs.len() as int) =~= qs);
        }
        out
    }

    /// The names of the queues a filter selects: every matching queue for a
    /// wildcard filter, and for a plain name its queue, created if new.
    pub fn get_matching_queue_names(&mut self, topic_pattern: &str) -> (r: Vec<String>)
        requires
            old(self).counter < u128::MAX,
        ensures
            has_wildcard(encode_utf8(topic_pattern@)) ==> final(self)@ == old(self)@
                && r@.map_values(|s: String| s@) == old(self)@.queues.filter(
                |q: QueueView| filter_selects(topic_pattern@, q.name),
            ).map_values(|q: QueueView| q.name),
            !has_wildcard(encode_utf8(topic_pattern@)) ==> final(self)@ == tree_after_ensure(
                old(self)@,
                topic_pattern@,
            ) && r@.map_values(|s: String| s@) == seq![topic_pattern@],
    {
        let wild = crate::topic::contains_wildcard(topic_pattern.as_bytes());
        if wild {
            self.match_wildcard_subscriptions(topic_pattern)
        } else {
            self.ensure_topic_queue(topic_pattern);
            let mut out: Vec<String> = Vec::new();
            out.push(topic_pattern.to_owned());
            proof {
                assert(out@.map_values(|s: String| s@) =~= seq![topic_pattern@]);
            }
            out
        }
    }

    /// Record one subscription: ensure a queue for a wildcard-free filter,
    /// join every queue the filter selects, and keep the filter for queues
    /// still to come.
    pub fn add_subscriptions(&mut self, topic: String, writer: WriterRef)
        requires
            old(self).counter < u128::MAX,
        ensures
            final(self)@ == tree_after_subscribe(old(self)@, topic@, writer@),
    {
        let ghost t0 = self@;
        let has_wild = crate::topic::contains_wildcard(topic.as_str().as_bytes());
        if !has_wild {
            self.ensure_topic_queue(topic.as_str());
        }
        let ghost t1 = self@;
        proof {
            assert(t1 == if !crate::topic::has_wildcard(encode_utf8(topic@)) {
                tree_after_ensure(t0, topic@)
            } else {
                t0
            });
        }
        let mut i: usize = 0;
        while i < self.queues.len()
            invariant
                t1 == (if !crate::topic::has_wildcard(encode_utf8(topic@)) {
                    tree_after_ensure(t0, topic@)
                } else {
                    t0
                }),
                0 <= i <= self@.queues.len(),
                self@.counter == t1.counter,
                self@.subscriptions == t1.subscriptions,
                self@.queues.len() == t1.queues.len(),
                forall|j: int| i <= j < t1.queues.len() ==> self@.queues[j] == t1.queues[j],
                forall|j: int|
                    0 <= j < i ==> self@.queues[j] == (if filter_selects(
                        topic@,
                        t1.queues[j].name,
                    ) {
                        QueueView {
                            id: t1.queues[j].id,
                            name: t1.queues[j].name,
                            subscribers: t1.queues[j].subscribers.push(writer@),
                        }
                    } else {
                        t1.queues[j]
                    }),
            decreases self@.queues.len() - i,
        {
            let ghost before = self@.queues[i as int];
            let hit = crate::topic::match_topic(topic.as_str(), self.queues[i].name.as_str());
            proof {
                assert(before == t1.queues[i as int]);
                assert(hit == filter_selects(topic@, before.name));
            }
            if hit {
                let w = writer.duplicate();
                let ghost vec_pre = self.queues@;
                let ghost qs0 = self@.queues;
                let queue = &mut self.queues[i];
                queue.subscribers.push(w);
                proof {
                    assert(self.queues@ =~= vec_pre.update(i as int, self.queues@[i as int]));
                    assert forall|j: int|
                        0 <= j < vec_pre.len() && j != i implies self@.queues[j] == vec_pre[j]@ by {
                        assert(self.queues@[j] == vec_pre[j]);
                    }
                    assert forall|j: int| 0 <= j < i implies vec_pre[j]@ == (if filter_selects(
                        topic@,
                        t1.queues[j].name,
                    ) {
                        QueueView {
                            id: t1.queues[j].id,
                            name: t1.queues[j].name,
                            subscribers: t1.queues[j].subscribers.push(writer@),
                        }
                    } else {
                        t1.queues[j]
                    }) by {
                        assert(vec_pre[j]@ == qs0[j]);
                    }
                    assert forall|j: int|
                        i < j < vec_pre.len() implies vec_pre[j]@ == t1.queues[j] by {
                        assert(vec_pre[j]@ == qs0[j]);
                    }
                    assert(self@.queues[i as int].id == before.id);
                    assert(self@.queues[i as int].name == before.name);
                    assert(self@.queues[i as int].subscribers =~= before.subscribers.push(
                        writer@,
                    ));
                    assert(self@.queues[i as int] == QueueView {
                        id: before.id,
                        name: before.name,
                        subscribers: before.subscribers.push(writer@),
                    });
                    assert forall|j: int|
                        0 <= j < t1.queues.len() && j != i implies self@.queues[j] == old(
                        self,
                    )@.queues[j] || true by {}
                }
            }
            i = i + 1;
            proof {
                assert forall|j: int| 0 <= j < i implies self@.queues[j] == (if filter_selects(
                    topic@,
                    t1.queues[j].name,
                ) {
                    QueueView {
                        id: t1.queues[j].id,
                        name: t1.queues[j].name,
                        subscribers: t1.queues[j].subscribers.push(writer@),
                    }
                } else {
                    t1.queues[j]
                }) by {
                    if j < i - 1 {
                    } else {
                        assert(j == i - 1);
                    }
                }
            }
        }
        self.subscriptions.push(Subscription { filter: topic, writer });
        proof {
            assert(self@.subscriptions =~= t1.subscriptions.push(
                SubscriptionView { filter: topic@, writer: writer@ },
            ));
            assert(self@.queues =~= tree_after_subscribe(t0, topic@, writer@).queues);
            assert(self@ =~= tree_after_subscribe(t0, topic@, writer@));
        }
    }
}


/// A reported-inactive subscriber is gone: after its queue drops the
/// inactive list, no writer from that list is in the queue's subscribers,
/// so no later PUBLISH job for the queue carries it.
pub proof fn lemma_dropped_subscriber_gone(
    t: TopicTreeView,
    queue_id: u128,
    dead: Seq<WriterRefView>,
    w: WriterRefView,
)
    requires
        dead.contains(w),
        queue_index_by_id(t.queues, queue_id) < t.queues.len(),
    ensures
        !tree_after_drop(t, queue_id, dead).queues[queue_index_by_id(
            t.queues,
            queue_id,
        )].subscribers.contains(w),
{
    let i = queue_index_by_id(t.queues, queue_id);
    lemma_queue_index_by_id(t.queues, queue_id);
    let kept = t.queues[i].subscribers.filter(|x: WriterRefView| !dead.contains(x));
    broadcast use vstd::seq_lib::group_filter_ensures;

    if kept.contains(w) {
        let j = choose|j: int| 0 <= j < kept.len() && kept[j] == w;
        assert(!dead.contains(kept[j]));
    }
    assert(tree_after_drop(t, queue_id, dead).queues[i].subscribers == kept);
}

} // verus!
