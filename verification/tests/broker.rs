//! End-to-end flows through the coordinator, store and worker decisions.

use mqtt_broker::codec::{ControlPacketType, SubscriptionRequest};
use mqtt_broker::coordinator::{CoordinatorState, PollResponse, Complete};
use mqtt_broker::metrics::ActiveQueue;
use mqtt_broker::packets::{ConfirmationPacket, PublishPacket, SubscribePacket};
use mqtt_broker::structure::WriterRef;
use mqtt_broker::wal::{decode_wal, encode_wal, Entry};
use mqtt_broker::worker::{
    confirmation_action, confirmation_followup, cleanup_after_release, release_after_completion,
    PublishDelivery, WorkerRequest,
};

fn writer(client_id: &str, process: Option<u64>, session_id: u128, persistent: bool) -> WriterRef {
    WriterRef {
        process,
        client_id: client_id.to_string(),
        session_id,
        is_persistent_session: persistent,
    }
}

fn publish_packet(topic: &str, payload: &[u8], qos: u8, message_id: Option<u16>) -> PublishPacket {
    PublishPacket {
        topic: topic.to_string(),
        payload: payload.to_vec(),
        qos,
        message_id,
        dup: false,
        retain: false,
    }
}

fn subscribe_packet(message_id: u16, topic: &str, qos: u8) -> SubscribePacket {
    SubscribePacket {
        message_id,
        subscriptions: vec![SubscriptionRequest { topic: topic.to_string(), qos }],
    }
}

/// Run a delivery round where the given writer processes accept the message.
fn deliver(delivery: &mut PublishDelivery, alive: &[u64]) -> usize {
    let mut handed = 0;
    while let Some(target) = delivery.next_target() {
        let ok = match target.process {
            Some(p) => alive.contains(&p),
            None => false,
        };
        if ok {
            handed += 1;
        }
        delivery.on_result(ok);
    }
    handed
}

#[test]
fn qos0_single_subscriber_flow() {
    let mut broker = CoordinatorState::new();
    let sub = writer("sub1", Some(2), 11, false);
    let publisher = writer("pub1", Some(1), 10, false);
    broker.connect(Some(102), sub.duplicate(), true);
    broker.connect(Some(101), publisher.duplicate(), true);
    let suback = broker.subscribe(subscribe_packet(1, "a/b", 0), sub.duplicate());
    assert_eq!(suback.granted, vec![0]);

    broker.publish(publish_packet("a/b", b"hi", 0, None), publisher.duplicate(), 100);
    match broker.poll_job() {
        PollResponse::Publish(job, ctx) => {
            assert_eq!(ctx.packet.payload, b"hi".to_vec());
            let mut delivery = PublishDelivery::new(
                ctx.packet.qos,
                job.message.message_uuid,
                job.message.message_id,
                job.queue.subscribers,
            );
            assert_eq!(deliver(&mut delivery, &[2]), 1);
            match delivery.outcome() {
                WorkerRequest::Free(release) => {
                    assert!(broker.release_message(release, 101));
                },
                other => panic!("a delivered QoS 0 job must release: {:?}", other),
            }
        },
        other => panic!("expected a publish job: {:?}", other),
    }
    assert!(broker.wal.is_empty(), "QoS 0 writes no log records");
    assert!(matches!(broker.poll_job(), PollResponse::NoJob));
}

#[test]
fn qos1_single_subscriber_flow() {
    let mut broker = CoordinatorState::new();
    let sub = writer("sub1", Some(2), 11, false);
    let publisher = writer("pub1", Some(1), 10, false);
    broker.connect(Some(102), sub.duplicate(), true);
    broker.connect(Some(101), publisher.duplicate(), true);
    broker.subscribe(subscribe_packet(1, "a/b", 1), sub.duplicate());

    broker.publish(publish_packet("a/b", b"x", 1, Some(7)), publisher.duplicate(), 100);
    let sent = match broker.poll_job() {
        PollResponse::Publish(job, ctx) => {
            assert_eq!(ctx.packet.message_id, Some(7));
            let mut delivery = PublishDelivery::new(
                ctx.packet.qos,
                job.message.message_uuid,
                job.message.message_id,
                job.queue.subscribers,
            );
            assert_eq!(deliver(&mut delivery, &[2]), 1);
            match delivery.outcome() {
                WorkerRequest::MarkSent(sent) => sent,
                other => panic!("a delivered QoS 1 job must report sent: {:?}", other),
            }
        },
        other => panic!("expected a publish job: {:?}", other),
    };
    assert!(broker.mark_sent(sent, 101));

    // The subscriber acknowledges; the broker owes the publisher a PUBACK.
    assert!(broker.confirm(
        ConfirmationPacket { cmd: ControlPacketType::Puback, message_id: 7 },
        sub.duplicate(),
        102,
    ));
    match broker.poll_job() {
        PollResponse::Confirmation(confirm, _ctx) => {
            assert_eq!(confirm.publisher.client_id, "pub1");
            let (qos, _packet) = confirmation_action(&confirm);
            assert_eq!(qos, 1);
            let release = confirmation_followup(&confirm, qos).expect("QoS 1 releases here");
            assert!(broker.release_message(release, 103));
        },
        other => panic!("expected the queued acknowledgement: {:?}", other),
    }

    let kinds: Vec<u8> = broker.wal.iter().map(|e| match e {
        Entry::Publish(_) => 1u8,
        Entry::Accepted(_) => 2,
        Entry::Sent(_) => 3,
        Entry::Deleted(_) => 4,
        Entry::Completed(_) => 5,
    }).collect();
    assert_eq!(kinds, vec![1, 3, 2, 4, 5], "publish, sent, accepted, deleted, completed");
    assert!(matches!(broker.poll_job(), PollResponse::NoJob));
}

#[test]
fn qos2_single_subscriber_flow() {
    let mut broker = CoordinatorState::new();
    let sub = writer("sub1", Some(2), 11, false);
    let publisher = writer("pub1", Some(1), 10, false);
    broker.connect(Some(102), sub.duplicate(), true);
    broker.connect(Some(101), publisher.duplicate(), true);
    broker.subscribe(subscribe_packet(1, "a/b", 2), sub.duplicate());

    broker.publish(publish_packet("a/b", b"x", 2, Some(9)), publisher.duplicate(), 100);
    let sent = match broker.poll_job() {
        PollResponse::Publish(job, ctx) => {
            let mut delivery = PublishDelivery::new(
                ctx.packet.qos,
                job.message.message_uuid,
                job.message.message_id,
                job.queue.subscribers,
            );
            assert_eq!(deliver(&mut delivery, &[2]), 1);
            match delivery.outcome() {
                WorkerRequest::MarkSent(sent) => sent,
                other => panic!("a delivered QoS 2 job must report sent: {:?}", other),
            }
        },
        other => panic!("expected a publish job: {:?}", other),
    };
    assert!(broker.mark_sent(sent, 101));

    // The broker owes the publisher a PUBREC.
    match broker.poll_job() {
        PollResponse::Confirmation(confirm, _ctx) => {
            let (qos, _packet) = confirmation_action(&confirm);
            assert_eq!(qos, 2);
            assert!(confirmation_followup(&confirm, qos).is_none());
        },
        other => panic!("expected the queued PUBREC: {:?}", other),
    }

    // Subscriber PUBREC, publisher PUBREL: both halves of the release.
    assert!(broker.confirm(
        ConfirmationPacket { cmd: ControlPacketType::Pubrec, message_id: 9 },
        sub.duplicate(),
        102,
    ));
    assert!(broker.confirm(
        ConfirmationPacket { cmd: ControlPacketType::Pubrel, message_id: 9 },
        publisher.duplicate(),
        103,
    ));
    match broker.poll_job() {
        PollResponse::Release(release, ctx) => {
            assert!(release.pubrec_received && release.pubrel_received);
            assert_eq!(ctx.receivers.len(), 1, "exactly one chosen subscriber");
            // Forward PUBREL to the subscriber; it answers PUBCOMP.
            assert!(broker.confirm(
                ConfirmationPacket { cmd: ControlPacketType::Pubcomp, message_id: 9 },
                sub.duplicate(),
                104,
            ));
            // Forward PUBCOMP to the publisher and clean up.
            assert!(broker.cleanup(cleanup_after_release(&release)));
        },
        other => panic!("expected the queued release: {:?}", other),
    }

    let kinds: Vec<u8> = broker.wal.iter().map(|e| match e {
        Entry::Publish(_) => 1u8,
        Entry::Accepted(_) => 2,
        Entry::Sent(_) => 3,
        Entry::Deleted(_) => 4,
        Entry::Completed(_) => 5,
    }).collect();
    assert_eq!(kinds, vec![1, 3, 4, 2, 5], "publish, sent, deleted, accepted, completed");
    assert!(matches!(broker.poll_job(), PollResponse::NoJob));
}

#[test]
fn wildcard_subscription_routes_only_matches() {
    let mut broker = CoordinatorState::new();
    let sub = writer("sub1", Some(2), 11, false);
    let publisher = writer("pub1", Some(1), 10, false);
    broker.connect(Some(102), sub.duplicate(), true);
    broker.connect(Some(101), publisher.duplicate(), true);
    broker.subscribe(subscribe_packet(1, "users/+/device/#", 1), sub.duplicate());

    // A non-matching topic: its fresh queue has no subscribers, so no job.
    broker.publish(
        publish_packet("users/alice/deviceX/y", b"no", 1, Some(3)),
        publisher.duplicate(),
        100,
    );
    assert!(matches!(broker.poll_job(), PollResponse::NoJob));

    // A matching topic reaches the subscriber exactly once.
    broker.publish(
        publish_packet("users/alice/device/x/y", b"yes", 1, Some(4)),
        publisher.duplicate(),
        101,
    );
    match broker.poll_job() {
        PollResponse::Publish(job, ctx) => {
            assert_eq!(ctx.packet.payload, b"yes".to_vec());
            let mut delivery = PublishDelivery::new(
                ctx.packet.qos,
                job.message.message_uuid,
                job.message.message_id,
                job.queue.subscribers,
            );
            assert_eq!(deliver(&mut delivery, &[2]), 1);
        },
        other => panic!("expected a publish job for the matching topic: {:?}", other),
    }
}

#[test]
fn persistent_session_delivery_after_reconnect() {
    let mut broker = CoordinatorState::new();
    let sub = writer("c1", Some(2), 11, true);
    let publisher = writer("pub1", Some(1), 10, false);
    broker.connect(Some(102), sub.duplicate(), false);
    broker.connect(Some(101), publisher.duplicate(), true);
    broker.subscribe(subscribe_packet(1, "t", 1), sub.duplicate());

    // The subscriber drops; the message is published while it is away.
    broker.disconnect("c1");
    broker.publish(publish_packet("t", b"x", 1, Some(7)), publisher.duplicate(), 100);

    // A delivery attempt fails while the subscriber is away; retry later.
    match broker.poll_job() {
        PollResponse::Publish(job, ctx) => {
            let mut delivery = PublishDelivery::new(
                ctx.packet.qos,
                job.message.message_uuid,
                job.message.message_id,
                job.queue.subscribers,
            );
            assert_eq!(deliver(&mut delivery, &[]), 0);
            match delivery.outcome() {
                WorkerRequest::Retry(retry) => {
                    // Keep the subscriber: it holds a persistent session.
                    let mqtt_broker::coordinator::RetryLater::Publish(uuid, _dead) = retry;
                    assert!(broker.retry_message_later(
                        mqtt_broker::coordinator::RetryLater::Publish(uuid, Vec::new())
                    ));
                },
                other => panic!("an undelivered QoS 1 job must retry: {:?}", other),
            }
        },
        other => panic!("expected a publish job: {:?}", other),
    }

    // The subscriber returns; the message is still deliverable.
    broker.connect(Some(102), sub.duplicate(), false);
    match broker.poll_job() {
        PollResponse::Publish(job, ctx) => {
            let mut delivery = PublishDelivery::new(
                ctx.packet.qos,
                job.message.message_uuid,
                job.message.message_id,
                job.queue.subscribers,
            );
            assert_eq!(deliver(&mut delivery, &[2]), 1);
            match delivery.outcome() {
                WorkerRequest::MarkSent(sent) => assert!(broker.mark_sent(sent, 101)),
                other => panic!("the retried job must now report sent: {:?}", other),
            }
        },
        other => panic!("expected the retried publish job: {:?}", other),
    }
    assert!(broker.confirm(
        ConfirmationPacket { cmd: ControlPacketType::Puback, message_id: 7 },
        sub.duplicate(),
        102,
    ));
    assert!(matches!(broker.poll_job(), PollResponse::Confirmation(_, _)));
}

#[test]
fn crash_replay_resumes_without_redelivery() {
    let mut broker = CoordinatorState::new();
    let sub = writer("sub1", Some(2), 11, true);
    let publisher = writer("pub1", Some(1), 10, true);
    broker.connect(Some(102), sub.duplicate(), false);
    broker.connect(Some(101), publisher.duplicate(), false);
    broker.subscribe(subscribe_packet(1, "t", 1), sub.duplicate());
    broker.publish(publish_packet("t", b"x", 1, Some(7)), publisher.duplicate(), 100);
    let sent = match broker.poll_job() {
        PollResponse::Publish(job, ctx) => {
            let mut delivery = PublishDelivery::new(
                ctx.packet.qos,
                job.message.message_uuid,
                job.message.message_id,
                job.queue.subscribers,
            );
            deliver(&mut delivery, &[2]);
            match delivery.outcome() {
                WorkerRequest::MarkSent(sent) => sent,
                other => panic!("expected a sent report: {:?}", other),
            }
        },
        other => panic!("expected a publish job: {:?}", other),
    };
    assert!(broker.mark_sent(sent, 101));

    // The process dies before the PUBACK arrives; the log survives as bytes.
    let blob = encode_wal(&broker.wal);
    let replayed = decode_wal(blob.as_slice()).expect("the log must decode at boot");
    let mut rebooted = CoordinatorState::recover(&replayed);

    // The message is back, marked sent, and is not delivered again.
    assert!(matches!(rebooted.poll_job(), PollResponse::NoJob));

    // The publisher returns and the late PUBACK completes the cycle.
    rebooted.connect(Some(101), publisher.duplicate(), false);
    assert!(rebooted.confirm(
        ConfirmationPacket { cmd: ControlPacketType::Puback, message_id: 7 },
        sub.duplicate(),
        102,
    ));
    match rebooted.poll_job() {
        PollResponse::Confirmation(confirm, _ctx) => {
            let release = confirmation_followup(&confirm, 1).expect("QoS 1 releases here");
            assert!(rebooted.release_message(release, 103));
        },
        other => panic!("expected the queued acknowledgement: {:?}", other),
    }
    assert!(matches!(rebooted.poll_job(), PollResponse::NoJob));
}

#[test]
fn repeated_puback_releases_once() {
    let mut broker = CoordinatorState::new();
    let sub = writer("sub1", Some(2), 11, false);
    let publisher = writer("pub1", Some(1), 10, false);
    broker.connect(Some(102), sub.duplicate(), true);
    broker.connect(Some(101), publisher.duplicate(), true);
    broker.subscribe(subscribe_packet(1, "a/b", 1), sub.duplicate());
    broker.publish(publish_packet("a/b", b"x", 1, Some(7)), publisher.duplicate(), 100);
    let sent = match broker.poll_job() {
        PollResponse::Publish(job, ctx) => {
            let mut delivery = PublishDelivery::new(
                ctx.packet.qos,
                job.message.message_uuid,
                job.message.message_id,
                job.queue.subscribers,
            );
            deliver(&mut delivery, &[2]);
            match delivery.outcome() {
                WorkerRequest::MarkSent(sent) => sent,
                other => panic!("expected a sent report: {:?}", other),
            }
        },
        other => panic!("expected a publish job: {:?}", other),
    };
    assert!(broker.mark_sent(sent, 101));

    // The same PUBACK arrives twice.
    let puback = ConfirmationPacket { cmd: ControlPacketType::Puback, message_id: 7 };
    assert!(broker.confirm(puback, sub.duplicate(), 102));
    assert!(broker.confirm(puback, sub.duplicate(), 103));

    // Only one acknowledgement is ever served; the duplicate stays skipped.
    match broker.poll_job() {
        PollResponse::Confirmation(confirm, _ctx) => {
            let release = confirmation_followup(&confirm, 1).expect("QoS 1 releases here");
            assert!(broker.release_message(release, 104));
        },
        other => panic!("expected the queued acknowledgement: {:?}", other),
    }
    assert!(matches!(broker.poll_job(), PollResponse::NoJob));

    let completed = broker.wal.iter().filter(|e| matches!(e, Entry::Completed(_))).count();
    assert_eq!(completed, 1, "one release, one completion record");
}

#[test]
fn inactive_subscriber_leaves_the_queue() {
    let mut broker = CoordinatorState::new();
    let dead_sub = writer("sub1", Some(2), 11, false);
    let live_sub = writer("sub2", Some(3), 12, false);
    let publisher = writer("pub1", Some(1), 10, false);
    broker.connect(Some(102), dead_sub.duplicate(), true);
    broker.connect(Some(103), live_sub.duplicate(), true);
    broker.connect(Some(101), publisher.duplicate(), true);
    broker.subscribe(subscribe_packet(1, "a/b", 1), dead_sub.duplicate());
    broker.subscribe(subscribe_packet(2, "a/b", 1), live_sub.duplicate());

    broker.publish(publish_packet("a/b", b"x", 1, Some(7)), publisher.duplicate(), 100);
    let sent = match broker.poll_job() {
        PollResponse::Publish(job, ctx) => {
            assert_eq!(job.queue.subscribers.len(), 2);
            let mut delivery = PublishDelivery::new(
                ctx.packet.qos,
                job.message.message_uuid,
                job.message.message_id,
                job.queue.subscribers,
            );
            // Only the second subscriber's writer accepts.
            assert_eq!(deliver(&mut delivery, &[3]), 1);
            match delivery.outcome() {
                WorkerRequest::MarkSent(sent) => sent,
                other => panic!("expected a sent report: {:?}", other),
            }
        },
        other => panic!("expected a publish job: {:?}", other),
    };
    assert!(broker.mark_sent(sent, 101));

    // The dead writer is gone from the queue; a later job omits it.
    broker.publish(publish_packet("a/b", b"y", 1, Some(8)), publisher.duplicate(), 102);
    match broker.poll_job() {
        PollResponse::Publish(job, _ctx) => {
            assert_eq!(job.queue.subscribers.len(), 1);
            assert_eq!(job.queue.subscribers[0].client_id, "sub2");
        },
        other => panic!("expected the second publish job: {:?}", other),
    }
}

#[test]
fn qos2_payload_reaches_one_subscriber() {
    let mut broker = CoordinatorState::new();
    let sub_a = writer("sub1", Some(2), 11, false);
    let sub_b = writer("sub2", Some(3), 12, false);
    let publisher = writer("pub1", Some(1), 10, false);
    broker.connect(Some(102), sub_a.duplicate(), true);
    broker.connect(Some(103), sub_b.duplicate(), true);
    broker.connect(Some(101), publisher.duplicate(), true);
    broker.subscribe(subscribe_packet(1, "a/b", 2), sub_a.duplicate());
    broker.subscribe(subscribe_packet(2, "a/b", 2), sub_b.duplicate());

    broker.publish(publish_packet("a/b", b"x", 2, Some(9)), publisher.duplicate(), 100);
    match broker.poll_job() {
        PollResponse::Publish(job, ctx) => {
            assert_eq!(job.queue.subscribers.len(), 2);
            let mut delivery = PublishDelivery::new(
                ctx.packet.qos,
                job.message.message_uuid,
                job.message.message_id,
                job.queue.subscribers,
            );
            // Both writers would accept, but the round stops at the first.
            assert_eq!(deliver(&mut delivery, &[2, 3]), 1);
        },
        other => panic!("expected a publish job: {:?}", other),
    }
}

#[test]
fn completion_job_carries_the_receiver() {
    let mut broker = CoordinatorState::new();
    let sub = writer("sub1", Some(2), 11, false);
    let publisher = writer("pub1", Some(1), 10, false);
    broker.connect(Some(102), sub.duplicate(), true);
    broker.connect(Some(101), publisher.duplicate(), true);
    broker.subscribe(subscribe_packet(1, "a/b", 2), sub.duplicate());
    broker.publish(publish_packet("a/b", b"x", 2, Some(9)), publisher.duplicate(), 100);
    let (uuid, sent) = match broker.poll_job() {
        PollResponse::Publish(job, ctx) => {
            let uuid = job.message.message_uuid;
            let mut delivery = PublishDelivery::new(
                ctx.packet.qos,
                job.message.message_uuid,
                job.message.message_id,
                job.queue.subscribers,
            );
            deliver(&mut delivery, &[2]);
            match delivery.outcome() {
                WorkerRequest::MarkSent(sent) => (uuid, sent),
                other => panic!("expected a sent report: {:?}", other),
            }
        },
        other => panic!("expected a publish job: {:?}", other),
    };
    assert!(broker.mark_sent(sent, 101));

    // A completion can be queued while the context lives.
    assert!(broker.complete_message(Complete(uuid, 9)));
    // Clear the pending PUBREC first, then take the completion.
    assert!(matches!(broker.poll_job(), PollResponse::Confirmation(_, _)));
    match broker.poll_job() {
        PollResponse::Complete(complete, _ctx) => {
            assert_eq!(complete.receiver.writer.client_id, "sub1");
            let release = release_after_completion(&complete);
            assert!(broker.release_message(release, 102));
        },
        other => panic!("expected the queued completion: {:?}", other),
    }
}

#[test]
fn metrics_track_the_lifecycle() {
    let mut broker = CoordinatorState::new();
    broker.connect(Some(101), writer("a", Some(1), 1, false), true);
    broker.connect(Some(102), writer("b", Some(2), 2, false), true);
    broker.disconnect("a");
    assert_eq!(broker.metrics.connected_clients, 1);
    broker.metrics.track_packet();
    broker.metrics.track_packet();
    assert_eq!(broker.metrics.received_packets, 2);
    broker.metrics.track_active_queue(ActiveQueue::Create);
    assert_eq!(broker.metrics.active_queues, 1);
    broker.metrics.track_delivery_time(1, 25);
    broker.metrics.track_delivery_time(1, 5);
    let snapshot = broker.metrics.gather();
    assert_eq!(snapshot.qos1_delivery_time.count, 2);
    assert_eq!(snapshot.qos1_delivery_time.sum_ms, 30);
    assert_eq!(snapshot.qos0_delivery_time.count, 0);
}

#[test]
fn catch_all_reaches_empty_level_topics() {
    let mut broker = CoordinatorState::new();
    let sub = writer("sub1", Some(2), 11, false);
    let publisher = writer("pub1", Some(1), 10, false);
    broker.connect(Some(102), sub.duplicate(), true);
    broker.connect(Some(101), publisher.duplicate(), true);
    broker.subscribe(subscribe_packet(1, "#", 0), sub.duplicate());

    // A topic with an empty final level is a topic; the catch-all covers it.
    broker.publish(publish_packet("finance/", b"hi", 0, None), publisher.duplicate(), 100);
    match broker.poll_job() {
        PollResponse::Publish(job, _ctx) => {
            assert_eq!(job.queue.subscribers.len(), 1);
            assert_eq!(job.queue.subscribers[0].client_id, "sub1");
        },
        other => panic!("expected a publish job: {:?}", other),
    }
}

#[test]
fn duplicate_pubrel_alone_releases_nothing() {
    let mut broker = CoordinatorState::new();
    let sub = writer("sub1", Some(2), 11, false);
    let publisher = writer("pub1", Some(1), 10, false);
    broker.connect(Some(102), sub.duplicate(), true);
    broker.connect(Some(101), publisher.duplicate(), true);
    broker.subscribe(subscribe_packet(1, "a/b", 2), sub.duplicate());
    broker.publish(publish_packet("a/b", b"x", 2, Some(9)), publisher.duplicate(), 100);

    // The publisher repeats PUBREL, but no PUBREC ever arrived: the release
    // pair is still missing its subscriber half, so no release job appears.
    let pubrel = ConfirmationPacket { cmd: ControlPacketType::Pubrel, message_id: 9 };
    assert!(broker.confirm(pubrel, publisher.duplicate(), 101));
    assert!(broker.confirm(pubrel, publisher.duplicate(), 102));
    // The untouched publish job is served; nothing else is.
    assert!(matches!(broker.poll_job(), PollResponse::Publish(_, _)));
    assert!(matches!(broker.poll_job(), PollResponse::NoJob));
}

#[test]
fn unknown_confirmation_is_ignored() {
    let mut broker = CoordinatorState::new();
    let sub = writer("sub1", Some(2), 11, false);
    // No message maps this identifier: the handler declines quietly.
    assert!(!broker.confirm(
        ConfirmationPacket { cmd: ControlPacketType::Puback, message_id: 42 },
        sub,
        100,
    ));
    assert!(broker.wal.is_empty());
}
