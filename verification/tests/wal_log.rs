//! The write-ahead log's byte form: every record kind survives the trip
//! through encoding, base64 framing and decoding.

use mqtt_broker::packets::PublishPacket;
use mqtt_broker::wal::{
    decode_wal, encode_wal, encode_wal_line, AcceptedEntry, CompleteEntry, DeletedEntry, Entry,
    PublishEntry, SentEntry, SessionData,
};
use mqtt_broker::codec::ControlPacketType;

fn sample_entries() -> Vec<Entry> {
    vec![
        Entry::Publish(PublishEntry {
            uuid: 7,
            received_at: 100,
            packet: PublishPacket {
                topic: "a/b".to_string(),
                payload: b"x".to_vec(),
                qos: 1,
                message_id: Some(7),
                dup: false,
                retain: false,
            },
            client_id: "pub1".to_string(),
            session: SessionData { uuid: 9, is_persistent: true },
        }),
        Entry::Sent(SentEntry { uuid: 7, sent_at: 101 }),
        Entry::Accepted(AcceptedEntry {
            uuid: 7,
            accepted_at: 102,
            cmd: ControlPacketType::Puback,
            message_id: 7,
        }),
        Entry::Deleted(DeletedEntry { uuid: 7, deleted_at: 103 }),
        Entry::Completed(CompleteEntry { uuid: 7, completed_at: 104 }),
    ]
}

fn entries_equal(a: &Entry, b: &Entry) -> bool {
    match (a, b) {
        (Entry::Publish(x), Entry::Publish(y)) => {
            x.uuid == y.uuid && x.received_at == y.received_at && x.client_id == y.client_id
                && x.session == y.session && x.packet.topic == y.packet.topic
                && x.packet.payload == y.packet.payload && x.packet.qos == y.packet.qos
                && x.packet.message_id == y.packet.message_id && x.packet.dup == y.packet.dup
                && x.packet.retain == y.packet.retain
        },
        (Entry::Accepted(x), Entry::Accepted(y)) => x == y,
        (Entry::Sent(x), Entry::Sent(y)) => x == y,
        (Entry::Deleted(x), Entry::Deleted(y)) => x == y,
        (Entry::Completed(x), Entry::Completed(y)) => x == y,
        _ => false,
    }
}

#[test]
fn log_round_trip() {
    let entries = sample_entries();
    let blob = encode_wal(&entries);
    let decoded = decode_wal(blob.as_slice()).expect("a written log must decode");
    assert_eq!(decoded.len(), entries.len());
    for (a, b) in entries.iter().zip(decoded.iter()) {
        assert!(entries_equal(a, b));
    }
}

#[test]
fn empty_log_round_trip() {
    let blob = encode_wal(&Vec::new());
    assert!(blob.is_empty());
    let decoded = decode_wal(blob.as_slice()).expect("an empty log must decode");
    assert!(decoded.is_empty());
}

#[test]
fn log_lines_are_framed() {
    let entries = sample_entries();
    let line = encode_wal_line(&entries[1]);
    // Type tag first, newline last, and no newline in between.
    assert_eq!(line[0], 3);
    assert_eq!(*line.last().unwrap(), b'\n');
    assert!(line[..line.len() - 1].iter().all(|b| *b != b'\n'));
}

#[test]
fn newline_bytes_in_records_survive_framing() {
    // These values put newline bytes inside the raw record body, so the
    // round trip holds only because the body travels as base64 text.
    let entries = vec![
        Entry::Sent(SentEntry { uuid: 10, sent_at: 2570 }),
        Entry::Deleted(DeletedEntry { uuid: 0x0A0A_0A0A, deleted_at: 10 }),
    ];
    let blob = encode_wal(&entries);
    assert_eq!(blob.iter().filter(|b| **b == b'\n').count(), 2, "one newline per line");
    let decoded = decode_wal(blob.as_slice()).expect("the framed log must decode");
    assert_eq!(decoded.len(), 2);
    for (a, b) in entries.iter().zip(decoded.iter()) {
        assert!(entries_equal(a, b));
    }
}

#[test]
fn corrupt_log_is_refused() {
    let entries = sample_entries();
    let mut blob = encode_wal(&entries);
    // Cut the final newline: the log no longer parses.
    blob.pop();
    assert!(decode_wal(blob.as_slice()).is_none());
    assert!(decode_wal(b"\x07not base64\n".as_slice()).is_none());
}
