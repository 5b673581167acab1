//! The write-ahead log: entry records, their byte form, and the line-framed
//! log blob. An entry body is a flat byte encoding; a log line is a one-byte
//! type tag, the base64 text of the body, and a newline.

use vstd::prelude::*;

verus! {

use vstd::bytes::{
    spec_u16_to_le_bytes,
    spec_u16_from_le_bytes,
    spec_u64_to_le_bytes,
    spec_u64_from_le_bytes,
    spec_u128_to_le_bytes,
    spec_u128_from_le_bytes,
    lemma_auto_spec_u16_to_from_le_bytes,
    lemma_auto_spec_u64_to_from_le_bytes,
    lemma_auto_spec_u128_to_from_le_bytes,
    u16_to_le_bytes,
    u16_from_le_bytes,
    u64_to_le_bytes,
    u64_from_le_bytes,
    u128_to_le_bytes,
    u128_from_le_bytes,
};
use vstd::utf8::{valid_utf8, encode_utf8, decode_utf8};
use crate::codec::{
    ControlPacketType,
    spec_packet_code,
    spec_packet_type_of,
    lemma_packet_code_inverse,
    string_bytes,
};
use crate::packets::{ConfirmationPacket, PublishPacket, PublishPacketView};

/// Session identity recorded with a logged PUBLISH.
#[derive(Clone, Copy, Debug, PartialEq, Eq, Structural)]
pub struct SessionData {
    pub uuid: u128,
    pub is_persistent: bool,
}

/// A logged PUBLISH: the admitted packet and who sent it.
#[derive(Debug)]
pub struct PublishEntry {
    pub uuid: u128,
    pub received_at: u64,
    pub packet: PublishPacket,
    pub client_id: String,
    pub session: SessionData,
}

/// The ghost value of a `PublishEntry`.
#[verifier::ext_equal]
pub ghost struct PublishEntryView {
    pub uuid: u128,
    pub received_at: u64,
    pub packet: PublishPacketView,
    pub client_id: Seq<char>,
    pub session: SessionData,
}

impl View for PublishEntry {
    type V = PublishEntryView;

    open spec fn view(&self) -> PublishEntryView {
        PublishEntryView {
            uuid: self.uuid,
            received_at: self.received_at,
            packet: self.packet@,
            client_id: self.client_id@,
            session: self.session,
        }
    }
}

/// A logged acknowledgement a subscriber or publisher sent.
#[derive(Clone, Copy, Debug, PartialEq, Eq, Structural)]
pub struct AcceptedEntry {
    pub uuid: u128,
    pub accepted_at: u64,
    pub cmd: ControlPacketType,
    pub message_id: u16,
}

/// A logged delivery: the message reached its subscribers' egress.
#[derive(Clone, Copy, Debug, PartialEq, Eq, Structural)]
pub struct SentEntry {
    pub uuid: u128,
    pub sent_at: u64,
}

/// A logged deletion: the broker-side copy may be dropped.
#[derive(Clone, Copy, Debug, PartialEq, Eq, Structural)]
pub struct DeletedEntry {
    pub uuid: u128,
    pub deleted_at: u64,
}

/// A logged completion: the whole QoS flow finished.
#[derive(Clone, Copy, Debug, PartialEq, Eq, Structural)]
pub struct CompleteEntry {
    pub uuid: u128,
    pub completed_at: u64,
}

/// One write-ahead-log record.
#[derive(Debug)]
pub enum Entry {
    Publish(PublishEntry),
    Accepted(AcceptedEntry),
    Sent(SentEntry),
    Deleted(DeletedEntry),
    Completed(CompleteEntry),
}

/// The ghost value of an `Entry`.
#[verifier::ext_equal]
pub ghost enum EntryView {
    Publish(PublishEntryView),
    Accepted(AcceptedEntry),
    Sent(SentEntry),
    Deleted(DeletedEntry),
    Completed(CompleteEntry),
}

impl View for Entry {
    type V = EntryView;

    open spec fn view(&self) -> EntryView {
        match self {
            Entry::Publish(e) => EntryView::Publish(e@),
            Entry::Accepted(e) => EntryView::Accepted(*e),
            Entry::Sent(e) => EntryView::Sent(*e),
            Entry::Deleted(e) => EntryView::Deleted(*e),
            Entry::Completed(e) => EntryView::Completed(*e),
        }
    }
}

/// The ghost value of an entry list.
pub open spec fn entries_view(v: Seq<Entry>) -> Seq<EntryView> {
    v.map_values(|e: Entry| e@)
}

/// The one-byte record type tag.
pub open spec fn entry_tag(v: EntryView) -> u8 {
    match v {
        EntryView::Publish(_) => 1,
        EntryView::Accepted(_) => 2,
        EntryView::Sent(_) => 3,
        EntryView::Deleted(_) => 4,
        EntryView::Completed(_) => 5,
    }
}

/// Byte form of a boolean.
pub open spec fn spec_enc_bool(b: bool) -> Seq<u8> {
    if b {
        seq![1u8]
    } else {
        seq![0u8]
    }
}

/// Byte form of a length-prefixed byte string.
pub open spec fn spec_enc_bytes(b: Seq<u8>) -> Seq<u8> {
    spec_u64_to_le_bytes(b.len() as u64) + b
}

/// Byte form of a length-prefixed UTF-8 string.
pub open spec fn spec_enc_str(s: Seq<char>) -> Seq<u8> {
    spec_enc_bytes(encode_utf8(s))
}

/// Byte form of an optional packet identifier.
pub open spec fn spec_enc_opt_u16(o: Option<u16>) -> Seq<u8> {
    match o {
        None => seq![0u8],
        Some(v) => seq![1u8] + spec_u16_to_le_bytes(v),
    }
}

/// The body bytes of a record (the tag is framed separately). The pieces
/// are grouped from the right, matching how decoding peels them off.
pub open spec fn spec_encode_entry(v: EntryView) -> Seq<u8> {
    match v {
        EntryView::Publish(e) => spec_u128_to_le_bytes(e.uuid) + (spec_u64_to_le_bytes(
            e.received_at,
        ) + (spec_enc_str(e.packet.topic) + (spec_enc_bytes(e.packet.payload) + (seq![e.packet.qos]
            + (spec_enc_opt_u16(e.packet.message_id) + (spec_enc_bool(e.packet.dup) + (
        spec_enc_bool(e.packet.retain) + (spec_enc_str(e.client_id) + (spec_u128_to_le_bytes(
            e.session.uuid,
        ) + spec_enc_bool(e.session.is_persistent)))))))))),
        EntryView::Accepted(e) => spec_u128_to_le_bytes(e.uuid) + (spec_u64_to_le_bytes(
            e.accepted_at,
        ) + (seq![spec_packet_code(e.cmd)] + spec_u16_to_le_bytes(e.message_id))),
        EntryView::Sent(e) => spec_u128_to_le_bytes(e.uuid) + spec_u64_to_le_bytes(e.sent_at),
        EntryView::Deleted(e) => spec_u128_to_le_bytes(e.uuid) + spec_u64_to_le_bytes(e.deleted_at),
        EntryView::Completed(e) => spec_u128_to_le_bytes(e.uuid) + spec_u64_to_le_bytes(
            e.completed_at,
        ),
    }
}

/// Read a `u128` from the front.
pub open spec fn spec_dec_u128(s: Seq<u8>) -> Option<(u128, Seq<u8>)> {
    if s.len() >= 16 {
        Some((spec_u128_from_le_bytes(s.subrange(0, 16)), s.skip(16)))
    } else {
        None
    }
}

/// Read a `u64` from the front.
pub open spec fn spec_dec_u64(s: Seq<u8>) -> Option<(u64, Seq<u8>)> {
    if s.len() >= 8 {
        Some((spec_u64_from_le_bytes(s.subrange(0, 8)), s.skip(8)))
    } else {
        None
    }
}

/// Read a `u16` from the front.
pub open spec fn spec_dec_u16(s: Seq<u8>) -> Option<(u16, Seq<u8>)> {
    if s.len() >= 2 {
        Some((spec_u16_from_le_bytes(s.subrange(0, 2)), s.skip(2)))
    } else {
        None
    }
}

/// Read one byte from the front.
pub open spec fn spec_dec_u8(s: Seq<u8>) -> Option<(u8, Seq<u8>)> {
    if s.len() >= 1 {
        Some((s[0], s.skip(1)))
    } else {
        None
    }
}

/// Read a strict boolean byte from the front.
pub open spec fn spec_dec_bool(s: Seq<u8>) -> Option<(bool, Seq<u8>)> {
    if s.len() >= 1 && (s[0] == 0 || s[0] == 1) {
        Some((s[0] == 1, s.skip(1)))
    } else {
        None
    }
}

/// Read a length-prefixed byte string from the front.
pub open spec fn spec_dec_bytes(s: Seq<u8>) -> Option<(Seq<u8>, Seq<u8>)> {
    match spec_dec_u64(s) {
        None => None,
        Some((n, rest)) => {
            if rest.len() >= n {
                Some((rest.subrange(0, n as int), rest.skip(n as int)))
            } else {
                None
            }
        },
    }
}

/// Read a length-prefixed UTF-8 string from the front.
pub open spec fn spec_dec_str(s: Seq<u8>) -> Option<(Seq<char>, Seq<u8>)> {
    match spec_dec_bytes(s) {
        None => None,
        Some((b, rest)) => {
            if valid_utf8(b) {
                Some((decode_utf8(b), rest))
            } else {
                None
            }
        },
    }
}

/// Read an optional packet identifier from the front.
pub open spec fn spec_dec_opt_u16(s: Seq<u8>) -> Option<(Option<u16>, Seq<u8>)> {
    if s.len() >= 1 && s[0] == 0 {
        Some((None, s.skip(1)))
    } else if s.len() >= 1 && s[0] == 1 {
        match spec_dec_u16(s.skip(1)) {
            None => None,
            Some((v, rest)) => Some((Some(v), rest)),
        }
    } else {
        None
    }
}

/// Decode a record body for a type tag; the body must be consumed whole.
pub open spec fn spec_decode_entry(tag: u8, body: Seq<u8>) -> Option<EntryView> {
    if tag == 1 {
        match spec_dec_u128(body) {
            None => None,
            Some((uuid, r1)) => match spec_dec_u64(r1) {
                None => None,
                Some((received_at, r2)) => match spec_dec_str(r2) {
                    None => None,
                    Some((topic, r3)) => match spec_dec_bytes(r3) {
                        None => None,
                        Some((payload, r4)) => match spec_dec_u8(r4) {
                            None => None,
                            Some((qos, r5)) => match spec_dec_opt_u16(r5) {
                                None => None,
                                Some((message_id, r6)) => match spec_dec_bool(r6) {
                                    None => None,
                                    Some((dup, r7)) => match spec_dec_bool(r7) {
                                        None => None,
                                        Some((retain, r8)) => match spec_dec_str(r8) {
                                            None => None,
                                            Some((client_id, r9)) => match spec_dec_u128(r9) {
                                                None => None,
                                                Some((session_uuid, r10)) => match spec_dec_bool(
                                                    r10,
                                                ) {
                                                    None => None,
                                                    Some((is_persistent, r11)) => {
                                                        if r11.len() == 0 {
                                                            Some(
                                                                EntryView::Publish(
                                                                    PublishEntryView {
                                                                        uuid,
                                                                        received_at,
                                                                        packet: PublishPacketView {
                                                                            topic,
                                                                            payload,
                                                                            qos,
                                                                            message_id,
                                                                            dup,
                                                                            retain,
                                                                        },
                                                                        client_id,
                                                                        session: SessionData {
                                                                            uuid: session_uuid,
                                                                            is_persistent,
                                                                        },
                                                                    },
                                                                ),
                                                            )
                                                        } else {
                                                            None
                                                        }
                                                    },
                                                },
                                            },
                                        },
                                    },
                                },
                            },
                        },
                    },
                },
            },
        }
    } else if tag == 2 {
        match spec_dec_u128(body) {
            None => None,
            Some((uuid, r1)) => match spec_dec_u64(r1) {
                None => None,
                Some((accepted_at, r2)) => match spec_dec_u8(r2) {
                    None => None,
                    Some((code, r3)) => {
                        if code > 15 {
                            None
                        } else {
                            match spec_dec_u16(r3) {
                                None => None,
                                Some((message_id, r4)) => {
                                    if r4.len() == 0 {
                                        Some(
                                            EntryView::Accepted(
                                                AcceptedEntry {
                                                    uuid,
                                                    accepted_at,
                                                    cmd: spec_packet_type_of(code as int),
                                                    message_id,
                                                },
                                            ),
                                        )
                                    } else {
                                        None
                                    }
                                },
                            }
                        }
                    },
                },
            },
        }
    } else if tag == 3 || tag == 4 || tag == 5 {
        match spec_dec_u128(body) {
            None => None,
            Some((uuid, r1)) => match spec_dec_u64(r1) {
                None => None,
                Some((at, r2)) => {
                    if r2.len() == 0 {
                        if tag == 3 {
                            Some(EntryView::Sent(SentEntry { uuid, sent_at: at }))
                        } else if tag == 4 {
                            Some(EntryView::Deleted(DeletedEntry { uuid, deleted_at: at }))
                        } else {
                            Some(EntryView::Completed(CompleteEntry { uuid, completed_at: at }))
                        }
                    } else {
                        None
                    }
                },
            },
        }
    } else {
        None
    }
}

/// Reading a `u128` back off its encoding.
proof fn lemma_dec_u128(x: u128, rest: Seq<u8>)
    ensures
        spec_dec_u128(spec_u128_to_le_bytes(x) + rest) == Some((x, rest)),
{
    lemma_auto_spec_u128_to_from_le_bytes();
    let s = spec_u128_to_le_bytes(x) + rest;
    assert(s.subrange(0, 16) =~= spec_u128_to_le_bytes(x));
    assert(s.skip(16) =~= rest);
}

/// Reading a `u64` back off its encoding.
proof fn lemma_dec_u64(x: u64, rest: Seq<u8>)
    ensures
        spec_dec_u64(spec_u64_to_le_bytes(x) + rest) == Some((x, rest)),
{
    lemma_auto_spec_u64_to_from_le_bytes();
    let s = spec_u64_to_le_bytes(x) + rest;
    assert(s.subrange(0, 8) =~= spec_u64_to_le_bytes(x));
    assert(s.skip(8) =~= rest);
}

/// Reading a `u16` back off its encoding.
proof fn lemma_dec_u16(x: u16, rest: Seq<u8>)
    ensures
        spec_dec_u16(spec_u16_to_le_bytes(x) + rest) == Some((x, rest)),
{
    lemma_auto_spec_u16_to_from_le_bytes();
    let s = spec_u16_to_le_bytes(x) + rest;
    assert(s.subrange(0, 2) =~= spec_u16_to_le_bytes(x));
    assert(s.skip(2) =~= rest);
}

/// Reading a byte back off its encoding.
proof fn lemma_dec_u8(x: u8, rest: Seq<u8>)
    ensures
        spec_dec_u8(seq![x] + rest) == Some((x, rest)),
{
    let s = seq![x] + rest;
    assert(s[0] == x);
    assert(s.skip(1) =~= rest);
}

/// Reading a boolean back off its encoding.
proof fn lemma_dec_bool(b: bool, rest: Seq<u8>)
    ensures
        spec_dec_bool(spec_enc_bool(b) + rest) == Some((b, rest)),
{
    let s = spec_enc_bool(b) + rest;
    assert(s[0] == (if b {
        1u8
    } else {
        0u8
    }));
    assert(s.skip(1) =~= rest);
}

/// Reading a byte string back off its encoding.
proof fn lemma_dec_bytes(b: Seq<u8>, rest: Seq<u8>)
    requires
        b.len() <= u64::MAX,
    ensures
        spec_dec_bytes(spec_enc_bytes(b) + rest) == Some((b, rest)),
{
    let s = spec_enc_bytes(b) + rest;
    assert(spec_u64_to_le_bytes(b.len() as u64) + (b + rest) =~= s);
    lemma_dec_u64(b.len() as u64, b + rest);
    assert(spec_dec_u64(s) == Some((b.len() as u64, b + rest)));
    assert((b + rest).subrange(0, b.len() as int) =~= b);
    assert((b + rest).skip(b.len() as int) =~= rest);
}

/// Reading a string back off its encoding.
proof fn lemma_dec_str(cs: Seq<char>, rest: Seq<u8>)
    requires
        encode_utf8(cs).len() <= u64::MAX,
    ensures
        spec_dec_str(spec_enc_str(cs) + rest) == Some((cs, rest)),
{
    lemma_dec_bytes(encode_utf8(cs), rest);
    vstd::utf8::encode_utf8_valid_utf8(cs);
    vstd::utf8::encode_utf8_decode_utf8(cs);
}

/// Reading an optional identifier back off its encoding.
proof fn lemma_dec_opt_u16(o: Option<u16>, rest: Seq<u8>)
    ensures
        spec_dec_opt_u16(spec_enc_opt_u16(o) + rest) == Some((o, rest)),
{
    match o {
        None => {
            let s = spec_enc_opt_u16(o) + rest;
            assert(s[0] == 0);
            assert(s.skip(1) =~= rest);
        },
        Some(v) => {
            let s = spec_enc_opt_u16(o) + rest;
            assert(s[0] == 1);
            assert(s.skip(1) =~= spec_u16_to_le_bytes(v) + rest);
            lemma_dec_u16(v, rest);
        },
    }
}

/// Every byte string a record stores fits its length prefix.
pub open spec fn entry_wf(v: EntryView) -> bool {
    match v {
        EntryView::Publish(e) => encode_utf8(e.packet.topic).len() <= u64::MAX
            && e.packet.payload.len() <= u64::MAX && encode_utf8(e.client_id).len() <= u64::MAX,
        _ => true,
    }
}

/// Round trip for a logged PUBLISH record.
#[verifier::rlimit(100)]
#[verifier::spinoff_prover]
proof fn lemma_publish_round_trip(e: PublishEntryView)
    requires
        entry_wf(EntryView::Publish(e)),
    ensures
        spec_decode_entry(1, spec_encode_entry(EntryView::Publish(e))) == Some(
            EntryView::Publish(e),
        ),
{
    let v = EntryView::Publish(e);
    let body = spec_encode_entry(v);

            let t10 = spec_enc_bool(e.session.is_persistent);
            let t9 = spec_u128_to_le_bytes(e.session.uuid) + t10;
            let t8 = spec_enc_str(e.client_id) + t9;
            let t7 = spec_enc_bool(e.packet.retain) + t8;
            let t6 = spec_enc_bool(e.packet.dup) + t7;
            let t5 = spec_enc_opt_u16(e.packet.message_id) + t6;
            let t4 = seq![e.packet.qos] + t5;
            let t3 = spec_enc_bytes(e.packet.payload) + t4;
            let t2 = spec_enc_str(e.packet.topic) + t3;
            let t1 = spec_u64_to_le_bytes(e.received_at) + t2;
            let t0 = spec_u128_to_le_bytes(e.uuid) + t1;
            assert(body =~= t0);
            lemma_dec_u128(e.uuid, t1);
            assert(spec_dec_u128(body) == Some((e.uuid, t1)));
            lemma_dec_u64(e.received_at, t2);
            assert(spec_dec_u64(t1) == Some((e.received_at, t2)));
            lemma_dec_str(e.packet.topic, t3);
            assert(spec_dec_str(t2) == Some((e.packet.topic, t3)));
            lemma_dec_bytes(e.packet.payload, t4);
            assert(spec_dec_bytes(t3) == Some((e.packet.payload, t4)));
            lemma_dec_u8(e.packet.qos, t5);
            assert(spec_dec_u8(t4) == Some((e.packet.qos, t5)));
            lemma_dec_opt_u16(e.packet.message_id, t6);
            assert(spec_dec_opt_u16(t5) == Some((e.packet.message_id, t6)));
            lemma_dec_bool(e.packet.dup, t7);
            assert(spec_dec_bool(t6) == Some((e.packet.dup, t7)));
            lemma_dec_bool(e.packet.retain, t8);
            assert(spec_dec_bool(t7) == Some((e.packet.retain, t8)));
            lemma_dec_str(e.client_id, t9);
            assert(spec_dec_str(t8) == Some((e.client_id, t9)));
            lemma_dec_u128(e.session.uuid, t10);
            assert(spec_dec_u128(t9) == Some((e.session.uuid, t10)));
            lemma_dec_bool(e.session.is_persistent, Seq::empty());
            assert(t10 =~= spec_enc_bool(e.session.is_persistent) + Seq::<u8>::empty());
            assert(spec_dec_bool(t10) == Some((e.session.is_persistent, Seq::<u8>::empty())));
        
}

/// Round trip for a logged acknowledgement record.
#[verifier::rlimit(50)]
#[verifier::spinoff_prover]
proof fn lemma_accepted_round_trip(e: AcceptedEntry)
    ensures
        spec_decode_entry(2, spec_encode_entry(EntryView::Accepted(e))) == Some(
            EntryView::Accepted(e),
        ),
{
    let v = EntryView::Accepted(e);
    let body = spec_encode_entry(v);

            let t3 = spec_u16_to_le_bytes(e.message_id);
            let t2 = seq![spec_packet_code(e.cmd)] + t3;
            let t1 = spec_u64_to_le_bytes(e.accepted_at) + t2;
            let t0 = spec_u128_to_le_bytes(e.uuid) + t1;
            assert(body =~= t0);
            lemma_dec_u128(e.uuid, t1);
            lemma_dec_u64(e.accepted_at, t2);
            lemma_dec_u8(spec_packet_code(e.cmd), t3);
            lemma_dec_u16(e.message_id, Seq::empty());
            assert(t3 =~= spec_u16_to_le_bytes(e.message_id) + Seq::<u8>::empty());
            lemma_packet_code_inverse(e.cmd, spec_packet_code(e.cmd) as int);
        
}

/// The record codec inverts: decoding an encoded record gives it back.
/// This is the structural heart of the log round trip.
#[verifier::rlimit(50)]
#[verifier::spinoff_prover]
pub proof fn lemma_entry_round_trip(v: EntryView)
    requires
        entry_wf(v),
    ensures
        spec_decode_entry(entry_tag(v), spec_encode_entry(v)) == Some(v),
{
    let body = spec_encode_entry(v);
    match v {
        EntryView::Publish(e) => {
            lemma_publish_round_trip(e);
        },
        EntryView::Accepted(e) => {
            lemma_accepted_round_trip(e);
        },
EntryView::Sent(e) => {
            let t1 = spec_u64_to_le_bytes(e.sent_at);
            assert(body =~= spec_u128_to_le_bytes(e.uuid) + t1);
            lemma_dec_u128(e.uuid, t1);
            lemma_dec_u64(e.sent_at, Seq::empty());
            assert(t1 =~= spec_u64_to_le_bytes(e.sent_at) + Seq::<u8>::empty());
        },
        EntryView::Deleted(e) => {
            let t1 = spec_u64_to_le_bytes(e.deleted_at);
            assert(body =~= spec_u128_to_le_bytes(e.uuid) + t1);
            lemma_dec_u128(e.uuid, t1);
            lemma_dec_u64(e.deleted_at, Seq::empty());
            assert(t1 =~= spec_u64_to_le_bytes(e.deleted_at) + Seq::<u8>::empty());
        },
        EntryView::Completed(e) => {
            let t1 = spec_u64_to_le_bytes(e.completed_at);
            assert(body =~= spec_u128_to_le_bytes(e.uuid) + t1);
            lemma_dec_u128(e.uuid, t1);
            lemma_dec_u64(e.completed_at, Seq::empty());
            assert(t1 =~= spec_u64_to_le_bytes(e.completed_at) + Seq::<u8>::empty());
        },
    }
}


/// The base64 text of a byte string, as the `base64` crate's standard
/// alphabet writes it.
pub uninterp spec fn b64_of(data: Seq<u8>) -> Seq<u8>;

/// Relies on base64::encode: the standard-alphabet text of the input bytes,
/// an alphabet that holds no newline.
#[verifier::external_body]
fn b64_encode(data: &[u8]) -> (r: Vec<u8>)
    ensures
        r@ == b64_of(data@),
        forall|i: int| 0 <= i < r@.len() ==> r@[i] != 10u8,
{
    base64::encode(data).into_bytes()
}

/// Relies on base64::decode: it accepts every base64::encode output and
/// gives back exactly the bytes that were encoded.
#[verifier::external_body]
fn b64_decode(data: &[u8]) -> (r: Option<Vec<u8>>)
    ensures
        r is None ==> (forall|b: Seq<u8>| data@ != b64_of(b)),
        r matches Some(v) ==> (forall|b: Seq<u8>| data@ == b64_of(b) ==> v@ == b),
{
    match base64::decode(data) {
        Ok(v) => Some(v),
        Err(_) => None,
    }
}

/// The record type tag of this entry.
pub fn tag_of(e: &Entry) -> (r: u8)
    ensures
        r == entry_tag(e@),
{
    match e {
        Entry::Publish(_) => 1,
        Entry::Accepted(_) => 2,
        Entry::Sent(_) => 3,
        Entry::Deleted(_) => 4,
        Entry::Completed(_) => 5,
    }
}

/// Append a length-prefixed byte string.
fn push_bytes(out: &mut Vec<u8>, b: &[u8])
    ensures
        final(out)@ == old(out)@ + spec_enc_bytes(b@),
        b@.len() <= u64::MAX,
{
    let n = b.len();
    proof {
        assert(b@.len() == n);
    }
    let mut len_bytes = u64_to_le_bytes(n as u64);
    let ghost mid = out@ + len_bytes@;
    out.append(&mut len_bytes);
    let mut data = vstd::slice::slice_to_vec(b);
    out.append(&mut data);
    proof {
        assert(out@ =~= mid + b@);
        assert(out@ =~= old(out)@ + (spec_u64_to_le_bytes(b@.len() as u64) + b@));
    }
}

/// Append a string's bytes, length-prefixed.
fn push_str(out: &mut Vec<u8>, s: &str)
    ensures
        final(out)@ == old(out)@ + spec_enc_str(s@),
        encode_utf8(s@).len() <= u64::MAX,
{
    let b = s.as_bytes();
    push_bytes(out, b);
}

/// Append a boolean byte.
fn push_bool(out: &mut Vec<u8>, b: bool)
    ensures
        final(out)@ == old(out)@ + spec_enc_bool(b),
{
    out.push(if b {
        1
    } else {
        0
    });
    proof {
        assert(out@ =~= old(out)@ + spec_enc_bool(b));
    }
}

/// The body bytes of a record.
#[verifier::rlimit(50)]
#[verifier::spinoff_prover]
pub fn encode_entry_body(e: &Entry) -> (r: Vec<u8>)
    ensures
        r@ == spec_encode_entry(e@),
        entry_wf(e@),
{
    let mut out: Vec<u8> = Vec::new();
    match e {
        Entry::Publish(p) => {
            let mut uuid = u128_to_le_bytes(p.uuid);
            out.append(&mut uuid);
            let mut at = u64_to_le_bytes(p.received_at);
            out.append(&mut at);
            push_str(&mut out, p.packet.topic.as_str());
            push_bytes(&mut out, p.packet.payload.as_slice());
            out.push(p.packet.qos);
            proof {
                assert(out@ =~= spec_u128_to_le_bytes(p.uuid) + spec_u64_to_le_bytes(
                    p.received_at,
                ) + spec_enc_str(p.packet.topic@) + spec_enc_bytes(p.packet.payload@) + seq![
                    p.packet.qos,
                ]);
            }
            match p.packet.message_id {
                Some(v) => {
                    out.push(1);
                    let mut idb = u16_to_le_bytes(v);
                    out.append(&mut idb);
                    proof {
                        assert(spec_enc_opt_u16(p.packet.message_id) =~= seq![1u8]
                            + spec_u16_to_le_bytes(v));
                    }
                },
                None => {
                    out.push(0);
                },
            }
            push_bool(&mut out, p.packet.dup);
            push_bool(&mut out, p.packet.retain);
            push_str(&mut out, p.client_id.as_str());
            let mut suuid = u128_to_le_bytes(p.session.uuid);
            out.append(&mut suuid);
            push_bool(&mut out, p.session.is_persistent);
            proof {
                assert(out@ =~= spec_encode_entry(e@));
            }
        },
        Entry::Accepted(a) => {
            let mut uuid = u128_to_le_bytes(a.uuid);
            out.append(&mut uuid);
            let mut at = u64_to_le_bytes(a.accepted_at);
            out.append(&mut at);
            out.push(a.cmd.code());
            let mut idb = u16_to_le_bytes(a.message_id);
            out.append(&mut idb);
            proof {
                assert(out@ =~= spec_encode_entry(e@));
            }
        },
        Entry::Sent(a) => {
            let mut uuid = u128_to_le_bytes(a.uuid);
            out.append(&mut uuid);
            let mut at = u64_to_le_bytes(a.sent_at);
            out.append(&mut at);
            proof {
                assert(out@ =~= spec_encode_entry(e@));
            }
        },
        Entry::Deleted(a) => {
            let mut uuid = u128_to_le_bytes(a.uuid);
            out.append(&mut uuid);
            let mut at = u64_to_le_bytes(a.deleted_at);
            out.append(&mut at);
            proof {
                assert(out@ =~= spec_encode_entry(e@));
            }
        },
        Entry::Completed(a) => {
            let mut uuid = u128_to_le_bytes(a.uuid);
            out.append(&mut uuid);
            let mut at = u64_to_le_bytes(a.completed_at);
            out.append(&mut at);
            proof {
                assert(out@ =~= spec_encode_entry(e@));
            }
        },
    }
    out
}

/// Read a `u128` at a cursor.
fn dec_u128_at(body: &[u8], c: usize) -> (r: Option<(u128, usize)>)
    requires
        c <= body@.len(),
    ensures
        match spec_dec_u128(body@.skip(c as int)) {
            Some((x, rest)) => (r matches Some(p) && p.0 == x && p.1 == c + 16 && rest
                == body@.skip(c + 16)),
            None => r is None,
        },
{
    let ghost s = body@.skip(c as int);
    if body.len() - c >= 16 {
        let piece = vstd::slice::slice_subrange(body, c, c + 16);
        proof {
            assert(piece@ =~= s.subrange(0, 16));
            assert(s.skip(16) =~= body@.skip(c + 16));
        }
        let x = u128_from_le_bytes(piece);
        Some((x, c + 16))
    } else {
        None
    }
}

/// Read a `u64` at a cursor.
fn dec_u64_at(body: &[u8], c: usize) -> (r: Option<(u64, usize)>)
    requires
        c <= body@.len(),
    ensures
        match spec_dec_u64(body@.skip(c as int)) {
            Some((x, rest)) => (r matches Some(p) && p.0 == x && p.1 == c + 8 && rest
                == body@.skip(c + 8)),
            None => r is None,
        },
{
    let ghost s = body@.skip(c as int);
    if body.len() - c >= 8 {
        let piece = vstd::slice::slice_subrange(body, c, c + 8);
        proof {
            assert(piece@ =~= s.subrange(0, 8));
            assert(s.skip(8) =~= body@.skip(c + 8));
        }
        let x = u64_from_le_bytes(piece);
        Some((x, c + 8))
    } else {
        None
    }
}

/// Read a `u16` at a cursor.
fn dec_u16_at(body: &[u8], c: usize) -> (r: Option<(u16, usize)>)
    requires
        c <= body@.len(),
    ensures
        match spec_dec_u16(body@.skip(c as int)) {
            Some((x, rest)) => (r matches Some(p) && p.0 == x && p.1 == c + 2 && rest
                == body@.skip(c + 2)),
            None => r is None,
        },
{
    let ghost s = body@.skip(c as int);
    if body.len() - c >= 2 {
        let piece = vstd::slice::slice_subrange(body, c, c + 2);
        proof {
            assert(piece@ =~= s.subrange(0, 2));
            assert(s.skip(2) =~= body@.skip(c + 2));
        }
        let x = u16_from_le_bytes(piece);
        Some((x, c + 2))
    } else {
        None
    }
}

/// Read one byte at a cursor.
fn dec_u8_at(body: &[u8], c: usize) -> (r: Option<(u8, usize)>)
    requires
        c <= body@.len(),
    ensures
        match spec_dec_u8(body@.skip(c as int)) {
            Some((x, rest)) => (r matches Some(p) && p.0 == x && p.1 == c + 1 && rest
                == body@.skip(c + 1)),
            None => r is None,
        },
{
    let ghost s = body@.skip(c as int);
    if body.len() - c >= 1 {
        let x = body[c];
        proof {
            assert(s[0] == body@[c as int]);
            assert(s.skip(1) =~= body@.skip(c + 1));
        }
        Some((x, c + 1))
    } else {
        None
    }
}

/// Read a strict boolean byte at a cursor.
fn dec_bool_at(body: &[u8], c: usize) -> (r: Option<(bool, usize)>)
    requires
        c <= body@.len(),
    ensures
        match spec_dec_bool(body@.skip(c as int)) {
            Some((x, rest)) => (r matches Some(p) && p.0 == x && p.1 == c + 1 && rest
                == body@.skip(c + 1)),
            None => r is None,
        },
{
    let ghost s = body@.skip(c as int);
    if body.len() - c >= 1 && (body[c] == 0 || body[c] == 1) {
        proof {
            assert(s[0] == body@[c as int]);
            assert(s.skip(1) =~= body@.skip(c + 1));
        }
        Some((body[c] == 1, c + 1))
    } else {
        proof {
            if s.len() >= 1 {
                assert(s[0] == body@[c as int]);
            }
        }
        None
    }
}

/// Read a length-prefixed byte string at a cursor.
fn dec_bytes_at(body: &[u8], c: usize) -> (r: Option<(Vec<u8>, usize)>)
    requires
        c <= body@.len(),
    ensures
        match spec_dec_bytes(body@.skip(c as int)) {
            Some((b, rest)) => (r matches Some(p) && p.0@ == b && c <= p.1 <= body@.len() && rest
                == body@.skip(p.1 as int)),
            None => r is None,
        },
{
    let ghost s = body@.skip(c as int);
    let n_c = match dec_u64_at(body, c) {
        Some(p) => p,
        None => {
            return None;
        },
    };
    let n = n_c.0;
    let c2 = n_c.1;
    if (body.len() - c2) as u64 >= n {
        let nn = n as usize;
        let piece = vstd::slice::slice_subrange(body, c2, c2 + nn);
        let v = vstd::slice::slice_to_vec(piece);
        proof {
            let rest0 = body@.skip(c2 as int);
            assert(piece@ =~= rest0.subrange(0, n as int));
            assert(rest0.skip(n as int) =~= body@.skip(c2 + nn));
        }
        Some((v, c2 + nn))
    } else {
        None
    }
}

/// Read a length-prefixed UTF-8 string at a cursor.
fn dec_str_at(body: &[u8], c: usize) -> (r: Option<(String, usize)>)
    requires
        c <= body@.len(),
    ensures
        match spec_dec_str(body@.skip(c as int)) {
            Some((cs, rest)) => (r matches Some(p) && p.0@ == cs && c <= p.1 <= body@.len() && rest
                == body@.skip(p.1 as int)),
            None => r is None,
        },
{
    let b_c = match dec_bytes_at(body, c) {
        Some(p) => p,
        None => {
            return None;
        },
    };
    let ghost bv = b_c.0@;
    match crate::codec::string_from_utf8(b_c.0) {
        Some(s1) => {
            proof {
                vstd::utf8::encode_utf8_decode_utf8(s1@);
            }
            Some((s1, b_c.1))
        },
        None => None,
    }
}

/// Read an optional packet identifier at a cursor.
fn dec_opt_u16_at(body: &[u8], c: usize) -> (r: Option<(Option<u16>, usize)>)
    requires
        c <= body@.len(),
    ensures
        match spec_dec_opt_u16(body@.skip(c as int)) {
            Some((o, rest)) => (r matches Some(p) && p.0 == o && c <= p.1 <= body@.len() && rest
                == body@.skip(p.1 as int)),
            None => r is None,
        },
{
    let ghost s = body@.skip(c as int);
    if body.len() - c >= 1 && body[c] == 0 {
        proof {
            assert(s[0] == body@[c as int]);
            assert(s.skip(1) =~= body@.skip(c + 1));
        }
        Some((None, c + 1))
    } else if body.len() - c >= 1 && body[c] == 1 {
        proof {
            assert(s[0] == body@[c as int]);
            assert(s.skip(1) =~= body@.skip(c + 1));
        }
        match dec_u16_at(body, c + 1) {
            Some(p) => Some((Some(p.0), p.1)),
            None => None,
        }
    } else {
        proof {
            if s.len() >= 1 {
                assert(s[0] == body@[c as int]);
            }
        }
        None
    }
}

/// Decode a record body for a type tag; the body must be consumed whole.
#[verifier::rlimit(60)]
#[verifier::spinoff_prover]
pub fn decode_entry(tag: u8, body: &[u8]) -> (r: Option<Entry>)
    ensures
        match spec_decode_entry(tag, body@) {
            Some(v) => (r matches Some(e) && e@ == v),
            None => r is None,
        },
{
    proof {
        assert(body@.skip(0) =~= body@);
    }
    if tag == 1 {
        let (uuid, c1) = match dec_u128_at(body, 0) {
            Some(p) => p,
            None => {
                return None;
            },
        };
        let (received_at, c2) = match dec_u64_at(body, c1) {
            Some(p) => p,
            None => {
                return None;
            },
        };
        let (topic, c3) = match dec_str_at(body, c2) {
            Some(p) => p,
            None => {
                return None;
            },
        };
        let (payload, c4) = match dec_bytes_at(body, c3) {
            Some(p) => p,
            None => {
                return None;
            },
        };
        let (qos, c5) = match dec_u8_at(body, c4) {
            Some(p) => p,
            None => {
                return None;
            },
        };
        let (message_id, c6) = match dec_opt_u16_at(body, c5) {
            Some(p) => p,
            None => {
                return None;
            },
        };
        let (dup, c7) = match dec_bool_at(body, c6) {
            Some(p) => p,
            None => {
                return None;
            },
        };
        let (retain, c8) = match dec_bool_at(body, c7) {
            Some(p) => p,
            None => {
                return None;
            },
        };
        let (client_id, c9) = match dec_str_at(body, c8) {
            Some(p) => p,
            None => {
                return None;
            },
        };
        let (session_uuid, c10) = match dec_u128_at(body, c9) {
            Some(p) => p,
            None => {
                return None;
            },
        };
        let (is_persistent, c11) = match dec_bool_at(body, c10) {
            Some(p) => p,
            None => {
                return None;
            },
        };
        if c11 != body.len() {
            proof {
                assert(body@.skip(c11 as int).len() == body@.len() - c11);
            }
            return None;
        }
        proof {
            assert(body@.skip(c11 as int).len() == 0);
        }
        Some(
            Entry::Publish(
                PublishEntry {
                    uuid,
                    received_at,
                    packet: crate::packets::PublishPacket {
                        topic,
                        payload,
                        qos,
                        message_id,
                        dup,
                        retain,
                    },
                    client_id,
                    session: SessionData { uuid: session_uuid, is_persistent },
                },
            ),
        )
    } else if tag == 2 {
        let (uuid, c1) = match dec_u128_at(body, 0) {
            Some(p) => p,
            None => {
                return None;
            },
        };
        let (accepted_at, c2) = match dec_u64_at(body, c1) {
            Some(p) => p,
            None => {
                return None;
            },
        };
        let (code, c3) = match dec_u8_at(body, c2) {
            Some(p) => p,
            None => {
                return None;
            },
        };
        if code > 15 {
            return None;
        }
        let (message_id, c4) = match dec_u16_at(body, c3) {
            Some(p) => p,
            None => {
                return None;
            },
        };
        if c4 != body.len() {
            proof {
                assert(body@.skip(c4 as int).len() == body@.len() - c4);
            }
            return None;
        }
        proof {
            assert(body@.skip(c4 as int).len() == 0);
        }
        let cmd = crate::codec::ControlPacketType::from_code(code);
        Some(Entry::Accepted(AcceptedEntry { uuid, accepted_at, cmd, message_id }))
    } else if tag == 3 || tag == 4 || tag == 5 {
        let (uuid, c1) = match dec_u128_at(body, 0) {
            Some(p) => p,
            None => {
                return None;
            },
        };
        let (at, c2) = match dec_u64_at(body, c1) {
            Some(p) => p,
            None => {
                return None;
            },
        };
        if c2 != body.len() {
            proof {
                assert(body@.skip(c2 as int).len() == body@.len() - c2);
            }
            return None;
        }
        proof {
            assert(body@.skip(c2 as int).len() == 0);
        }
        if tag == 3 {
            Some(Entry::Sent(SentEntry { uuid, sent_at: at }))
        } else if tag == 4 {
            Some(Entry::Deleted(DeletedEntry { uuid, deleted_at: at }))
        } else {
            Some(Entry::Completed(CompleteEntry { uuid, completed_at: at }))
        }
    } else {
        None
    }
}


/// One log line: the type tag, the base64 text of the body, and a newline.
pub open spec fn wal_line(v: EntryView) -> Seq<u8> {
    seq![entry_tag(v)] + b64_of(spec_encode_entry(v)) + seq![10u8]
}

/// `bytes` is exactly the log of `es`: each record's line in order, every
/// line ending in the log's only newlines.
pub open spec fn wal_wf(bytes: Seq<u8>, es: Seq<EntryView>) -> bool
    decreases es.len(),
{
    if es.len() == 0 {
        bytes.len() == 0
    } else {
        let line = wal_line(es[0]);
        &&& entry_wf(es[0])
        &&& 2 <= line.len() <= bytes.len()
        &&& line.last() == 10
        &&& (forall|j: int| 0 <= j < line.len() - 1 ==> line[j] != 10)
        &&& bytes.subrange(0, line.len() as int) == line
        &&& wal_wf(bytes.skip(line.len() as int), es.drop_first())
    }
}

/// Encode one record as its log line.
pub fn encode_wal_line(e: &Entry) -> (r: Vec<u8>)
    ensures
        r@ == wal_line(e@),
        entry_wf(e@),
        2 <= r@.len(),
        r@.last() == 10,
        forall|j: int| 0 <= j < r@.len() - 1 ==> r@[j] != 10,
{
    let tag = tag_of(e);
    let body = encode_entry_body(e);
    let mut b64 = b64_encode(body.as_slice());
    let mut out: Vec<u8> = Vec::new();
    out.push(tag);
    out.append(&mut b64);
    out.push(10);
    proof {
        assert(out@ =~= wal_line(e@));
    }
    out
}

/// Two well-formed logs joined are the log of the joined entries.
proof fn lemma_wal_wf_concat(a: Seq<u8>, ea: Seq<EntryView>, b: Seq<u8>, eb: Seq<EntryView>)
    requires
        wal_wf(a, ea),
        wal_wf(b, eb),
    ensures
        wal_wf(a + b, ea + eb),
    decreases ea.len(),
{
    if ea.len() == 0 {
        assert(a + b =~= b);
        assert(ea + eb =~= eb);
    } else {
        let line = wal_line(ea[0]);
        lemma_wal_wf_concat(a.skip(line.len() as int), ea.drop_first(), b, eb);
        assert((a + b).subrange(0, line.len() as int) =~= a.subrange(0, line.len() as int));
        assert((a + b).skip(line.len() as int) =~= a.skip(line.len() as int) + b);
        assert((ea + eb).drop_first() =~= ea.drop_first() + eb);
        assert((ea + eb)[0] == ea[0]);
    }
}

/// Encode a whole log: each record's line, in order.
pub fn encode_wal(entries: &Vec<Entry>) -> (r: Vec<u8>)
    ensures
        wal_wf(r@, entries_view(entries@)),
{
    let mut out: Vec<u8> = Vec::new();
    let mut i: usize = 0;
    proof {
        assert(entries_view(entries@.subrange(0, 0)) =~= Seq::<EntryView>::empty());
    }
    while i < entries.len()
        invariant
            0 <= i <= entries@.len(),
            wal_wf(out@, entries_view(entries@.subrange(0, i as int))),
        decreases entries@.len() - i,
    {
        let ghost prev = out@;
        let ghost prev_es = entries_view(entries@.subrange(0, i as int));
        let mut line = encode_wal_line(&entries[i]);
        let ghost line_view = line@;
        let ghost e = entries@[i as int]@;
        proof {
            assert(line_view.subrange(0, line_view.len() as int) =~= line_view);
            assert(line_view.skip(line_view.len() as int) =~= Seq::<u8>::empty());
            assert(seq![e].drop_first() =~= Seq::<EntryView>::empty());
            assert(seq![e][0] == e);
            assert(seq![e].len() == 1);
            assert(wal_wf(Seq::<u8>::empty(), Seq::<EntryView>::empty()));
            assert(wal_wf(line_view.skip(line_view.len() as int), seq![e].drop_first()));
            assert(wal_wf(line_view, seq![e]));
            lemma_wal_wf_concat(prev, prev_es, line_view, seq![e]);
        }
        out.append(&mut line);
        i = i + 1;
        proof {
            assert(out@ =~= prev + line_view);
            assert(entries_view(entries@.subrange(0, i as int)) =~= prev_es + seq![e]);
        }
    }
    proof {
        assert(entries@.subrange(0, entries@.len() as int) =~= entries@);
    }
    out
}

/// The line partition a decoded log exhibits: one record per line, each line
/// ending in one of the log's only newlines and starting with its record's
/// type tag. The base64 text between them is pinned only in the encoding
/// direction, because the decoder under it also accepts unpadded text, so
/// one record can arrive from more than one text.
pub open spec fn wal_lines_shape(bytes: Seq<u8>, es: Seq<EntryView>) -> bool
    decreases es.len(),
{
    if es.len() == 0 {
        bytes.len() == 0
    } else {
        exists|n: int|
            #![trigger bytes.skip(n)]
            {
                &&& 2 <= n <= bytes.len()
                &&& bytes[n - 1] == 10
                &&& (forall|j: int| 0 <= j < n - 1 ==> bytes[j] != 10)
                &&& bytes[0] == entry_tag(es[0])
                &&& wal_lines_shape(bytes.skip(n), es.drop_first())
            }
    }
}

/// A decoded record carries the tag it was decoded under.
pub proof fn lemma_decode_entry_tag(tag: u8, body: Seq<u8>)
    ensures
        spec_decode_entry(tag, body) matches Some(v) ==> entry_tag(v) == tag,
{
}

/// What one well-formed line at `pos` pins down, given the scan that found
/// the first newline at `nl` (or none up to the end).
proof fn lemma_line_shape(bytes: Seq<u8>, pos: int, nl: int, es: Seq<EntryView>)
    requires
        0 <= pos < bytes.len(),
        pos <= nl <= bytes.len(),
        wal_wf(bytes.skip(pos), es),
        forall|j: int| pos <= j < nl ==> bytes[j] != 10,
        nl < bytes.len() ==> bytes[nl] == 10,
    ensures
        es.len() > 0,
        nl < bytes.len(),
        nl - pos + 1 == wal_line(es[0]).len(),
        bytes[pos] == entry_tag(es[0]),
        bytes.subrange(pos + 1, nl) == b64_of(spec_encode_entry(es[0])),
        entry_wf(es[0]),
        wal_wf(bytes.skip(nl + 1), es.drop_first()),
{
    let sfx = bytes.skip(pos);
    assert(sfx.len() > 0);
    assert(es.len() > 0);
    let line = wal_line(es[0]);
    let n = line.len() as int;
    assert(forall|j: int| 0 <= j < n ==> sfx[j] == line[j]);
    assert(forall|j: int| 0 <= j < sfx.len() ==> sfx[j] == bytes[pos + j]);
    assert(bytes[pos + n - 1] == line.last());
    assert(bytes[pos + n - 1] == 10);
    // The scan's newline is exactly the line's terminator.
    if nl < pos + n - 1 {
        assert(nl < bytes.len());
        assert(line[nl - pos] == bytes[nl]);
        assert(line[nl - pos] != 10);
        assert(false);
    }
    if nl > pos + n - 1 {
        assert(pos <= pos + n - 1 < nl);
        assert(false);
    }
    assert(nl == pos + n - 1);
    assert(bytes[pos] == line[0]);
    assert(line[0] == entry_tag(es[0]));
    let b64 = b64_of(spec_encode_entry(es[0]));
    assert(n == 2 + b64.len());
    assert forall|j: int| 0 <= j < b64.len() implies bytes.subrange(pos + 1, nl)[j] == b64[j] by {
        assert(line[1 + j] == b64[j]);
        assert(sfx[1 + j] == line[1 + j]);
        assert(bytes.subrange(pos + 1, nl)[j] == bytes[pos + 1 + j]);
        assert(sfx[1 + j] == bytes[pos + 1 + j]);
    }
    assert(bytes.subrange(pos + 1, nl) =~= b64);
    assert(bytes.skip(nl + 1) =~= sfx.skip(n));
}

/// Decode the log suffix that starts at `pos`.
fn decode_wal_from(bytes: &[u8], pos: usize) -> (r: Option<Vec<Entry>>)
    requires
        pos <= bytes@.len(),
    ensures
        forall|es: Seq<EntryView>|
            wal_wf(bytes@.skip(pos as int), es) ==> (r matches Some(v) && entries_view(v@) == es),
        (r matches Some(v) ==> wal_lines_shape(bytes@.skip(pos as int), entries_view(v@))),
    decreases bytes@.len() - pos,
{
    let ghost sfx = bytes@.skip(pos as int);
    if pos == bytes.len() {
        let out: Vec<Entry> = Vec::new();
        proof {
            assert(sfx.len() == 0);
            assert forall|es: Seq<EntryView>| wal_wf(sfx, es) implies entries_view(out@)
                == es by {
                if es.len() > 0 {
                    assert(wal_line(es[0]).len() <= sfx.len());
                } else {
                    assert(entries_view(out@) =~= es);
                }
            }
            assert(entries_view(out@) =~= Seq::<EntryView>::empty());
            assert(wal_lines_shape(sfx, entries_view(out@)));
        }
        return Some(out);
    }
    let mut nl: usize = pos;
    while nl < bytes.len() && bytes[nl] != 10
        invariant
            pos <= nl <= bytes@.len(),
            forall|j: int| pos <= j < nl ==> bytes@[j] != 10,
        decreases bytes@.len() - nl,
    {
        nl = nl + 1;
    }
    if nl == bytes.len() {
        proof {
            assert forall|es: Seq<EntryView>| !wal_wf(sfx, es) by {
                if wal_wf(sfx, es) {
                    lemma_line_shape(bytes@, pos as int, nl as int, es);
                }
            }
        }
        return None;
    }
    if nl == pos {
        proof {
            assert forall|es: Seq<EntryView>| !wal_wf(sfx, es) by {
                if wal_wf(sfx, es) {
                    lemma_line_shape(bytes@, pos as int, nl as int, es);
                    assert(bytes@[pos as int] == entry_tag(es[0]));
                    assert(bytes@[nl as int] == 10);
                }
            }
        }
        return None;
    }
    let tag = bytes[pos];
    let part = vstd::slice::slice_subrange(bytes, pos + 1, nl);
    let body = match b64_decode(part) {
        Some(b) => b,
        None => {
            proof {
                assert forall|es: Seq<EntryView>| !wal_wf(sfx, es) by {
                    if wal_wf(sfx, es) {
                        lemma_line_shape(bytes@, pos as int, nl as int, es);
                        assert(part@ == b64_of(spec_encode_entry(es[0])));
                    }
                }
            }
            return None;
        },
    };
    let entry = match decode_entry(tag, body.as_slice()) {
        Some(e) => e,
        None => {
            proof {
                assert forall|es: Seq<EntryView>| !wal_wf(sfx, es) by {
                    if wal_wf(sfx, es) {
                        lemma_line_shape(bytes@, pos as int, nl as int, es);
                        assert(part@ == b64_of(spec_encode_entry(es[0])));
                        assert(body@ == spec_encode_entry(es[0]));
                        lemma_entry_round_trip(es[0]);
                    }
                }
            }
            return None;
        },
    };
    let rest = match decode_wal_from(bytes, nl + 1) {
        Some(v) => v,
        None => {
            proof {
                assert forall|es: Seq<EntryView>| !wal_wf(sfx, es) by {
                    if wal_wf(sfx, es) {
                        lemma_line_shape(bytes@, pos as int, nl as int, es);
                    }
                }
            }
            return None;
        },
    };
    let ghost entry_view = entry@;
    let ghost rest_view = rest@;
    let mut out: Vec<Entry> = Vec::new();
    out.push(entry);
    let mut rest_mut = rest;
    out.append(&mut rest_mut);
    proof {
        assert forall|es: Seq<EntryView>| wal_wf(sfx, es) implies entries_view(out@) == es by {
            lemma_line_shape(bytes@, pos as int, nl as int, es);
            assert(part@ == b64_of(spec_encode_entry(es[0])));
            assert(body@ == spec_encode_entry(es[0]));
            lemma_entry_round_trip(es[0]);
            assert(entry_view == es[0]);
            assert(entries_view(rest_view) == es.drop_first());
            assert(entries_view(out@) =~= seq![entry_view] + entries_view(rest_view));
            assert(es =~= seq![es[0]] + es.drop_first());
        }
        // The decoded list fits the line partition of the input.
        let es2 = entries_view(out@);
        let n = nl + 1 - pos;
        lemma_decode_entry_tag(tag, body@);
        assert(es2.len() == 1 + entries_view(rest_view).len());
        assert(es2[0] == entry_view);
        assert(sfx[n - 1] == bytes@[nl as int]);
        assert forall|j: int| 0 <= j < n - 1 implies sfx[j] != 10 by {
            assert(sfx[j] == bytes@[pos + j]);
        }
        assert(sfx[0] == bytes@[pos as int]);
        assert(sfx.skip(n) =~= bytes@.skip(nl + 1));
        assert(es2.drop_first() =~= entries_view(rest_view));
        assert(wal_lines_shape(sfx.skip(n), es2.drop_first()));
        assert(wal_lines_shape(sfx, es2));
    }
    Some(out)
}

/// Decode a whole log blob back into its records.
pub fn decode_wal(bytes: &[u8]) -> (r: Option<Vec<Entry>>)
    ensures
        forall|es: Seq<EntryView>|
            wal_wf(bytes@, es) ==> (r matches Some(v) && entries_view(v@) == es),
        (r matches Some(v) ==> wal_lines_shape(bytes@, entries_view(v@))),
{
    proof {
        assert(bytes@.skip(0) =~= bytes@);
    }
    decode_wal_from(bytes, 0)
}

} // verus!
