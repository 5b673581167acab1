//! The wire codec: encoders and the packet parser.

use mqtt_broker::codec::{
    ByteParser, ControlPacketType, DecodeError, MqttMessage, MqttPayload, VariableHeader,
    ConnectFlags, is_variable_length_int,
};
use mqtt_broker::packets::{
    encode_packet, ConfirmationPacket, ConnackPacket, MqttPacket, PublishPacket, SubackPacket,
};

#[test]
fn single_byte() {
    let res = MqttMessage::encode_multibyte_num(78);
    assert_eq!(res[0], 0b0);
    assert_eq!(res[1], 0b01001110);
    assert_eq!(res.len(), 2, "Should have length of 2");
}

#[test]
fn multi_byte() {
    let res = MqttMessage::encode_multibyte_num(7267);
    assert_eq!(res[0], 0b00011100);
    assert_eq!(res[1], 0b01100011);
}

#[test]
fn variable_num_encoding() {
    assert_eq!(MqttMessage::encode_variable_num(0), Vec::<u8>::new());
    assert_eq!(MqttMessage::encode_variable_num(127), vec![127]);
    assert_eq!(MqttMessage::encode_variable_num(128), vec![0x80, 1]);
    assert_eq!(MqttMessage::encode_variable_num(321), vec![0xC1, 2]);
}

#[test]
fn frame_with_message_id() {
    let framed = MqttMessage::bytes_with_message_id(4, 7, None);
    assert_eq!(framed, vec![0x40, 2, 0, 7]);
    let framed = MqttMessage::bytes_with_message_id(4, 7, Some(vec![9]));
    assert_eq!(framed, vec![0x40, 3, 0, 7, 9]);
}

#[test]
fn connect_flag_bits() {
    let flags = ConnectFlags::new(0b11000010);
    assert!(flags.user_name);
    assert!(flags.password);
    assert!(!flags.will_retain);
    assert_eq!(flags.will_qos, 0);
    assert!(!flags.will);
    assert!(flags.clean_session);
}

#[test]
fn continuation_bit_probe() {
    assert!(is_variable_length_int(0x40));
    assert!(!is_variable_length_int(0x00));
}

#[test]
fn parse_publish_qos1() {
    let bytes = vec![0x32, 0x0B, 0, 2, b'a', b'b', 0, 7, b'h', b'i'];
    let mut parser = ByteParser::new(bytes);
    match parser.parse_mqtt() {
        Ok(MqttMessage::Publish(fh, vh, payload, _src)) => {
            assert_eq!(fh.control_packet, ControlPacketType::Publish);
            assert_eq!(fh.qos, 1);
            assert_eq!(vh.topic_name, "ab");
            assert_eq!(vh.message_id, 7);
            assert_eq!(payload, "hi");
        },
        other => panic!("unexpected parse result: {:?}", other),
    }
}

#[test]
fn parse_publish_qos0_has_no_identifier() {
    let bytes = vec![0x30, 0x09, 0, 2, b'a', b'b', b'h', b'i'];
    let mut parser = ByteParser::new(bytes);
    match parser.parse_mqtt() {
        Ok(MqttMessage::Publish(fh, vh, payload, _src)) => {
            assert_eq!(fh.qos, 0);
            assert_eq!(vh.message_id, 0);
            assert_eq!(payload, "hi");
        },
        other => panic!("unexpected parse result: {:?}", other),
    }
}

#[test]
fn parse_subscribe() {
    let bytes = vec![0x82, 0x0A, 0, 5, 0, 3, b'a', b'/', b'b', 1];
    let mut parser = ByteParser::new(bytes);
    match parser.parse_mqtt() {
        Ok(MqttMessage::Subscribe(fh, vh, subs)) => {
            assert_eq!(fh.control_packet, ControlPacketType::Subscribe);
            assert_eq!(vh.message_id, 5);
            assert_eq!(subs.len(), 1);
            assert_eq!(subs[0].topic, "a/b");
            assert_eq!(subs[0].qos, 1);
        },
        other => panic!("unexpected parse result: {:?}", other),
    }
}

#[test]
fn parse_connect() {
    let bytes = vec![
        0x10, 0x10, 0, 4, b'M', b'Q', b'T', b'T', 4, 0b10, 0, 60, 0, 4, b's', b'u', b'b', b'1',
    ];
    let mut parser = ByteParser::new(bytes);
    match parser.parse_mqtt() {
        Ok(MqttMessage::Connect(_fh, vh, payload)) => {
            assert_eq!(vh.protocol_name, "MQTT");
            assert_eq!(vh.protocol_version, 4);
            assert!(vh.connect_flags.clean_session);
            assert_eq!(vh.keep_alive, 60);
            assert_eq!(payload.client_id, "sub1");
            assert!(payload.will_topic.is_none());
        },
        other => panic!("unexpected parse result: {:?}", other),
    }
}

#[test]
fn parse_puback_and_pingreq() {
    let mut parser = ByteParser::new(vec![0x40, 2, 0, 7]);
    match parser.parse_mqtt() {
        Ok(MqttMessage::Puback(_fh, vh)) => assert_eq!(vh.message_id, 7),
        other => panic!("unexpected parse result: {:?}", other),
    }
    let mut parser = ByteParser::new(vec![0xC0, 0]);
    assert!(matches!(parser.parse_mqtt(), Ok(MqttMessage::Pingreq(_))));
}

#[test]
fn malformed_fixed_header_is_rejected() {
    // PUBLISH with QoS bits set to the reserved value 3.
    let mut parser = ByteParser::new(vec![0x36, 0]);
    assert_eq!(parser.parse_mqtt(), Err(DecodeError::MalformedFixedHeader));
    // CONNACK must have clear flag bits.
    let mut parser = ByteParser::new(vec![0x21, 0]);
    assert_eq!(parser.parse_mqtt(), Err(DecodeError::MalformedFixedHeader));
}

#[test]
fn remaining_length_overflow_is_rejected() {
    let mut parser = ByteParser::new(vec![0x10, 0x80, 0x80, 0x80, 0x80, 0x01]);
    assert_eq!(parser.parse_mqtt(), Err(DecodeError::VarIntOverflow));
}

#[test]
fn truncated_packet_is_rejected() {
    let mut parser = ByteParser::new(vec![0x10]);
    assert_eq!(parser.parse_mqtt(), Err(DecodeError::UnexpectedEof));
    let mut parser = ByteParser::new(vec![0x40, 2, 0]);
    assert_eq!(parser.parse_mqtt(), Err(DecodeError::UnexpectedEof));
}

#[test]
fn invalid_utf8_topic_is_rejected() {
    let mut parser = ByteParser::new(vec![0x30, 3, 0, 1, 0xFF]);
    assert_eq!(parser.parse_mqtt(), Err(DecodeError::InvalidUtf8));
}

#[test]
fn unsupported_protocol_version_is_rejected() {
    let bytes = vec![0x10, 0x0A, 0, 4, b'M', b'Q', b'T', b'T', 6, 0b10, 0, 60];
    let mut parser = ByteParser::new(bytes);
    assert_eq!(parser.parse_mqtt(), Err(DecodeError::UnsupportedProtocol));
}

#[test]
fn parse_payload_for_publish() {
    let mut parser = ByteParser::new(vec![b'h', b'i']);
    match parser.parse_payload(ControlPacketType::Publish) {
        Ok(MqttPayload::Publish(s)) => assert_eq!(s, "hi"),
        other => panic!("unexpected payload: {:?}", other),
    }
}

#[test]
fn parse_variable_header_dispatch() {
    let mut parser = ByteParser::new(vec![0, 2, b'a', b'b']);
    match parser.parse_variable_header(ControlPacketType::Publish) {
        Ok(VariableHeader::Publish(h)) => assert_eq!(h.topic_name, "ab"),
        other => panic!("unexpected header: {:?}", other),
    }
    let mut parser = ByteParser::new(Vec::new());
    assert!(matches!(
        parser.parse_variable_header(ControlPacketType::Pingreq),
        Ok(VariableHeader::Empty)
    ));
}

#[test]
fn egress_puback_and_pingresp_bytes() {
    let puback = MqttPacket::Puback(ConfirmationPacket {
        cmd: ControlPacketType::Puback,
        message_id: 7,
    });
    assert_eq!(encode_packet(&puback, 4), Some(vec![0x40, 2, 0, 7]));
    assert_eq!(encode_packet(&MqttPacket::Pingresp, 4), Some(vec![0xD0, 0]));
    let pubrel = MqttPacket::Pubrel(ConfirmationPacket {
        cmd: ControlPacketType::Pubrel,
        message_id: 9,
    });
    assert_eq!(encode_packet(&pubrel, 4), Some(vec![0x62, 2, 0, 9]));
}

#[test]
fn egress_connack_bytes() {
    let connack = MqttPacket::Connack(ConnackPacket { session_present: false, code: 0 });
    assert_eq!(encode_packet(&connack, 4), Some(vec![0x20, 2, 0, 0]));
    // Version 5 adds an empty property section.
    let connack = MqttPacket::Connack(ConnackPacket { session_present: false, code: 0 });
    assert_eq!(encode_packet(&connack, 5), Some(vec![0x20, 3, 0, 0, 0]));
}

#[test]
fn egress_publish_round_trips_through_the_parser() {
    let publish = MqttPacket::Publish(PublishPacket {
        topic: "a/b".to_string(),
        payload: b"hi".to_vec(),
        qos: 1,
        message_id: Some(7),
        dup: false,
        retain: false,
    });
    let bytes = encode_packet(&publish, 4).expect("a small publish encodes");
    assert_eq!(bytes, vec![0x32, 9, 0, 3, b'a', b'/', b'b', 0, 7, b'h', b'i']);
    let mut parser = ByteParser::new(bytes);
    match parser.parse_mqtt() {
        Ok(MqttMessage::Publish(fh, vh, payload, _src)) => {
            assert_eq!(fh.qos, 1);
            assert_eq!(vh.topic_name, "a/b");
            assert_eq!(vh.message_id, 7);
            assert_eq!(payload, "hi");
        },
        other => panic!("unexpected parse result: {:?}", other),
    }
}

#[test]
fn egress_suback_bytes() {
    let suback = MqttPacket::Suback(SubackPacket {
        message_id: 5,
        granted: vec![0, 1, 2],
        reason_code: 0,
    });
    assert_eq!(encode_packet(&suback, 4), Some(vec![0x90, 5, 0, 5, 0, 1, 2]));
}
