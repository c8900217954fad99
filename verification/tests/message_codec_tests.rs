use mqtt_broker::mqtt::message_handlers::connect_handler::{
    parse_connect_message, read_connect_flags, read_connect_packet, send_connack, ConnectError,
};
use mqtt_broker::mqtt::message_handlers::ping_handler::ping_resp;
use mqtt_broker::mqtt::message_handlers::publish_handler::{read_publish_bytes, send_puback_response};
use mqtt_broker::mqtt::message_handlers::subscribe_handler::get_topic_name;
use mqtt_broker::mqtt::message_handlers::unsubscribe_handle::{get_length as get_u16_length, read_unsubscribe_buffer};
use mqtt_broker::mqtt::message_reader::{read_latin1, read_package_length};
use mqtt_broker::mqtt::message_sender::{get_packet_identifier_to_u16, publish_packet, response_packet, PublishOrder};
use mqtt_broker::mqtt::message_type::MessageType;
use mqtt_broker::mqtt::utils::{bytes_to_string, get_length};

const ALL_TYPES: [(MessageType, u8); 14] = [
    (MessageType::Connect, 0x10),
    (MessageType::Connack, 0x20),
    (MessageType::Publish, 0x30),
    (MessageType::Puback, 0x40),
    (MessageType::Pubrec, 0x50),
    (MessageType::Pubrel, 0x60),
    (MessageType::Pubcomp, 0x70),
    (MessageType::Subscribe, 0x80),
    (MessageType::Suback, 0x90),
    (MessageType::Unsubscribe, 0xA0),
    (MessageType::Unsuback, 0xB0),
    (MessageType::Pingreq, 0xC0),
    (MessageType::Pingresp, 0xD0),
    (MessageType::Disconnect, 0xE0),
];

#[test]
fn message_type_bytes() {
    for (t, b) in ALL_TYPES {
        assert_eq!(t.to_u8(), b);
        assert_eq!(MessageType::from_u8(b), Some(t));
    }
}

#[test]
fn message_type_roundtrip_every_byte() {
    for b in 0..=255u8 {
        match MessageType::from_u8(b) {
            Some(t) => assert_eq!(t.to_u8(), b),
            None => assert!(b % 16 != 0 || b == 0 || b == 0xF0),
        }
    }
    assert_eq!(MessageType::from_u8(0x82), None);
    assert_eq!(MessageType::from_u8(0x00), None);
    assert_eq!(MessageType::from_u8(0xF0), None);
}

#[test]
fn get_length_one_and_two_bytes() {
    assert_eq!(get_length(&[0, 0x7F], 1), 127);
    assert_eq!(get_length(&[0x81, 0x02], 0), 0x0102);
    assert_eq!(get_length(&[9, 0xFF, 0xFF], 1), 0x7FFF);
    assert_eq!(get_length(&[0x80, 0x00], 0), 0);
}

#[test]
fn bytes_to_string_valid_and_invalid() {
    assert_eq!(bytes_to_string(b"hello"), "hello");
    assert_eq!(bytes_to_string(&[0xC3, 0xA9]), "\u{e9}");
    assert_eq!(bytes_to_string(&[0xFF, 0x41]), "Invalid UTF-8");
    assert_eq!(bytes_to_string(&[]), "");
}

#[test]
fn packet_identifier_and_lengths() {
    assert_eq!(get_packet_identifier_to_u16(&[0x40, 0x02, 0x12, 0x34], 2), 0x1234);
    assert_eq!(get_u16_length(&[0x01, 0x02], 0), 258);
    assert_eq!(read_package_length(&[0x30, 0x05], 1), (5, 2));
    assert_eq!(read_package_length(&[0x30, 0x81, 0x01], 1), (0x101, 3));
}

#[test]
fn latin1_reading() {
    assert_eq!(read_latin1(&[0x41, 0xE9, 0x42], 0, 3), "A\u{e9}B");
    assert_eq!(read_latin1(&[0x41, 0x42], 1, 1), "");
}

#[test]
fn fixed_responses() {
    assert_eq!(send_connack(), vec![0x20, 0x02, 0x00, 0x00]);
    assert_eq!(ping_resp(MessageType::Pingresp), vec![0xD0, 0x00]);
    assert_eq!(send_puback_response(), vec![0x40, 0x00]);
    assert_eq!(response_packet(MessageType::Pubrel, 0x0102), vec![0x60, 0x02, 0x01, 0x02]);
    assert_eq!(response_packet(MessageType::Pubcomp, 300), vec![0x70, 0x02, 0x01, 0x2C]);
}

fn order(id: u16, topic: &str, message: &str, is_retry: bool, qos: u8) -> PublishOrder {
    PublishOrder {
        packet_identifier: id,
        topic_name: topic.to_string(),
        message: message.to_string(),
        is_retry,
        sub_qos: qos,
    }
}

#[test]
fn publish_packet_qos0() {
    let p = publish_packet(&order(9, "a/b", "hi", false, 0)).unwrap();
    assert_eq!(p, vec![0x30, 7, 0, 3, b'a', b'/', b'b', b'h', b'i']);
}

#[test]
fn publish_packet_qos1_retry() {
    let p = publish_packet(&order(0x0102, "t", "x", true, 1)).unwrap();
    assert_eq!(p, vec![0x3A, 6, 0, 1, b't', 0x01, 0x02, b'x']);
    let p = publish_packet(&order(5, "t", "", false, 2)).unwrap();
    assert_eq!(p, vec![0x34, 5, 0, 1, b't', 0, 5]);
    let p = publish_packet(&order(5, "t", "", false, 7)).unwrap();
    assert_eq!(p[0], 0x36);
}

#[test]
fn publish_packet_utf8_topic() {
    let p = publish_packet(&order(0, "\u{e9}", "", false, 0)).unwrap();
    assert_eq!(p, vec![0x30, 4, 0, 2, 0xC3, 0xA9]);
}

#[test]
fn publish_packet_length_wraps_below_header() {
    // 256 bytes in all: the remaining-length byte would go below zero.
    let message = "m".repeat(256 - 4 - 1);
    assert!(publish_packet(&order(0, "t", &message, false, 0)).is_none());
    let message = "m".repeat(256 - 4);
    assert!(publish_packet(&order(0, "", &message, false, 0)).is_none());
    // 258 bytes: it wraps to 0.
    let message = "m".repeat(258 - 4);
    let p = publish_packet(&order(0, "", &message, false, 0)).unwrap();
    assert_eq!(p[1], 0);
}

#[test]
fn publish_roundtrip_ascii() {
    let p = publish_packet(&order(0, "room/1", "lights on", false, 0)).unwrap();
    let (topic, message) = read_publish_bytes(&p).unwrap();
    assert_eq!(topic, "room/1");
    assert_eq!(message, "lights on");
}

#[test]
fn read_publish_bytes_cases() {
    assert_eq!(read_publish_bytes(&[0x30]), None);
    assert_eq!(read_publish_bytes(&[0x30, 0x04, 0x00, 0x05, b'a']), None);
    let (t, m) = read_publish_bytes(&[0x30, 0x04, 0x00, 0x01, b'a', b'z', 0xEE]).unwrap();
    assert_eq!((t.as_str(), m.as_str()), ("a", "z"));
    assert_eq!(read_publish_bytes(&[0x30, 0x08, 0x00, 0x01, b'a', b'z']), None);
}

#[test]
fn topic_name_reading() {
    let buffer = [0x82, 0x08, 0x00, 0x01, 0x00, 0x03, b'a', b'/', b'b', 0x01];
    assert_eq!(get_topic_name(&buffer, 4), "a/b");
}

#[test]
fn unsubscribe_buffer_reading() {
    let buffer = [0xA2, 0x0A, 0x00, 0x07, 0x00, 0x01, b'a', 0x00, 0x03, b'b', b'/', b'c'];
    let (topics, id) = read_unsubscribe_buffer(&buffer).unwrap();
    assert_eq!(topics, vec!["a".to_string(), "b/c".to_string()]);
    assert_eq!(id, 0x00);
    assert!(read_unsubscribe_buffer(&[0xA2, 0x06, 0x01, 0x02, 0x00, 0x09, b'a']).is_none());
    assert!(read_unsubscribe_buffer(&[0xA2, 0xFE, 0x00, 0x00]).is_none());
    let (topics, id) = read_unsubscribe_buffer(&[0xA2, 0x02, 0x05]).unwrap();
    assert!(topics.is_empty());
    assert_eq!(id, 5);
}

fn connect_bytes(flags: u8, tail: &[u8]) -> Vec<u8> {
    let mut v = vec![0x10, 0x00, 0x00, 0x04, b'M', b'Q', b'T', b'T', 0x04, flags, 0x00, 0x3C, 0x00, 0x02, b'i', b'd'];
    v.extend_from_slice(tail);
    v
}

#[test]
fn parse_connect_message_cases() {
    assert_eq!(
        parse_connect_message(&[0x10, 0x00]),
        Err("Message too short to be a valid CONNECT message".to_string())
    );
    assert_eq!(parse_connect_message(&connect_bytes(0x02, &[])), Ok(()));
    let mut bad = connect_bytes(0x02, &[]);
    bad[7] = b'X';
    assert_eq!(parse_connect_message(&bad), Err("Invalid protocol name".to_string()));
}

#[test]
fn connect_flags_decoding() {
    let f = read_connect_flags(0b1111_1110).unwrap();
    assert!(f.username_flag && f.password_flag && f.will_retain_flag && f.will_flag && f.clean_session_flag);
    assert_eq!(f.will_qos_flag, 3);
    let f = read_connect_flags(0b0001_0100).unwrap();
    assert!(!f.username_flag && !f.password_flag && !f.will_retain_flag && f.will_flag && !f.clean_session_flag);
    assert_eq!(f.will_qos_flag, 2);
    assert_eq!(read_connect_flags(0x03), Err(ConnectError::ReservedFlag));
}

#[test]
fn connect_packet_fields() {
    let tail = [0x00, 0x01, b't', 0x00, 0x02, b'b', b'y', 0x00, 0x01, b'u', 0x00, 0x01, b'p'];
    let p = read_connect_packet(&connect_bytes(0b1100_1110, &tail)).unwrap();
    assert_eq!(p.keep_alive_seconds, 60);
    assert_eq!(p.client_id, "id");
    assert_eq!(p.will_topic, "t");
    assert_eq!(p.will_text, "by");
    assert_eq!(p.username, "u");
    assert_eq!(p.password, "p");
    assert_eq!(p.flags.will_qos_flag, 1);
    let p = read_connect_packet(&connect_bytes(0x02, &[])).unwrap();
    assert_eq!(p.will_topic, "");
    assert_eq!(p.username, "");
    assert_eq!(read_connect_packet(&connect_bytes(0x80, &[0x00])).err(), Some(ConnectError::Truncated));
    assert_eq!(read_connect_packet(&[0x10; 9]).err(), Some(ConnectError::Truncated));
    assert_eq!(read_connect_packet(&connect_bytes(0x01, &[])).err(), Some(ConnectError::ReservedFlag));
}

#[test]
fn unsubscribe_topics_reencode_to_packet_bytes() {
    let buffer = [0xA2u8, 9, 0x00, 0x05, 0x00, 0x02, b'a', b'b', 0x00, 0x01, b'c'];
    let (topics, id) = read_unsubscribe_buffer(&buffer).unwrap();
    assert_eq!(topics, vec!["ab".to_string(), "c".to_string()]);
    assert_eq!(id, 0x00);
    let mut encoded: Vec<u8> = Vec::new();
    for t in &topics {
        encoded.push((t.len() / 256) as u8);
        encoded.push((t.len() % 256) as u8);
        encoded.extend_from_slice(t.as_bytes());
    }
    assert_eq!(&encoded[..], &buffer[4..11]);
}
