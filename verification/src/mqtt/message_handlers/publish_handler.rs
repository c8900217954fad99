use vstd::prelude::*;
use crate::mqtt::broker_state::{deliver, BrokerState, MessageState, SubscriptionMessage};
use crate::mqtt::message_handlers::PacketError;
use crate::mqtt::message_reader::{
    field_chars, field_end, field_fits, latin1, length_field_size, read_package_length,
    read_uft_8_string_with_end_index, read_uft_8_string_with_length_bytes,
};
use crate::mqtt::message_type::{type_byte, MessageType};
use crate::mqtt::message_sender::{publish_body, publish_packet_bytes, PublishOrder};
use crate::mqtt::utils::{get_length_in_bounds, spec_get_length};
use vstd::utf8::{encode_utf8, is_ascii_chars, is_ascii_chars_encode_utf8};

verus! {

/// Where a PUBLISH's variable header starts: just past its remaining-length field.
pub open spec fn publish_topic_index(buffer: Seq<u8>) -> int {
    1 + length_field_size(buffer, 1)
}

/// Where a PUBLISH ends: its remaining length counted from the variable header.
pub open spec fn publish_end(buffer: Seq<u8>) -> int {
    publish_topic_index(buffer) + spec_get_length(buffer, 1)
}

/// A PUBLISH the broker can read: its length field, its topic and its
/// payload (everything after the topic up to the packet's end) lie within the buffer.
pub open spec fn publish_packet_fits(buffer: Seq<u8>) -> bool {
    &&& get_length_in_bounds(buffer, 1)
    &&& field_fits(buffer, publish_topic_index(buffer))
    &&& field_end(buffer, publish_topic_index(buffer)) <= publish_end(buffer) <= buffer.len()
}

/// The topic of a PUBLISH.
pub open spec fn publish_topic(buffer: Seq<u8>) -> Seq<char> {
    field_chars(buffer, publish_topic_index(buffer))
}

/// The payload of a PUBLISH.
pub open spec fn publish_payload(buffer: Seq<u8>) -> Seq<char> {
    latin1(buffer.subrange(field_end(buffer, publish_topic_index(buffer)), publish_end(buffer)))
}

/// Reads the topic and the payload of a PUBLISH.
pub fn read_publish_bytes(buffer: &[u8]) -> (res: Option<(String, String)>)
    ensures
        match res {
            Some((topic, message)) => publish_packet_fits(buffer@) && topic@ == publish_topic(buffer@)
                && message@ == publish_payload(buffer@),
            None => !publish_packet_fits(buffer@),
        },
{
    if buffer.len() < 2 || (buffer[1] >= 128 && buffer.len() < 3) {
        return None;
    }
    let (package_length, reader_index) = read_package_length(buffer, 1);
    let end_index = reader_index + package_length;
    if reader_index + 2 > buffer.len() {
        return None;
    }
    let topic_length = buffer[reader_index] as usize * 256 + buffer[reader_index + 1] as usize;
    if reader_index + 2 + topic_length > end_index || end_index > buffer.len() {
        return None;
    }
    let (topic, reader_index) = read_uft_8_string_with_length_bytes(buffer, reader_index);
    let (message, _reader_index) = read_uft_8_string_with_end_index(buffer, reader_index, end_index);
    Some((topic, message))
}

/// Handles a PUBLISH: every subscription to its topic, of every client, gets
/// a fresh copy of its payload queued (identifier 0, QoS 0, not yet sent).
pub fn handle_publish(buffer: &[u8], broker_state: &mut BrokerState) -> (res: Result<(), PacketError>)
    ensures
        !publish_packet_fits(buffer@) ==> res == Err::<(), PacketError>(PacketError::Malformed)
            && final(broker_state)@ == old(broker_state)@,
        publish_packet_fits(buffer@) ==> res == Ok::<(), PacketError>(()) && exists|m: SubscriptionMessage|
            m.message@ == publish_payload(buffer@) && !m.message_sent && m.packet_identifier == 0
                && m.message_state == MessageState::Queued && m.pub_qos == 0 && m.retry_count == 0
                && m.last_updated == 0 && final(broker_state)@ == deliver(
                old(broker_state)@,
                publish_topic(buffer@),
                m,
            ),
{
    match read_publish_bytes(buffer) {
        None => Err(PacketError::Malformed),
        Some((topic, message)) => {
            let m = SubscriptionMessage::new(message);
            broker_state.deliver(&topic, &m);
            Ok(())
        },
    }
}

/// Publishes `message` on `topic` as a message at QoS `qos` in state
/// `message_state` under `packet_identifier`, queued on every subscription to
/// `topic`; the broker publishes a client's will this way when it leaves.
pub fn process_publish(
    broker_state: &mut BrokerState,
    topic: &String,
    message: &String,
    qos: u8,
    message_state: MessageState,
    packet_identifier: u16,
    now: i128,
)
    ensures
        final(broker_state)@ == deliver(
            old(broker_state)@,
            topic@,
            SubscriptionMessage {
                message: *message,
                message_sent: false,
                packet_identifier,
                message_state,
                pub_qos: qos,
                retry_count: 0,
                last_updated: now,
            },
        ),
{
    let m = SubscriptionMessage::with_delivery(message.clone(), qos, message_state, packet_identifier, now);
    broker_state.deliver(topic, &m);
}

/// ASCII text encoded as UTF-8 reads back, one character per byte, as itself.
pub(crate) proof fn lemma_ascii_latin1(chars: Seq<char>)
    requires
        is_ascii_chars(chars),
    ensures
        latin1(encode_utf8(chars)) == chars,
{
    is_ascii_chars_encode_utf8(chars);
    assert forall|i: int| 0 <= i < chars.len() implies latin1(encode_utf8(chars))[i] == chars[i] by {
        assert(encode_utf8(chars)[i] == chars[i] as u8);
        assert('\0' <= chars[i] <= '\u{7f}');
    }
    assert(latin1(encode_utf8(chars)) =~= chars);
}

/// A PUBLISH the broker writes at QoS 0, with an ASCII topic and payload
/// short enough for a one-byte remaining length, reads back as that topic
/// and payload.
pub proof fn lemma_publish_roundtrip(order: PublishOrder)
    requires
        order.sub_qos == 0,
        is_ascii_chars(order.topic_name@),
        is_ascii_chars(order.message@),
        order.topic_name@.len() + order.message@.len() <= 125,
    ensures
        publish_packet_bytes(order) matches Some(b) && publish_packet_fits(b) && publish_topic(b)
            == order.topic_name@ && publish_payload(b) == order.message@,
{
    is_ascii_chars_encode_utf8(order.topic_name@);
    is_ascii_chars_encode_utf8(order.message@);
    lemma_ascii_latin1(order.topic_name@);
    lemma_ascii_latin1(order.message@);
    let topic = encode_utf8(order.topic_name@);
    let message = encode_utf8(order.message@);
    let body = publish_body(order.packet_identifier, topic, message, order.sub_qos);
    let total = body.len() + 2;
    assert(body =~= seq![0u8, topic.len() as u8] + topic + message);
    assert(total == topic.len() + message.len() + 4);
    let b = publish_packet_bytes(order).unwrap();
    assert(b[1] == total - 2);
    assert(b[2] == 0 && b[3] == topic.len());
    assert(b.subrange(4, 4 + topic.len() as int) =~= topic);
    assert(b.subrange(4 + topic.len() as int, total as int) =~= message);
}

/// The two-byte PUBACK.
pub fn send_puback_response() -> (res: Vec<u8>)
    ensures
        res@ == seq![type_byte(MessageType::Puback), 0u8],
{
    let mut response: Vec<u8> = Vec::new();
    response.push(MessageType::Puback.to_u8());
    response.push(0);
    assert(response@ =~= seq![type_byte(MessageType::Puback), 0u8]);
    response
}

} // verus!
