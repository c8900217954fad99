use vstd::prelude::*;
use crate::mqtt::broker_state::{
    client_position, has_client, BrokerState, ClientView, Subscription,
    SubscriptionMessage, SubscriptionView,
};
use crate::mqtt::message_handlers::PacketError;
use crate::mqtt::message_reader::{field_chars, field_end, field_fits, read_latin1};
use crate::mqtt::message_type::MessageType;

verus! {

/// The topic filter at `index` and the QoS byte after it lie within the buffer.
pub open spec fn topic_filter_fits(buffer: Seq<u8>, index: int) -> bool {
    field_fits(buffer, index) && field_end(buffer, index) < buffer.len()
}

/// Reads the topic filter at `index` (its QoS byte is read and ignored).
pub fn get_topic_name(buffer: &[u8], current_buffer_index: usize) -> (res: String)
    requires
        topic_filter_fits(buffer@, current_buffer_index as int),
    ensures
        res@ == field_chars(buffer@, current_buffer_index as int),
{
    let mut current_buffer_index = current_buffer_index;
    let topic_length = buffer[current_buffer_index] as usize * 256 + buffer[current_buffer_index + 1] as usize;
    current_buffer_index = current_buffer_index + 2;
    let topic = read_latin1(buffer, current_buffer_index, current_buffer_index + topic_length);
    current_buffer_index = current_buffer_index + topic_length;
    let _topic_qos: u8 = buffer[current_buffer_index];
    topic
}

/// The new subscription added by a SUBSCRIBE: an empty queue at QoS 2.
pub open spec fn new_subscription(topic: String) -> SubscriptionView {
    SubscriptionView { topic_title: topic, messages: Seq::<SubscriptionMessage>::empty(), sub_qos: 2 }
}

/// The clients after the client with `thread_id` subscribed to `topic`.
pub open spec fn subscribe_client(cs: Seq<ClientView>, thread_id: u64, topic: String) -> Seq<ClientView> {
    let pos = client_position(cs, thread_id);
    cs.update(
        pos,
        ClientView { subscriptions: cs[pos].subscriptions.push(new_subscription(topic)), ..cs[pos] },
    )
}

/// Adds a subscription to `topic` to the client with `thread_id`; false,
/// and nothing changed, when there is no such client.
pub fn add_topic_to_broker_state(topic: String, thread_id: u64, broker_state: &mut BrokerState) -> (res: bool)
    ensures
        res == has_client(old(broker_state)@, thread_id),
        res ==> final(broker_state)@ == subscribe_client(old(broker_state)@, thread_id, topic),
        !res ==> final(broker_state)@ == old(broker_state)@,
{
    match broker_state.find_client(thread_id) {
        None => false,
        Some(i) => {
            let ghost b0 = broker_state@;
            let mut client = broker_state.take_client(i);
            let ghost c0 = client@;
            let sub = Subscription::new(topic);
            client.subscriptions.push(sub);
            assert(client@.subscriptions =~= c0.subscriptions.push(new_subscription(topic)));
            broker_state.put_client(i, client);
            assert(broker_state@ =~= subscribe_client(b0, thread_id, topic));
            true
        },
    }
}

/// The SUBACK answering a SUBSCRIBE: it repeats the packet identifier and grants QoS 0.
pub open spec fn suback_bytes(buffer: Seq<u8>) -> Seq<u8> {
    seq![0x90u8, 0x03u8, buffer[2], buffer[3], 0x00u8]
}

/// A SUBSCRIBE the broker can read: identifier bytes, then one topic filter at index 4.
pub open spec fn subscribe_packet_fits(buffer: Seq<u8>) -> bool {
    buffer.len() >= 4 && topic_filter_fits(buffer, 4)
}

/// Handles a SUBSCRIBE from the client with `thread_id`: subscribes it to the
/// packet's topic filter and answers with a SUBACK.
pub fn handle_subscribe(buffer: &[u8], thread_id: u64, broker_state: &mut BrokerState) -> (res: Result<Vec<u8>, PacketError>)
    ensures
        !subscribe_packet_fits(buffer@) ==> res == Err::<Vec<u8>, PacketError>(PacketError::Malformed)
            && final(broker_state)@ == old(broker_state)@,
        subscribe_packet_fits(buffer@) && !has_client(old(broker_state)@, thread_id)
            ==> res == Err::<Vec<u8>, PacketError>(PacketError::UnknownClient) && final(broker_state)@ == old(broker_state)@,
        subscribe_packet_fits(buffer@) && has_client(old(broker_state)@, thread_id) ==> {
            &&& res matches Ok(v) && v@ == suback_bytes(buffer@)
            &&& exists|topic: String|
                topic@ == field_chars(buffer@, 4) && final(broker_state)@ == subscribe_client(
                    old(broker_state)@,
                    thread_id,
                    topic,
                )
        },
{
    if buffer.len() < 4 {
        return Err(PacketError::Malformed);
    }
    let _package_identifier = buffer[2] as usize * 256 + buffer[3] as usize;
    if buffer.len() < 6 {
        return Err(PacketError::Malformed);
    }
    let topic_length = buffer[4] as usize * 256 + buffer[5] as usize;
    if topic_length + 6 >= buffer.len() {
        return Err(PacketError::Malformed);
    }
    let topic = get_topic_name(buffer, 4);
    if !add_topic_to_broker_state(topic, thread_id, broker_state) {
        return Err(PacketError::UnknownClient);
    }
    let mut response: Vec<u8> = Vec::new();
    response.push(MessageType::Suback.to_u8());
    response.push(0x03);
    response.push(buffer[2]);
    response.push(buffer[3]);
    response.push(0x00);
    assert(response@ =~= suback_bytes(buffer@));
    Ok(response)
}

} // verus!
