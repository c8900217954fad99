use vstd::prelude::*;
use crate::mqtt::broker_state::{mark_subscriptions, Client, ClientView, MessageState};
use crate::mqtt::message_handlers::PacketError;
use crate::mqtt::message_sender::{get_packet_identifier_to_u16, read_u16_be, response_packet, response_packet_bytes};
use crate::mqtt::message_type::MessageType;

verus! {

/// Handles a PUBREC from a subscriber: every message with the packet's
/// identifier moves to `SubscriptionReceived`, and the answer is a PUBREL for
/// that identifier. A packet too short to hold an identifier is malformed.
pub fn handle_pubrec(buffer: &[u8], client: &mut Client, now: i128) -> (res: Result<Vec<u8>, PacketError>)
    ensures
        buffer@.len() < 4 ==> res == Err::<Vec<u8>, PacketError>(PacketError::Malformed) && *final(client) == *old(client),
        buffer@.len() >= 4 ==> (res matches Ok(v) && v@ == response_packet_bytes(
            MessageType::Pubrel,
            read_u16_be(buffer@, 2) as u16,
        ) && final(client)@ == (ClientView {
            subscriptions: mark_subscriptions(
                old(client)@.subscriptions,
                read_u16_be(buffer@, 2) as u16,
                MessageState::SubscriptionReceived,
                Some(now),
            ),
            ..old(client)@
        })),
{
    if buffer.len() < 4 {
        return Err(PacketError::Malformed);
    }
    let packet_identifier = get_packet_identifier_to_u16(buffer, 2);
    client.update_message_state(packet_identifier, MessageState::SubscriptionReceived, now);
    Ok(response_packet(MessageType::Pubrel, packet_identifier))
}

} // verus!
