use vstd::prelude::*;
use crate::mqtt::broker_state::{mark_subscriptions, Client, ClientView, MessageState};
use crate::mqtt::message_handlers::PacketError;
use crate::mqtt::message_sender::{get_packet_identifier_to_u16, read_u16_be, response_packet, response_packet_bytes};
use crate::mqtt::message_type::MessageType;

verus! {

/// Handles a PUBREL: every message with the packet's identifier is marked
/// `Released` (its time stamp kept), and the answer is a PUBCOMP for that
/// identifier. A packet too short to hold an identifier is malformed.
pub fn handle_pubrel(buffer: &[u8], client: &mut Client) -> (res: Result<Vec<u8>, PacketError>)
    ensures
        buffer@.len() < 4 ==> res == Err::<Vec<u8>, PacketError>(PacketError::Malformed) && *final(client) == *old(client),
        buffer@.len() >= 4 ==> (res matches Ok(v) && v@ == response_packet_bytes(
            MessageType::Pubcomp,
            read_u16_be(buffer@, 2) as u16,
        ) && final(client)@ == (ClientView {
            subscriptions: mark_subscriptions(
                old(client)@.subscriptions,
                read_u16_be(buffer@, 2) as u16,
                MessageState::Released,
                None,
            ),
            ..old(client)@
        })),
{
    if buffer.len() < 4 {
        return Err(PacketError::Malformed);
    }
    let packet_identifier = get_packet_identifier_to_u16(buffer, 2);
    client.mark_message_state(packet_identifier, MessageState::Released, None);
    Ok(response_packet(MessageType::Pubcomp, packet_identifier))
}

} // verus!
