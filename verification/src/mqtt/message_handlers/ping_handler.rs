use vstd::prelude::*;
use crate::mqtt::message_sender::generate_package_type_byte;
use crate::mqtt::message_type::{type_byte, MessageType};

verus! {

/// The two-byte answer to a PINGREQ: the given packet type, remaining length 0.
pub fn ping_resp(message_type: MessageType) -> (res: Vec<u8>)
    ensures
        res@ == seq![type_byte(message_type), 0u8],
{
    let mut response: Vec<u8> = Vec::new();
    response.push(generate_package_type_byte(message_type));
    response.push(0);
    assert(response@ =~= seq![type_byte(message_type), 0u8]);
    response
}

} // verus!
