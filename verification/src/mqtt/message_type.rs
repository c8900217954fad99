use vstd::prelude::*;

verus! {

/// The MQTT control packet types the broker knows, identified by the whole
/// first byte of a packet (flags nibble zero).
#[derive(Debug, Clone, Copy, PartialEq, Eq, Structural)]
pub enum MessageType {
    Connect,
    Connack,
    Publish,
    Puback,
    Pubrec,
    Pubrel,
    Pubcomp,
    Subscribe,
    Suback,
    Unsubscribe,
    Unsuback,
    Pingreq,
    Pingresp,
    Disconnect,
}

/// The first byte that stands for each packet type.
pub open spec fn type_byte(t: MessageType) -> u8 {
    match t {
        MessageType::Connect => 0x10,
        MessageType::Connack => 0x20,
        MessageType::Publish => 0x30,
        MessageType::Puback => 0x40,
        MessageType::Pubrec => 0x50,
        MessageType::Pubrel => 0x60,
        MessageType::Pubcomp => 0x70,
        MessageType::Subscribe => 0x80,
        MessageType::Suback => 0x90,
        MessageType::Unsubscribe => 0xA0,
        MessageType::Unsuback => 0xB0,
        MessageType::Pingreq => 0xC0,
        MessageType::Pingresp => 0xD0,
        MessageType::Disconnect => 0xE0,
    }
}

/// The packet type a first byte stands for, if any: exactly the bytes
/// `0x10, 0x20, ..., 0xE0`.
pub open spec fn type_of_byte(byte: u8) -> Option<MessageType> {
    if byte == 0x10 { Some(MessageType::Connect) }
    else if byte == 0x20 { Some(MessageType::Connack) }
    else if byte == 0x30 { Some(MessageType::Publish) }
    else if byte == 0x40 { Some(MessageType::Puback) }
    else if byte == 0x50 { Some(MessageType::Pubrec) }
    else if byte == 0x60 { Some(MessageType::Pubrel) }
    else if byte == 0x70 { Some(MessageType::Pubcomp) }
    else if byte == 0x80 { Some(MessageType::Subscribe) }
    else if byte == 0x90 { Some(MessageType::Suback) }
    else if byte == 0xA0 { Some(MessageType::Unsubscribe) }
    else if byte == 0xB0 { Some(MessageType::Unsuback) }
    else if byte == 0xC0 { Some(MessageType::Pingreq) }
    else if byte == 0xD0 { Some(MessageType::Pingresp) }
    else if byte == 0xE0 { Some(MessageType::Disconnect) }
    else { None }
}

impl MessageType {
    /// Reads the packet type from a packet's first byte.
    pub fn from_u8(byte: u8) -> (res: Option<Self>)
        ensures
            res == type_of_byte(byte),
    {
        match byte {
            0x10 => Some(MessageType::Connect),
            0x20 => Some(MessageType::Connack),
            0x30 => Some(MessageType::Publish),
            0x40 => Some(MessageType::Puback),
            0x50 => Some(MessageType::Pubrec),
            0x60 => Some(MessageType::Pubrel),
            0x70 => Some(MessageType::Pubcomp),
            0x80 => Some(MessageType::Subscribe),
            0x90 => Some(MessageType::Suback),
            0xA0 => Some(MessageType::Unsubscribe),
            0xB0 => Some(MessageType::Unsuback),
            0xC0 => Some(MessageType::Pingreq),
            0xD0 => Some(MessageType::Pingresp),
            0xE0 => Some(MessageType::Disconnect),
            _ => None,
        }
    }

    /// The first byte of a packet of this type.
    pub fn to_u8(&self) -> (res: u8)
        ensures
            res == type_byte(*self),
    {
        match self {
            MessageType::Connect => 0x10,
            MessageType::Connack => 0x20,
            MessageType::Publish => 0x30,
            MessageType::Puback => 0x40,
            MessageType::Pubrec => 0x50,
            MessageType::Pubrel => 0x60,
            MessageType::Pubcomp => 0x70,
            MessageType::Subscribe => 0x80,
            MessageType::Suback => 0x90,
            MessageType::Unsubscribe => 0xA0,
            MessageType::Unsuback => 0xB0,
            MessageType::Pingreq => 0xC0,
            MessageType::Pingresp => 0xD0,
            MessageType::Disconnect => 0xE0,
        }
    }
}

/// Reading back the byte of a packet type gives that type.
pub proof fn lemma_type_byte_roundtrip(t: MessageType)
    ensures
        type_of_byte(type_byte(t)) == Some(t),
{
}

/// A byte that reads as a packet type is exactly that type's byte.
pub proof fn lemma_byte_type_roundtrip(byte: u8)
    ensures
        type_of_byte(byte) matches Some(t) ==> type_byte(t) == byte,
{
}

/// Distinct packet types have distinct bytes, and each byte has its low
/// four bits clear.
pub proof fn lemma_type_byte_injective(t1: MessageType, t2: MessageType)
    ensures
        type_byte(t1) == type_byte(t2) ==> t1 == t2,
        type_byte(t1) % 16 == 0,
        type_byte(t1) >= 0x10,
{
}

} // verus!
