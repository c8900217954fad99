use vstd::prelude::*;
use vstd::utf8::encode_utf8;
use crate::mqtt::message_type::{MessageType, type_byte};

verus! {

/// The two bytes of `v`, most significant first.
pub open spec fn u16_be_bytes(v: u16) -> Seq<u8> {
    seq![(v / 256) as u8, (v % 256) as u8]
}

/// The big-endian 16-bit value stored at `index` and `index + 1`.
pub open spec fn read_u16_be(buffer: Seq<u8>, index: int) -> int {
    buffer[index] * 256 + buffer[index + 1]
}

/// The first byte of a packet of type `message_type`.
pub fn generate_package_type_byte(message_type: MessageType) -> (res: u8)
    ensures
        res == type_byte(message_type),
{
    message_type.to_u8()
}

/// Reads the packet identifier stored big-endian at `index`.
pub fn get_packet_identifier_to_u16(buffer: &[u8], index: usize) -> (res: u16)
    requires
        index + 1 < buffer@.len(),
    ensures
        res == read_u16_be(buffer@, index as int),
{
    buffer[index] as u16 * 256 + buffer[index + 1] as u16
}

/// A four-byte acknowledgement packet: type, remaining length 2, packet identifier.
pub open spec fn response_packet_bytes(message_type: MessageType, packet_identifier: u16) -> Seq<u8> {
    seq![type_byte(message_type), 2u8] + u16_be_bytes(packet_identifier)
}

/// Builds the acknowledgement packet of type `message_type` for `packet_identifier`.
pub fn response_packet(message_type: MessageType, packet_identifier: u16) -> (res: Vec<u8>)
    ensures
        res@ == response_packet_bytes(message_type, packet_identifier),
{
    let mut response: Vec<u8> = Vec::new();
    response.push(generate_package_type_byte(message_type));
    response.push(2);
    response.push((packet_identifier / 256) as u8);
    response.push((packet_identifier % 256) as u8);
    assert(response@ =~= response_packet_bytes(message_type, packet_identifier));
    response
}

/// Appends `bytes` to `out`.
pub fn append_bytes(out: &mut Vec<u8>, bytes: &[u8])
    ensures
        final(out)@ == old(out)@ + bytes@,
{
    let ghost start = out@;
    let n = bytes.len();
    let mut i: usize = 0;
    while i < n
        invariant
            n == bytes@.len(),
            i <= n,
            out@ == start + bytes@.take(i as int),
        decreases n - i,
    {
        out.push(bytes[i]);
        i = i + 1;
        assert(bytes@.take(i as int) == bytes@.take(i - 1).push(bytes@[i - 1]));
    }
    assert(bytes@.take(n as int) == bytes@);
}

/// One PUBLISH packet the broker owes a subscriber.
#[derive(Debug)]
pub struct PublishOrder {
    pub packet_identifier: u16,
    pub topic_name: String,
    pub message: String,
    pub is_retry: bool,
    pub sub_qos: u8,
}

/// The first byte of a PUBLISH packet: type, DUP flag on a retry, QoS in bits 1-2.
pub open spec fn publish_header(is_retry: bool, sub_qos: u8) -> u8 {
    (0x30 + (if is_retry { 8int } else { 0int }) + (sub_qos % 4) * 2) as u8
}

/// Everything after the fixed header: topic length and topic, the packet
/// identifier when the QoS is above 0, then the payload.
pub open spec fn publish_body(packet_identifier: u16, topic: Seq<u8>, message: Seq<u8>, sub_qos: u8) -> Seq<u8> {
    seq![((topic.len() / 256) % 256) as u8, (topic.len() % 256) as u8] + topic + (if sub_qos > 0 {
        u16_be_bytes(packet_identifier)
    } else {
        Seq::<u8>::empty()
    }) + message
}

/// The PUBLISH packet for an order, with topic and payload UTF-8 encoded. The
/// remaining-length byte is the packet length modulo 256, less the two header
/// bytes; there is no packet when that subtraction would go below zero.
pub open spec fn publish_packet_bytes(order: PublishOrder) -> Option<Seq<u8>> {
    let body = publish_body(
        order.packet_identifier,
        encode_utf8(order.topic_name@),
        encode_utf8(order.message@),
        order.sub_qos,
    );
    let total = body.len() + 2;
    if total % 256 < 2 {
        None
    } else {
        Some(seq![publish_header(order.is_retry, order.sub_qos), (total % 256 - 2) as u8] + body)
    }
}

/// The layout of a PUBLISH packet for an order: the first byte carries the
/// PUBLISH type in its high nibble, the DUP flag exactly on a resend and the
/// QoS in bits 2-1; then the remaining length (modulo 256), the topic's
/// big-endian length and UTF-8 bytes; at a QoS above 0 the order's packet
/// identifier, big-endian, whatever its value (0 included); then the payload.
/// There is no packet exactly when the length modulo 256 is below 2.
pub proof fn lemma_publish_packet_layout(order: PublishOrder)
    ensures
        ({
            let t = encode_utf8(order.topic_name@);
            let msg = encode_utf8(order.message@);
            let tl = t.len() as int;
            let n = 4 + tl + (if order.sub_qos > 0 { 2int } else { 0int }) + msg.len();
            &&& (publish_packet_bytes(order) is None <==> n % 256 < 2)
            &&& (publish_packet_bytes(order) matches Some(b) ==> {
                &&& b.len() == n
                &&& b[0] / 16 == 3
                &&& ((b[0] / 8) % 2 == 1) == order.is_retry
                &&& (b[0] / 2) % 4 == order.sub_qos % 4
                &&& b[0] % 2 == 0
                &&& (b[1] + 2) % 256 == n % 256
                &&& b[2] * 256 + b[3] == tl % 65536
                &&& b.subrange(4, 4 + tl) == t
                &&& (order.sub_qos > 0 ==> b[4 + tl] * 256 + b[5 + tl] == order.packet_identifier
                    && b.subrange(6 + tl, n) == msg)
                &&& (order.sub_qos == 0 ==> b.subrange(4 + tl, n) == msg)
            })
        }),
{
    let t = encode_utf8(order.topic_name@);
    let msg = encode_utf8(order.message@);
    let tl = t.len() as int;
    let q = order.sub_qos;
    let id = order.packet_identifier;
    let body = publish_body(id, t, msg, q);
    let n = 4 + tl + (if q > 0 { 2int } else { 0int }) + msg.len();
    assert(body.len() + 2 == n);
    if let Some(b) = publish_packet_bytes(order) {
        let h = publish_header(order.is_retry, q);
        let r: int = if order.is_retry { 8 } else { 0 };
        assert(h == 0x30 + r + (q % 4) * 2);
        assert(b[0] == h);
        assert(((tl / 256) % 256) * 256 + tl % 256 == tl % 65536) by (nonlinear_arith)
            requires tl >= 0;
        assert(b[2] == ((tl / 256) % 256) as u8);
        assert(b[3] == (tl % 256) as u8);
        assert(b.subrange(4, 4 + tl) =~= t) by {
            assert forall|k: int| 0 <= k < tl implies b.subrange(4, 4 + tl)[k] == t[k] by {
                assert(b[4 + k] == body[2 + k]);
            }
        }
        if q > 0 {
            assert(b[4 + tl] == body[2 + tl]);
            assert(b[5 + tl] == body[3 + tl]);
            assert(body[2 + tl] == (id / 256) as u8);
            assert(body[3 + tl] == (id % 256) as u8);
            assert(b.subrange(6 + tl, n) =~= msg) by {
                assert forall|k: int| 0 <= k < msg.len() implies b.subrange(6 + tl, n)[k] == msg[k] by {
                    assert(b[6 + tl + k] == body[4 + tl + k]);
                }
            }
        } else {
            assert(b.subrange(4 + tl, n) =~= msg) by {
                assert forall|k: int| 0 <= k < msg.len() implies b.subrange(4 + tl, n)[k] == msg[k] by {
                    assert(b[4 + tl + k] == body[2 + tl + k]);
                }
            }
        }
    }
}

/// Encodes the PUBLISH packet for `order`.
pub fn publish_packet(order: &PublishOrder) -> (res: Option<Vec<u8>>)
    ensures
        match publish_packet_bytes(*order) {
            Some(b) => res matches Some(v) && v@ == b,
            None => res is None,
        },
{
    let mut message_type = MessageType::Publish.to_u8();
    let ghost t0 = message_type;
    if order.is_retry {
        message_type = message_type | 0b00001000;
        assert(0x30u8 | 8u8 == 0x38u8) by (bit_vector);
    }
    let q = order.sub_qos;
    let ghost t1 = message_type;
    message_type = message_type | ((q << 1u8) & 0b00000110);
    proof {
        assert(t1 == 0x30u8 || t1 == 0x38u8);
        assert(t1 == 0x30u8 ==> (t1 | ((q << 1u8) & 6u8)) == 0x30u8 + (q % 4) * 2) by (bit_vector);
        assert(t1 == 0x38u8 ==> (t1 | ((q << 1u8) & 6u8)) == 0x38u8 + (q % 4) * 2) by (bit_vector);
    }
    let topic = order.topic_name.as_str().as_bytes();
    let message = order.message.as_str().as_bytes();
    let mut response: Vec<u8> = Vec::new();
    response.push(message_type);
    response.push(0);
    response.push(((topic.len() / 256) % 256) as u8);
    response.push((topic.len() % 256) as u8);
    append_bytes(&mut response, topic);
    if q > 0 {
        response.push((order.packet_identifier / 256) as u8);
        response.push((order.packet_identifier % 256) as u8);
    }
    append_bytes(&mut response, message);
    let total = response.len();
    let low = (total % 256) as u8;
    let ghost body = publish_body(order.packet_identifier, topic@, message@, q);
    assert(response@.subrange(2, response@.len() as int) =~= body);
    if low < 2 {
        return None;
    }
    response.set(1, low - 2);
    assert(response@ =~= seq![message_type, (low - 2) as u8] + body);
    Some(response)
}

} // verus!
