use vstd::prelude::*;
use crate::mqtt::broker_state::{now_unix_nanos, BrokerState, Client, ClientView, SubscriptionView};
use crate::mqtt::message_reader::{field_chars, field_end, field_fits, read_uft_8_string_with_length_bytes};
use crate::mqtt::message_sender::read_u16_be;
use crate::mqtt::message_type::{type_byte, type_of_byte, MessageType};

verus! {

/// The protocol name a CONNECT must carry: `MQTT`.
pub open spec fn mqtt_protocol_name() -> Seq<u8> {
    seq![0x4Du8, 0x51u8, 0x54u8, 0x54u8]
}

/// The protocol name announced at index 2 lies within the buffer.
pub open spec fn protocol_name_fits(buffer: Seq<u8>) -> bool {
    4 <= buffer.len() && 4 + read_u16_be(buffer, 2) <= buffer.len()
}

/// The CONNECT's protocol name is `MQTT`.
pub open spec fn protocol_name_ok(buffer: Seq<u8>) -> bool {
    buffer.subrange(4, 4 + read_u16_be(buffer, 2)) == mqtt_protocol_name()
}

/// Checks a CONNECT: at least 14 bytes, and the protocol name `MQTT`.
pub fn parse_connect_message(buffer: &[u8]) -> (res: Result<(), String>)
    requires
        buffer@.len() < 14 || protocol_name_fits(buffer@),
    ensures
        buffer@.len() < 14 ==> (res matches Err(e) && e@ == "Message too short to be a valid CONNECT message"@),
        buffer@.len() >= 14 && protocol_name_ok(buffer@) ==> res == Ok::<(), String>(()),
        buffer@.len() >= 14 && !protocol_name_ok(buffer@) ==> (res matches Err(e) && e@ == "Invalid protocol name"@),
{
    if buffer.len() < 14 {
        return Err(String::from_str("Message too short to be a valid CONNECT message"));
    }
    let protocol_name_len = buffer[2] as usize * 256 + buffer[3] as usize;
    if protocol_name_is_mqtt(buffer, protocol_name_len) {
        Ok(())
    } else {
        Err(String::from_str("Invalid protocol name"))
    }
}

/// Whether `buffer[4..4 + len]` is `MQTT`.
fn protocol_name_is_mqtt(buffer: &[u8], len: usize) -> (res: bool)
    requires
        4 + len <= buffer@.len(),
    ensures
        res == (buffer@.subrange(4, 4 + len as int) == mqtt_protocol_name()),
{
    if len != 4 {
        assert(buffer@.subrange(4, 4 + len as int).len() != mqtt_protocol_name().len());
        return false;
    }
    let res = buffer[4] == 0x4D && buffer[5] == 0x51 && buffer[6] == 0x54 && buffer[7] == 0x54;
    if res {
        assert(buffer@.subrange(4, 8) =~= mqtt_protocol_name());
    } else {
        assert(buffer@.subrange(4, 8) != mqtt_protocol_name()) by {
            if buffer@.subrange(4, 8) == mqtt_protocol_name() {
                assert(buffer@.subrange(4, 8)[0] == buffer@[4]);
                assert(buffer@.subrange(4, 8)[1] == buffer@[5]);
                assert(buffer@.subrange(4, 8)[2] == buffer@[6]);
                assert(buffer@.subrange(4, 8)[3] == buffer@[7]);
            }
        }
    }
    res
}

/// The flags of a CONNECT.
#[derive(Debug, Clone, Copy, PartialEq, Eq, Structural)]
pub struct ConnectFlags {
    pub username_flag: bool,
    pub password_flag: bool,
    pub will_retain_flag: bool,
    pub will_qos_flag: u8,
    pub will_flag: bool,
    pub clean_session_flag: bool,
}

/// The flags byte read bit by bit: bit 7 user name, bit 6 password, bit 5
/// will retain, bits 4-3 will QoS, bit 2 will, bit 1 clean session (bit 0 is reserved).
pub open spec fn decode_flags(f: u8) -> ConnectFlags {
    ConnectFlags {
        username_flag: f & 0x80u8 != 0,
        password_flag: f & 0x40u8 != 0,
        will_retain_flag: f & 0x20u8 != 0,
        will_qos_flag: (f >> 3u8) & 3u8,
        will_flag: f & 0x04u8 != 0,
        clean_session_flag: f & 0x02u8 != 0,
    }
}

/// Why a CONNECT could not be taken.
#[derive(Debug, Clone, Copy, PartialEq, Eq, Structural)]
pub enum ConnectError {
    /// A field the packet announces lies beyond the bytes received.
    Truncated,
    /// The reserved lowest bit of the flags byte is set.
    ReservedFlag,
    /// The protocol name is not `MQTT`.
    InvalidProtocolName,
    /// The first packet on a connection is not a CONNECT.
    NotConnect,
}

/// The flags byte decoded; the reserved lowest bit must be clear.
pub fn read_connect_flags(flag_byte: u8) -> (res: Result<ConnectFlags, ConnectError>)
    ensures
        flag_byte & 1 != 0 ==> res == Err::<ConnectFlags, ConnectError>(ConnectError::ReservedFlag),
        flag_byte & 1 == 0 ==> res == Ok::<ConnectFlags, ConnectError>(decode_flags(flag_byte)),
{
    let mut flag_byte = flag_byte;
    let ghost f = flag_byte;
    let mut username_flag: bool = false;
    let mut password_flag: bool = false;
    let mut will_retain_flag: bool = false;
    let mut will_qos_flag: u8 = 0;
    let mut will_flag: bool = false;
    let mut clean_session_flag: bool = false;
    if flag_byte >= 128 {
        username_flag = true;
        flag_byte = flag_byte - 128;
    }
    let ghost x = flag_byte;
    assert(x == f & 0x7f && username_flag == (f & 0x80 != 0)) by (bit_vector)
        requires
            (f >= 128 && x == f - 128 && username_flag) || (f < 128 && x == f && !username_flag);
    if flag_byte >= 64 {
        password_flag = true;
        flag_byte = flag_byte - 64;
    }
    let ghost y = flag_byte;
    assert(y == f & 0x3f && password_flag == (f & 0x40 != 0)) by (bit_vector)
        requires
            x == f & 0x7f,
            (x >= 64 && y == x - 64 && password_flag) || (x < 64 && y == x && !password_flag);
    if flag_byte >= 32 {
        will_retain_flag = true;
        flag_byte = flag_byte - 32;
    }
    let ghost z = flag_byte;
    assert(z == f & 0x1f && will_retain_flag == (f & 0x20 != 0)) by (bit_vector)
        requires
            y == f & 0x3f,
            (y >= 32 && z == y - 32 && will_retain_flag) || (y < 32 && z == y && !will_retain_flag);
    if flag_byte >= 16 {
        will_qos_flag = will_qos_flag + 2;
        flag_byte = flag_byte - 16;
    }
    let ghost w = flag_byte;
    let ghost q1 = will_qos_flag;
    assert(w == f & 0x0f && q1 == ((f >> 3u8) & 2u8)) by (bit_vector)
        requires
            z == f & 0x1f,
            (z >= 16 && w == z - 16 && q1 == 2) || (z < 16 && w == z && q1 == 0);
    if flag_byte >= 8 {
        will_qos_flag = will_qos_flag + 1;
        flag_byte = flag_byte - 8;
    }
    let ghost v = flag_byte;
    let ghost q2 = will_qos_flag;
    assert(v == f & 0x07 && q2 == ((f >> 3u8) & 3u8)) by (bit_vector)
        requires
            w == f & 0x0f,
            q1 == ((f >> 3u8) & 2u8),
            (w >= 8 && v == w - 8 && q2 == q1 + 1) || (w < 8 && v == w && q2 == q1);
    if flag_byte >= 4 {
        will_flag = true;
        flag_byte = flag_byte - 4;
    }
    let ghost u = flag_byte;
    assert(u == f & 0x03 && will_flag == (f & 0x04 != 0)) by (bit_vector)
        requires
            v == f & 0x07,
            (v >= 4 && u == v - 4 && will_flag) || (v < 4 && u == v && !will_flag);
    if flag_byte >= 2 {
        clean_session_flag = true;
        flag_byte = flag_byte - 2;
    }
    let ghost t = flag_byte;
    assert(t == f & 0x01 && clean_session_flag == (f & 0x02 != 0)) by (bit_vector)
        requires
            u == f & 0x03,
            (u >= 2 && t == u - 2 && clean_session_flag) || (u < 2 && t == u && !clean_session_flag);
    if flag_byte >= 1 {
        return Err(ConnectError::ReservedFlag);
    }
    Ok(ConnectFlags {
        username_flag,
        password_flag,
        will_retain_flag,
        will_qos_flag,
        will_flag,
        clean_session_flag,
    })
}


/// The fields of a CONNECT as the broker reads them.
#[derive(Debug)]
pub struct ConnectPacket {
    pub flags: ConnectFlags,
    pub keep_alive_seconds: usize,
    pub client_id: String,
    pub will_topic: String,
    pub will_text: String,
    pub username: String,
    pub password: String,
}

/// The fields of a CONNECT as a value.
pub struct ConnectView {
    pub flags: ConnectFlags,
    pub keep_alive_seconds: usize,
    pub client_id: Seq<char>,
    pub will_topic: Seq<char>,
    pub will_text: Seq<char>,
    pub username: Seq<char>,
    pub password: Seq<char>,
}

impl View for ConnectPacket {
    type V = ConnectView;

    open spec fn view(&self) -> ConnectView {
        ConnectView {
            flags: self.flags,
            keep_alive_seconds: self.keep_alive_seconds,
            client_id: self.client_id@,
            will_topic: self.will_topic@,
            will_text: self.will_text@,
            username: self.username@,
            password: self.password@,
        }
    }
}

/// The field at `index` when `present`, else nothing.
pub open spec fn optional_field(buffer: Seq<u8>, index: int, present: bool) -> Seq<char> {
    if present {
        field_chars(buffer, index)
    } else {
        Seq::empty()
    }
}

/// Where an optional field ends: past it when `present`, else where it would start.
pub open spec fn optional_end(buffer: Seq<u8>, index: int, present: bool) -> int {
    if present {
        field_end(buffer, index)
    } else {
        index
    }
}

/// An optional field that is present lies within the buffer.
pub open spec fn optional_fits(buffer: Seq<u8>, index: int, present: bool) -> bool {
    present ==> field_fits(buffer, index)
}

/// A CONNECT read from its fixed positions: flags at 9, keep-alive at 10-11,
/// the client identifier at 12; then, each length-prefixed, the will topic and
/// will text when the will flag is set, the user name and the password when
/// their flags are set.
pub open spec fn connect_fields(buffer: Seq<u8>) -> Result<ConnectView, ConnectError> {
    if buffer.len() < 10 {
        Err(ConnectError::Truncated)
    } else if buffer[9] & 1 != 0 {
        Err(ConnectError::ReservedFlag)
    } else {
        let flags = decode_flags(buffer[9]);
        let i0 = field_end(buffer, 12);
        let i1 = optional_end(buffer, i0, flags.will_flag);
        let i2 = optional_end(buffer, i1, flags.will_flag);
        let i3 = optional_end(buffer, i2, flags.username_flag);
        if !(buffer.len() >= 14 && field_fits(buffer, 12) && optional_fits(buffer, i0, flags.will_flag)
            && optional_fits(buffer, i1, flags.will_flag) && optional_fits(buffer, i2, flags.username_flag)
            && optional_fits(buffer, i3, flags.password_flag)) {
            Err(ConnectError::Truncated)
        } else {
            Ok(ConnectView {
                flags,
                keep_alive_seconds: read_u16_be(buffer, 10) as usize,
                client_id: field_chars(buffer, 12),
                will_topic: optional_field(buffer, i0, flags.will_flag),
                will_text: optional_field(buffer, i1, flags.will_flag),
                username: optional_field(buffer, i2, flags.username_flag),
                password: optional_field(buffer, i3, flags.password_flag),
            })
        }
    }
}

/// Each connect flag is its own bit of the flags byte, whatever the others:
/// the user name bit 7, the password bit 6, will retain bit 5, will QoS bits
/// 4-3, the will flag bit 2 and clean session bit 1.
pub proof fn lemma_connect_flag_bits(f: u8)
    ensures
        decode_flags(f).username_flag == (f / 128 == 1),
        decode_flags(f).password_flag == ((f / 64) % 2 == 1),
        decode_flags(f).will_retain_flag == ((f / 32) % 2 == 1),
        decode_flags(f).will_qos_flag == (f / 8) % 4,
        decode_flags(f).will_flag == ((f / 4) % 2 == 1),
        decode_flags(f).clean_session_flag == ((f / 2) % 2 == 1),
{
    assert((f & 0x80u8 != 0) == (f / 128 == 1)) by (bit_vector);
    assert((f & 0x40u8 != 0) == ((f / 64) % 2 == 1)) by (bit_vector);
    assert((f & 0x20u8 != 0) == ((f / 32) % 2 == 1)) by (bit_vector);
    assert(((f >> 3u8) & 3u8) == (f / 8) % 4) by (bit_vector);
    assert((f & 0x04u8 != 0) == ((f / 4) % 2 == 1)) by (bit_vector);
    assert((f & 0x02u8 != 0) == ((f / 2) % 2 == 1)) by (bit_vector);
}

/// A CONNECT without the will flag carries no will: right after the client
/// identifier come the user name and then the password, each when its flag is
/// set; when these fields lie within the packet it is taken.
pub proof fn lemma_connect_without_will(buffer: Seq<u8>)
    requires
        buffer.len() >= 14,
        buffer[9] % 2 == 0,
        (buffer[9] / 4) % 2 == 0,
        field_fits(buffer, 12),
        buffer[9] / 128 == 1 ==> field_fits(buffer, field_end(buffer, 12)),
        (buffer[9] / 64) % 2 == 1 ==> field_fits(
            buffer,
            if buffer[9] / 128 == 1 { field_end(buffer, field_end(buffer, 12)) } else { field_end(buffer, 12) },
        ),
    ensures
        connect_fields(buffer) matches Ok(v) && v.will_topic.len() == 0 && v.will_text.len() == 0
            && !v.flags.will_flag
            && v.client_id == field_chars(buffer, 12)
            && v.username == (if buffer[9] / 128 == 1 {
                field_chars(buffer, field_end(buffer, 12))
            } else {
                Seq::empty()
            })
            && v.password == (if (buffer[9] / 64) % 2 == 1 {
                field_chars(
                    buffer,
                    if buffer[9] / 128 == 1 { field_end(buffer, field_end(buffer, 12)) } else { field_end(buffer, 12) },
                )
            } else {
                Seq::empty()
            }),
{
    let f = buffer[9];
    lemma_connect_flag_bits(f);
    assert((f & 1 != 0) == (f % 2 == 1)) by (bit_vector);
}

/// Reads the optional length-prefixed field at `index`.
fn read_optional_field(buffer: &[u8], index: usize, present: bool) -> (res: Option<(String, usize)>)
    ensures
        match res {
            Some((s, next)) => optional_fits(buffer@, index as int, present) && s@ == optional_field(
                buffer@,
                index as int,
                present,
            ) && next == optional_end(buffer@, index as int, present),
            None => !optional_fits(buffer@, index as int, present),
        },
{
    if !present {
        return Some((String::new(), index));
    }
    if index >= buffer.len() || buffer.len() - index < 2 {
        return None;
    }
    let length = buffer[index] as usize * 256 + buffer[index + 1] as usize;
    if buffer.len() - index - 2 < length {
        return None;
    }
    Some(read_uft_8_string_with_length_bytes(buffer, index))
}

/// Reads the fields of a CONNECT.
pub fn read_connect_packet(buffer: &[u8]) -> (res: Result<ConnectPacket, ConnectError>)
    ensures
        match connect_fields(buffer@) {
            Ok(v) => res matches Ok(p) && p@ == v,
            Err(e) => res == Err::<ConnectPacket, ConnectError>(e),
        },
{
    if buffer.len() < 10 {
        return Err(ConnectError::Truncated);
    }
    let flags = match read_connect_flags(buffer[9]) {
        Ok(f) => f,
        Err(e) => {
            return Err(e);
        },
    };
    if buffer.len() < 14 {
        return Err(ConnectError::Truncated);
    }
    let keep_alive_secounds = buffer[10] as usize * 256 + buffer[11] as usize;
    let (client_id, i0) = match read_optional_field(buffer, 12, true) {
        Some(r) => r,
        None => {
            return Err(ConnectError::Truncated);
        },
    };
    let (will_topic, i1) = match read_optional_field(buffer, i0, flags.will_flag) {
        Some(r) => r,
        None => {
            return Err(ConnectError::Truncated);
        },
    };
    let (will_text, i2) = match read_optional_field(buffer, i1, flags.will_flag) {
        Some(r) => r,
        None => {
            return Err(ConnectError::Truncated);
        },
    };
    let (username, i3) = match read_optional_field(buffer, i2, flags.username_flag) {
        Some(r) => r,
        None => {
            return Err(ConnectError::Truncated);
        },
    };
    let (password, _i4) = match read_optional_field(buffer, i3, flags.password_flag) {
        Some(r) => r,
        None => {
            return Err(ConnectError::Truncated);
        },
    };
    Ok(ConnectPacket {
        flags,
        keep_alive_seconds: keep_alive_secounds,
        client_id,
        will_topic,
        will_text,
        username,
        password,
    })
}

/// The client a CONNECT registers, apart from the time of its last contact.
pub open spec fn connected_client(v: ConnectView, thread_id: u64, c: ClientView) -> bool {
    &&& c.thread_id == thread_id
    &&& !c.cancellation_requested
    &&& c.subscriptions == Seq::<SubscriptionView>::empty()
    &&& c.client_id@ == v.client_id
    &&& c.will_topic@ == v.will_topic
    &&& c.will_text@ == v.will_text
    &&& c.will_retain == v.flags.will_retain_flag
    &&& c.will_qos == v.flags.will_qos_flag
    &&& c.clean_session == v.flags.clean_session_flag
    &&& c.keep_alive_seconds == v.keep_alive_seconds
}

/// Registers the client a CONNECT describes, with no subscriptions, heard
/// from at `now`.
pub fn create_client(packet: ConnectPacket, thread_id: u64, broker_state: &mut BrokerState, now: i128)
    ensures
        final(broker_state)@.len() == old(broker_state)@.len() + 1,
        final(broker_state)@.drop_last() == old(broker_state)@,
        connected_client(packet@, thread_id, final(broker_state)@.last()),
        final(broker_state)@.last().last_connection == now,
{
    let ghost pv = packet@;
    let ConnectPacket { flags, keep_alive_seconds, client_id, will_topic, will_text, username: _, password: _ } = packet;
    let client = Client::new(
        thread_id,
        client_id,
        will_topic,
        will_text,
        flags.will_retain_flag,
        flags.will_qos_flag,
        flags.clean_session_flag,
        keep_alive_seconds,
        Vec::new(),
        false,
        now,
    );
    assert(client@.subscriptions =~= Seq::<SubscriptionView>::empty());
    broker_state.clients.push(client);
    assert(broker_state@.drop_last() =~= old(broker_state)@);
}

/// The CONNACK: connection accepted.
pub open spec fn connack_bytes() -> Seq<u8> {
    seq![type_byte(MessageType::Connack), 2u8, 0u8, 0u8]
}

/// Builds the CONNACK.
pub fn send_connack() -> (res: Vec<u8>)
    ensures
        res@ == connack_bytes(),
{
    let mut response: Vec<u8> = Vec::new();
    response.push(MessageType::Connack.to_u8());
    response.push(2);
    response.push(0);
    response.push(0);
    assert(response@ =~= connack_bytes());
    response
}

/// What taking a CONNECT comes to: checked protocol name, then the fields.
pub open spec fn connect_outcome(buffer: Seq<u8>) -> Result<ConnectView, ConnectError> {
    if !protocol_name_fits(buffer) {
        Err(ConnectError::Truncated)
    } else if !protocol_name_ok(buffer) {
        Err(ConnectError::InvalidProtocolName)
    } else {
        connect_fields(buffer)
    }
}

/// Takes a CONNECT received at `now`: checks the protocol name, registers
/// the client, and answers with a CONNACK. On an error nothing is registered.
pub fn handle_connect(
    buffer: &[u8],
    thread_id: u64,
    broker_state: &mut BrokerState,
    now: i128,
) -> (res: Result<Vec<u8>, ConnectError>)
    ensures
        match connect_outcome(buffer@) {
            Ok(v) => {
                &&& res matches Ok(r) && r@ == connack_bytes()
                &&& final(broker_state)@.len() == old(broker_state)@.len() + 1
                &&& final(broker_state)@.drop_last() == old(broker_state)@
                &&& connected_client(v, thread_id, final(broker_state)@.last())
                &&& final(broker_state)@.last().last_connection == now
            },
            Err(e) => res == Err::<Vec<u8>, ConnectError>(e) && final(broker_state)@ == old(broker_state)@,
        },
{
    if buffer.len() < 4 {
        return Err(ConnectError::Truncated);
    }
    let protocol_name_len = buffer[2] as usize * 256 + buffer[3] as usize;
    if buffer.len() - 4 < protocol_name_len {
        return Err(ConnectError::Truncated);
    }
    if !protocol_name_is_mqtt(buffer, protocol_name_len) {
        return Err(ConnectError::InvalidProtocolName);
    }
    match read_connect_packet(buffer) {
        Err(e) => Err(e),
        Ok(packet) => {
            create_client(packet, thread_id, broker_state, now);
            Ok(send_connack())
        },
    }
}

/// Takes the first packet of a connection, which must be a CONNECT; the
/// client is stamped with the clock's reading.
pub fn connect(buffer: &[u8], thread_id: u64, broker_state: &mut BrokerState) -> (res: Result<Vec<u8>, ConnectError>)
    ensures
        (buffer@.len() == 0 || type_of_byte(buffer@[0]) != Some(MessageType::Connect)) ==> res
            == Err::<Vec<u8>, ConnectError>(ConnectError::NotConnect) && final(broker_state)@ == old(broker_state)@,
        buffer@.len() > 0 && type_of_byte(buffer@[0]) == Some(MessageType::Connect) ==> match connect_outcome(buffer@) {
            Ok(v) => {
                &&& res matches Ok(r) && r@ == connack_bytes()
                &&& final(broker_state)@.len() == old(broker_state)@.len() + 1
                &&& final(broker_state)@.drop_last() == old(broker_state)@
                &&& connected_client(v, thread_id, final(broker_state)@.last())
            },
            Err(e) => res == Err::<Vec<u8>, ConnectError>(e) && final(broker_state)@ == old(broker_state)@,
        },
{
    if buffer.len() == 0 {
        return Err(ConnectError::NotConnect);
    }
    match MessageType::from_u8(buffer[0]) {
        Some(MessageType::Connect) => {
            let now = now_unix_nanos();
            handle_connect(buffer, thread_id, broker_state, now)
        },
        _ => Err(ConnectError::NotConnect),
    }
}

} // verus!
