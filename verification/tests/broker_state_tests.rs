use mqtt_broker::mqtt::broker::{create_thread_id, KeeperRound};
use mqtt_broker::mqtt::broker_state::{BrokerState, Client, MessageState, Subscription, SubscriptionMessage};
use mqtt_broker::mqtt::client_handler::{handle_client_packet, PacketOutcome, WILL_PACKET_IDENTIFIER};
use mqtt_broker::mqtt::message_handlers::connect_handler::{connect, handle_connect, ConnectError};
use mqtt_broker::mqtt::message_handlers::publish_handler::{handle_publish, process_publish};
use mqtt_broker::mqtt::message_handlers::pubrec_handler::handle_pubrec;
use mqtt_broker::mqtt::message_handlers::pubrel_handler::handle_pubrel;
use mqtt_broker::mqtt::message_handlers::subscribe_handler::{add_topic_to_broker_state, handle_subscribe};
use mqtt_broker::mqtt::message_handlers::unsubscribe_handle::{handle_unsubscribe, unsubscribe_from_topics};
use mqtt_broker::mqtt::message_handlers::PacketError;

const SECOND: i128 = 1_000_000_000;

fn client(thread_id: u64) -> Client {
    Client::new(thread_id, "c".to_string(), "will/t".to_string(), "bye".to_string(), false, 1, true, 60, vec![], false, 5 * SECOND)
}

fn message(id: u16, state: MessageState, qos: u8, retries: u8, at: i128) -> SubscriptionMessage {
    let mut m = SubscriptionMessage::with_delivery("m".to_string(), qos, state, id, at);
    m.retry_count = retries;
    m
}

fn subscription(topic: &str, qos: u8, messages: Vec<SubscriptionMessage>) -> Subscription {
    let mut s = Subscription::new(topic.to_string());
    s.sub_qos = qos;
    s.messages = messages;
    s
}

fn states(s: &Subscription) -> Vec<(u16, MessageState)> {
    s.messages.iter().map(|m| (m.packet_identifier, m.message_state)).collect()
}

#[test]
fn constructors() {
    let m = SubscriptionMessage::new("hello".to_string());
    assert_eq!(m.message, "hello");
    assert!(!m.message_sent);
    assert_eq!(m.message_state, MessageState::Queued);
    assert_eq!((m.packet_identifier, m.pub_qos, m.retry_count, m.last_updated), (0, 0, 0, 0));
    let s = Subscription::new("a".to_string());
    assert_eq!(s.topic_title, "a");
    assert!(s.messages.is_empty());
    assert_eq!(s.sub_qos, 2);
    let c = client(3);
    assert_eq!(c.thread_id, 3);
    assert_eq!(c.will_topic, "will/t");
    assert_eq!(c.last_connection, 5 * SECOND);
    assert!(BrokerState::new().clients.is_empty());
}

#[test]
fn thread_ids_are_random() {
    let a = create_thread_id();
    let b = create_thread_id();
    let c = create_thread_id();
    assert!(a != b || b != c);
}

#[test]
fn message_updates() {
    let mut m = message(1, MessageState::PublishSent, 1, 0, 5);
    m.update_state(MessageState::MessageAcknowledged, 99);
    assert_eq!((m.message_state, m.last_updated), (MessageState::MessageAcknowledged, 99));
    m.add_retry();
    m.add_retry();
    assert_eq!(m.retry_count, 2);
    m.retry_count = 255;
    m.add_retry();
    assert_eq!(m.retry_count, 255);
}

#[test]
fn update_message_state_touches_matching_ids() {
    let mut c = client(1);
    c.subscriptions.push(subscription("a", 2, vec![message(4, MessageState::PublishSent, 1, 0, 0), message(5, MessageState::PublishSent, 1, 0, 0)]));
    c.subscriptions.push(subscription("b", 2, vec![message(4, MessageState::PublishSent, 1, 0, 0)]));
    c.update_message_state(4, MessageState::MessageAcknowledged, 77);
    assert_eq!(states(&c.subscriptions[0]), vec![(4, MessageState::MessageAcknowledged), (5, MessageState::PublishSent)]);
    assert_eq!(states(&c.subscriptions[1]), vec![(4, MessageState::MessageAcknowledged)]);
    assert_eq!(c.subscriptions[1].messages[0].last_updated, 77);
    assert_eq!(c.subscriptions[0].messages[1].last_updated, 0);
}

fn broker_with(ids: &[u64]) -> BrokerState {
    let mut b = BrokerState::new();
    for id in ids {
        b.clients.push(client(*id));
    }
    b
}

#[test]
fn find_client_first_match() {
    let b = broker_with(&[5, 6, 5]);
    assert_eq!(b.find_client(5), Some(0));
    assert_eq!(b.find_client(6), Some(1));
    assert_eq!(b.find_client(7), None);
}

#[test]
fn subscribe_and_suback() {
    let mut b = broker_with(&[1, 2]);
    let packet = [0x80, 0x08, 0x12, 0x34, 0x00, 0x03, b'a', b'/', b'b', 0x00];
    assert_eq!(handle_subscribe(&packet, 2, &mut b), Ok(vec![0x90, 0x03, 0x12, 0x34, 0x00]));
    assert_eq!(b.clients[1].subscriptions.len(), 1);
    assert_eq!(b.clients[1].subscriptions[0].topic_title, "a/b");
    assert!(b.clients[0].subscriptions.is_empty());
    assert_eq!(handle_subscribe(&packet, 9, &mut b), Err(PacketError::UnknownClient));
    assert_eq!(handle_subscribe(&packet[..9], 2, &mut b), Err(PacketError::Malformed));
    assert_eq!(b.clients[1].subscriptions.len(), 1);
    assert!(add_topic_to_broker_state("x".to_string(), 1, &mut b));
    assert!(!add_topic_to_broker_state("x".to_string(), 3, &mut b));
    assert_eq!(b.clients[0].subscriptions[0].topic_title, "x");
}

#[test]
fn publish_reaches_matching_subscriptions() {
    let mut b = broker_with(&[1, 2]);
    b.clients[0].subscriptions.push(Subscription::new("t".to_string()));
    b.clients[0].subscriptions.push(Subscription::new("u".to_string()));
    b.clients[1].subscriptions.push(Subscription::new("t".to_string()));
    let packet = [0x30, 0x05, 0x00, 0x01, b't', b'h', b'i'];
    assert_eq!(handle_publish(&packet, &mut b), Ok(()));
    assert_eq!(b.clients[0].subscriptions[0].messages.len(), 1);
    assert_eq!(b.clients[0].subscriptions[0].messages[0].message, "hi");
    assert_eq!(b.clients[0].subscriptions[1].messages.len(), 0);
    assert_eq!(b.clients[1].subscriptions[0].messages[0].message_state, MessageState::Queued);
    assert_eq!(handle_publish(&[0x30, 0x09, 0x00, 0x01, b't'], &mut b), Err(PacketError::Malformed));
    process_publish(&mut b, &"u".to_string(), &"w".to_string(), 2, MessageState::Queued, 44, 10);
    let m = &b.clients[0].subscriptions[1].messages[0];
    assert_eq!((m.packet_identifier, m.pub_qos, m.last_updated), (44, 2, 10));
}

#[test]
fn publish_to_unsubscribed_topic_changes_nothing() {
    let mut b = broker_with(&[1]);
    b.clients[0].subscriptions.push(Subscription::new("t".to_string()));
    assert_eq!(handle_publish(&[0x30, 0x04, 0x00, 0x01, b'z', b'!'], &mut b), Ok(()));
    assert!(b.clients[0].subscriptions[0].messages.is_empty());
}

#[test]
fn subscribe_then_unsubscribe_restores() {
    let mut c = client(1);
    c.subscriptions.push(Subscription::new("keep".to_string()));
    c.subscriptions.push(Subscription::new("t".to_string()));
    let unsub = [0xA2, 0x05, 0x00, 0x01, 0x00, 0x01, b't'];
    assert_eq!(handle_unsubscribe(&unsub, &mut c), Ok(()));
    assert_eq!(c.subscriptions.len(), 1);
    assert_eq!(c.subscriptions[0].topic_title, "keep");
    assert_eq!(handle_unsubscribe(&unsub, &mut c), Err(PacketError::NotSubscribed));
    assert_eq!(handle_unsubscribe(&[0xA2, 0x09, 0x00, 0x01, 0x00, 0x05, b't'], &mut c), Err(PacketError::Malformed));
}

#[test]
fn unsubscribe_removes_first_and_stops_at_missing() {
    let mut c = client(1);
    for t in ["a", "b", "a"] {
        c.subscriptions.push(Subscription::new(t.to_string()));
    }
    assert!(!unsubscribe_from_topics(vec!["a".to_string(), "z".to_string(), "b".to_string()], &mut c));
    let topics: Vec<&str> = c.subscriptions.iter().map(|s| s.topic_title.as_str()).collect();
    assert_eq!(topics, vec!["b", "a"]);
}

#[test]
fn pubrec_and_pubrel_handlers() {
    let mut c = client(1);
    c.subscriptions.push(subscription("a", 2, vec![message(0x0102, MessageState::PublishSent, 2, 0, 3)]));
    assert_eq!(handle_pubrec(&[0x50, 0x02, 0x01, 0x02], &mut c, 50), Ok(vec![0x60, 0x02, 0x01, 0x02]));
    assert_eq!(c.subscriptions[0].messages[0].message_state, MessageState::SubscriptionReceived);
    assert_eq!(c.subscriptions[0].messages[0].last_updated, 50);
    assert_eq!(handle_pubrel(&[0x62, 0x02, 0x01, 0x02], &mut c), Ok(vec![0x70, 0x02, 0x01, 0x02]));
    assert_eq!(c.subscriptions[0].messages[0].message_state, MessageState::Released);
    assert_eq!(c.subscriptions[0].messages[0].last_updated, 50);
    assert_eq!(handle_pubrec(&[0x50, 0x02, 0x01], &mut c, 0), Err(PacketError::Malformed));
}

fn connect_packet() -> Vec<u8> {
    vec![0x10, 0x14, 0x00, 0x04, b'M', b'Q', b'T', b'T', 0x04, 0x06, 0x00, 0x0A, 0x00, 0x01, b'c', 0x00, 0x01, b'w', 0x00, 0x02, b'g', b'o']
}

#[test]
fn connect_registers_client() {
    let mut b = BrokerState::new();
    assert_eq!(connect(&connect_packet(), 11, &mut b), Ok(vec![0x20, 0x02, 0x00, 0x00]));
    assert_eq!(b.clients.len(), 1);
    let c = &b.clients[0];
    assert_eq!((c.thread_id, c.keep_alive_seconds, c.clean_session, c.will_qos), (11, 10, true, 0));
    assert_eq!((c.client_id.as_str(), c.will_topic.as_str(), c.will_text.as_str()), ("c", "w", "go"));
    assert_eq!(connect(&[0x30, 0x00], 12, &mut b), Err(ConnectError::NotConnect));
    assert_eq!(connect(&[], 12, &mut b), Err(ConnectError::NotConnect));
    let mut bad = connect_packet();
    bad[5] = b'X';
    assert_eq!(handle_connect(&bad, 12, &mut b, 7), Err(ConnectError::InvalidProtocolName));
    assert_eq!(handle_connect(&[0x10, 0x00, 0x00, 0x09, b'M'], 12, &mut b, 7), Err(ConnectError::Truncated));
    assert_eq!(b.clients.len(), 1);
    assert!(b.clients[0].last_connection > 0);
}

#[test]
fn handle_connect_stamps_client() {
    let mut b = BrokerState::new();
    assert_eq!(handle_connect(&connect_packet(), 21, &mut b, 77 * SECOND), Ok(vec![0x20, 0x02, 0x00, 0x00]));
    assert_eq!(b.clients.len(), 1);
    assert_eq!((b.clients[0].thread_id, b.clients[0].last_connection), (21, 77 * SECOND));
}

fn padded(bytes: &[u8]) -> ([u8; 64], usize) {
    let mut buffer = [0u8; 64];
    buffer[..bytes.len()].copy_from_slice(bytes);
    (buffer, bytes.len())
}

fn reply(o: PacketOutcome) -> Option<Vec<u8>> {
    match o {
        PacketOutcome::Reply(v) => Some(v),
        _ => None,
    }
}

#[test]
fn client_packet_dispatch() {
    let mut b = broker_with(&[1]);
    b.clients[0].subscriptions.push(subscription("a", 2, vec![message(7, MessageState::PublishSent, 2, 0, 0)]));
    let (buf, n) = padded(&[0x50, 0x02, 0x00, 0x07]);
    assert_eq!(reply(handle_client_packet(&mut b, 1, &buf, n, 500)), Some(vec![0x60, 0x02, 0x00, 0x07]));
    assert_eq!(b.clients[0].subscriptions[0].messages[0].message_state, MessageState::MessageReceived);
    assert_eq!(b.clients[0].last_connection, 500);
    let (buf, n) = padded(&[0x60, 0x02, 0x00, 0x07]);
    assert_eq!(reply(handle_client_packet(&mut b, 1, &buf, n, 600)), Some(vec![0x70, 0x02, 0x00, 0x07]));
    assert_eq!(b.clients[0].subscriptions[0].messages[0].message_state, MessageState::PublishReleased);
    let (buf, n) = padded(&[0x70, 0x02, 0x00, 0x07]);
    assert!(matches!(handle_client_packet(&mut b, 1, &buf, n, 700), PacketOutcome::NoReply));
    assert_eq!(b.clients[0].subscriptions[0].messages[0].message_state, MessageState::MessageCompleted);
    let (buf, n) = padded(&[0x40, 0x02, 0x00, 0x07]);
    assert!(matches!(handle_client_packet(&mut b, 1, &buf, n, 800), PacketOutcome::NoReply));
    assert_eq!(b.clients[0].subscriptions[0].messages[0].message_state, MessageState::MessageAcknowledged);
    let (buf, n) = padded(&[0xC0, 0x00]);
    assert_eq!(reply(handle_client_packet(&mut b, 1, &buf, n, 900)), Some(vec![0xD0, 0x00]));
    let (buf, n) = padded(&[0xE0, 0x00]);
    assert!(matches!(handle_client_packet(&mut b, 1, &buf, n, 900), PacketOutcome::Close));
    let (buf, n) = padded(&[0x32, 0x00]);
    assert!(matches!(handle_client_packet(&mut b, 1, &buf, n, 900), PacketOutcome::Close));
    assert!(matches!(handle_client_packet(&mut b, 1, &buf, 0, 901), PacketOutcome::Close));
    assert_eq!(b.clients[0].last_connection, 900);
    assert!(matches!(handle_client_packet(&mut b, 2, &buf, n, 900), PacketOutcome::Failed(PacketError::UnknownClient)));
    let (buf, n) = padded(&[0x80, 0x06, 0x00, 0x01, 0x00, 0x01, b'q', 0x00]);
    assert_eq!(reply(handle_client_packet(&mut b, 1, &buf, n, 900)), Some(vec![0x90, 0x03, 0x00, 0x01, 0x00]));
    let (buf, n) = padded(&[0xA0, 0x05, 0x00, 0x02, 0x00, 0x01, b'q']);
    assert!(matches!(handle_client_packet(&mut b, 1, &buf, n, 900), PacketOutcome::NoReply));
    assert_eq!(b.clients[0].subscriptions.len(), 1);
    let (buf, n) = padded(&[0x30, 0x04, 0x00, 0x01, b'a', b'!']);
    assert!(matches!(handle_client_packet(&mut b, 1, &buf, n, 900), PacketOutcome::NoReply));
    assert_eq!(b.clients[0].subscriptions[0].messages.len(), 2);
    assert_eq!(b.clients[0].subscriptions[0].messages[1].message, "!");
}

#[test]
fn will_is_published() {
    let mut b = broker_with(&[1, 2]);
    b.clients[1].subscriptions.push(Subscription::new("will/t".to_string()));
    assert!(b.publish_will(1, 42));
    let m = &b.clients[1].subscriptions[0].messages[0];
    assert_eq!((m.message.as_str(), m.packet_identifier, m.pub_qos, m.last_updated), ("bye", WILL_PACKET_IDENTIFIER, 1, 42));
    assert_eq!(m.message_state, MessageState::Queued);
    assert!(!b.publish_will(3, 42));
}

#[test]
fn client_stream_pass() {
    let now = 100 * SECOND;
    let mut c = client(1);
    c.last_connection = now - 10 * SECOND;
    c.subscriptions.push(subscription(
        "a",
        1,
        vec![
            message(1, MessageState::Queued, 0, 0, 0),          // sent once, finished
            message(2, MessageState::Queued, 1, 0, 0),          // sent, awaits ack
            message(3, MessageState::PublishSent, 1, 0, now - 11 * SECOND), // retried
            message(4, MessageState::PublishSent, 1, 4, now - 11 * SECOND), // retried, given up
            message(5, MessageState::PublishSent, 1, 0, now - 5 * SECOND),  // not yet due
            message(6, MessageState::MessageCompleted, 1, 0, 0), // dropped
        ],
    ));
    let pass = c.stream_delivery_pass(now);
    let ids: Vec<u16> = pass.orders.iter().map(|o| o.packet_identifier).collect();
    assert_eq!(ids, vec![1, 2, 3, 4]);
    assert!(pass.orders.iter().all(|o| o.topic_name == "a" && o.sub_qos == 1));
    let resends: Vec<bool> = pass.orders.iter().map(|o| o.is_retry).collect();
    assert_eq!(resends, vec![false, false, true, true]);
    assert_eq!(states(&c.subscriptions[0]), vec![(2, MessageState::PublishSent), (3, MessageState::PublishSent), (5, MessageState::PublishSent)]);
    assert_eq!(c.subscriptions[0].messages[0].last_updated, now);
    assert_eq!(c.subscriptions[0].messages[1].retry_count, 1);
    assert!(!pass.connection_expired);
    assert!(!c.cancellation_requested);
}

#[test]
fn client_stream_pass_expires_silent_client() {
    let now = 1000 * SECOND;
    let mut b = broker_with(&[1]);
    b.clients[0].last_connection = now - 91 * SECOND;
    let pass = b.handle_second_stream(1, now).unwrap();
    assert!(pass.connection_expired);
    assert!(b.clients[0].cancellation_requested);
    b.clients[0].last_connection = now - 90 * SECOND;
    b.clients[0].cancellation_requested = false;
    assert!(!b.handle_second_stream(1, now).unwrap().connection_expired);
    assert!(b.handle_second_stream(2, now).is_none());
}

#[test]
fn keeper_round_lowers_qos_and_completes() {
    let now = 100 * SECOND;
    let mut b = broker_with(&[1, 2]);
    b.clients[0].last_connection = now;
    b.clients[1].last_connection = now;
    b.clients[0].subscriptions.push(subscription(
        "a",
        2,
        vec![message(1, MessageState::Queued, 1, 0, 0), message(2, MessageState::Queued, 2, 0, 0), message(3, MessageState::Queued, 0, 0, 0)],
    ));
    let round: KeeperRound = b.keeper_round(now);
    let sent: Vec<(u64, u16, u8)> = round.orders.iter().map(|(t, o)| (*t, o.packet_identifier, o.sub_qos)).collect();
    assert_eq!(sent, vec![(1, 1, 1), (1, 2, 1), (1, 3, 0)]);
    assert_eq!(b.clients[0].subscriptions[0].sub_qos, 0);
    assert_eq!(states(&b.clients[0].subscriptions[0]), vec![(1, MessageState::PublishSent), (2, MessageState::PublishSent)]);
    assert_eq!(round.shutdown, None);
    assert!(!round.keeper_done);
}

#[test]
fn keeper_round_stops_at_cancelled_or_silent() {
    let now = 100 * SECOND;
    let mut b = broker_with(&[1, 2, 3]);
    for c in b.clients.iter_mut() {
        c.last_connection = now;
        c.subscriptions.push(subscription("a", 2, vec![message(9, MessageState::Queued, 0, 0, 0)]));
    }
    b.clients[1].cancellation_requested = true;
    let round = b.keeper_round(now);
    assert_eq!(round.shutdown, Some(2));
    assert!(!round.keeper_done);
    assert_eq!(round.orders.len(), 1);
    assert!(b.clients[0].subscriptions[0].messages.is_empty());
    assert_eq!(b.clients[1].subscriptions[0].messages.len(), 1);
    assert_eq!(b.clients[2].subscriptions[0].messages.len(), 1);

    let mut b = broker_with(&[1, 2, 3]);
    for c in b.clients.iter_mut() {
        c.last_connection = now;
        c.subscriptions.push(subscription("a", 2, vec![message(9, MessageState::Queued, 0, 0, 0)]));
    }
    b.clients[1].last_connection = now - 91 * SECOND;
    let round = b.keeper_round(now);
    assert_eq!(round.shutdown, None);
    assert!(round.keeper_done);
    assert_eq!(round.orders.len(), 2);
    assert!(b.clients[1].cancellation_requested);
    assert!(b.clients[1].subscriptions[0].messages.is_empty());
    assert_eq!(b.clients[2].subscriptions[0].messages.len(), 1);
}

#[test]
fn keeper_round_resends_with_dup() {
    let now = 100 * SECOND;
    let mut b = broker_with(&[1]);
    b.clients[0].last_connection = now;
    b.clients[0].subscriptions.push(subscription(
        "a",
        1,
        vec![message(5, MessageState::PublishSent, 1, 0, now - 11 * SECOND), message(6, MessageState::Queued, 1, 0, 0)],
    ));
    let round = b.keeper_round(now);
    let sent: Vec<(u16, bool)> = round.orders.iter().map(|(_, o)| (o.packet_identifier, o.is_retry)).collect();
    assert_eq!(sent, vec![(5, true), (6, false)]);
    assert_eq!(b.clients[0].subscriptions[0].messages[0].retry_count, 1);
}
