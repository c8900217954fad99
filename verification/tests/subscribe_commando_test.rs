use mqtt_broker::mqtt::broker_state::BrokerState;
use mqtt_broker::mqtt::client_handler::{handle_client_packet, PacketOutcome};
use mqtt_broker::mqtt::message_handlers::connect_handler::connect;

/// A connection's read buffer holding `bytes` at its start, as the broker reads
/// into its fixed-size buffer.
fn read_into(buffer: &mut [u8; 2024], bytes: &[u8]) -> usize {
    buffer[..bytes.len()].copy_from_slice(bytes);
    bytes.len()
}

fn construct_connect_message() -> Vec<u8> {
    vec![
        0x10, 0x16, 0x00, 0x04, 0x4D, 0x51, 0x54, 0x54, 0x04, 0x02, 0x00, 0x3C, 0x00, 0x0A, 0x54, 0x65,
        0x73, 0x74, 0x43, 0x6C, 0x69, 0x65, 0x6E, 0x74,
    ]
}

fn construct_connack_message() -> Vec<u8> {
    vec![0x20, 0x02, 0x00, 0x00]
}

#[test]
fn subscribe_returns_suback_on_valid_connection() {
    let mut state = BrokerState::new();
    let thread_id = 7u64;
    let mut buffer = [0u8; 2024];

    read_into(&mut buffer, &construct_connect_message());
    let response = connect(&buffer, thread_id, &mut state).expect("Failed to read from the broker");
    assert_eq!(response, construct_connack_message());

    let subscribe_command = vec![
        0x80, // MQTT Control Packet type for CONNECT
        0x16, // Remaining Length (22 bytes)
        0x04, // Protocol Level (0x04 for MQTT 3.1.1)
        0x04, // Topic length
        0x54, 0x65, 0x73, 0x74, //Topic name
        0x00, //Topic QoS
    ];
    let size = read_into(&mut buffer, &subscribe_command);
    let outcome = handle_client_packet(&mut state, thread_id, &buffer, size, 0);

    // What the client reads back: the reply, if the broker sent one.
    let result: Vec<u8> = match outcome {
        PacketOutcome::Reply(bytes) => bytes,
        _ => Vec::new(),
    };
    let expected_result: Vec<u8> = vec![];
    assert_eq!(result, expected_result);
}
