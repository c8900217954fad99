//! A small MQTT broker core: packet decoding and encoding, the broker's
//! subscription state, and the delivery passes that drive QoS handshakes.
pub mod mqtt;
