pub mod broker_state;
pub mod message_type;
pub mod message_sender;
pub mod client_handler;
pub mod broker;
pub mod message_reader;
pub mod utils;
pub mod message_handlers;
