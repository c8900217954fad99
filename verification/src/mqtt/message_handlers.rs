use vstd::prelude::*;

pub mod connect_handler;
pub mod ping_handler;
pub mod publish_handler;
pub mod pubrec_handler;
pub mod pubrel_handler;
pub mod subscribe_handler;
pub mod unsubscribe_handle;

verus! {

/// Why a packet could not be handled.
#[derive(Debug, Clone, Copy, PartialEq, Eq, Structural)]
pub enum PacketError {
    /// A field the packet announces lies beyond the bytes received.
    Malformed,
    /// The connection's client is not registered with the broker.
    UnknownClient,
    /// An UNSUBSCRIBE names a topic the client is not subscribed to.
    NotSubscribed,
}

} // verus!
