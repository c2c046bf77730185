//! A message-channel transport layered over a QUIC connection: a server-side
//! endpoint offering many independent logical channels with distinct delivery
//! guarantees over one encrypted connection, bridged to a single-threaded,
//! tick-driven consumer that drains events and payloads once per tick.
use vstd::prelude::*;

pub mod certificate;
pub mod channels;
pub mod codec;
pub mod connection;
pub mod endpoint;
pub mod errors;
pub mod handshake;
pub mod laws;
pub mod server;

verus! {

/// Id of a client on the server, unique for the lifetime of the endpoint.
pub type ClientId = u64;

/// Width in bytes of a [`ClientId`] in the identity handshake frame.
pub const CLIENT_ID_LEN: usize = 8;

/// Default capacity of the bounded queues holding network payloads.
pub const DEFAULT_MESSAGE_QUEUE_SIZE: usize = 150;

/// Default capacity of the internal control queues.
pub const DEFAULT_INTERNAL_MESSAGE_CHANNEL_SIZE: usize = 100;

/// Marker of the update phase in which the synchronous server state is
/// refreshed from the asynchronous transport back-end and the connection
/// events are raised. A tick scheduler orders its work relative to this
/// phase.
#[derive(Debug, Clone, Copy, PartialEq, Eq, Hash)]
pub struct QuintetSyncUpdate;

} // verus!
