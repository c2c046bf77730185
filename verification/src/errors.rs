//! Error taxonomy of the transport: every public operation returns one of
//! these kinds rather than terminating the process.
use vstd::prelude::*;
use crate::channels::ChannelId;
use crate::ClientId;

verus! {

/// Failure kinds reported by the endpoint and its channels.
#[derive(Debug, Clone, Copy, PartialEq, Eq, Structural)]
pub enum QuintetError {
    /// The given client id is not registered on the endpoint.
    UnknownClient(ClientId),
    /// The given channel id is not an opened channel.
    UnknownChannel(ChannelId),
    /// The channel was closed and no longer accepts payloads.
    ChannelClosed,
    /// A bounded queue is saturated; the caller may retry later.
    FullQueue,
    /// Internal plumbing is gone: fatal for the resource it served.
    InternalChannelClosed,
    /// The client was already torn down when a disconnect was requested.
    ClientAlreadyDisconnected(ClientId),
    /// The connection was already closed.
    ConnectionAlreadyClosed,
    /// The endpoint was already closed.
    EndpointAlreadyClosed,
    /// The pool of channel ids is exhausted.
    MaxChannelsCountReached,
    /// No default channel is set.
    NoDefaultChannel,
    /// A value could not be serialized.
    Serialization,
    /// A received payload could not be deserialized.
    Deserialization,
}

impl QuintetError {
    /// A short human-readable description of the error kind.
    pub fn message(&self) -> String {
        match self {
            QuintetError::UnknownClient(_) => "unknown client id".to_string(),
            QuintetError::UnknownChannel(_) => "unknown channel id".to_string(),
            QuintetError::ChannelClosed => "channel is closed".to_string(),
            QuintetError::FullQueue => "queue is full".to_string(),
            QuintetError::InternalChannelClosed => "internal channel is closed".to_string(),
            QuintetError::ClientAlreadyDisconnected(_) => "client is already disconnected".to_string(),
            QuintetError::ConnectionAlreadyClosed => "connection is already closed".to_string(),
            QuintetError::EndpointAlreadyClosed => "endpoint is already closed".to_string(),
            QuintetError::MaxChannelsCountReached => "maximum channels count reached".to_string(),
            QuintetError::NoDefaultChannel => "no default channel".to_string(),
            QuintetError::Serialization => "serialization failed".to_string(),
            QuintetError::Deserialization => "deserialization failed".to_string(),
        }
    }
}

} // verus!
