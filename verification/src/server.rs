//! The server object owning the endpoint's lifecycle: starting it with a
//! channel configuration, stopping it, and the listening-state transitions
//! that a tick scheduler observes.
use vstd::prelude::*;
use crate::channels::{ChannelId, ChannelsConfiguration};
use crate::endpoint::Endpoint;
use crate::errors::QuintetError;

verus! {

/// Main server object: holds the endpoint while it is open. The
/// surrounding program binds the listening socket and retrieves the
/// certificate; this object owns everything the consumer interacts with.
#[derive(Debug)]
pub struct QuintetServer {
    /// The open endpoint, or `None` while the server is not listening.
    pub endpoint: Option<Endpoint>,
}

impl QuintetServer {
    /// The held endpoint, if any, satisfies its invariant.
    pub open spec fn wf(&self) -> bool {
        self.endpoint matches Some(e) ==> e.wf()
    }

    /// A server with no endpoint open yet.
    pub fn new() -> (r: Self)
        ensures
            r.wf(),
            r.endpoint is None,
    {
        QuintetServer { endpoint: None }
    }

    /// Returns a reference to the server's endpoint. The endpoint must be
    /// opened.
    pub fn endpoint(&self) -> (r: &Endpoint)
        requires
            self.endpoint is Some,
        ensures
            r == self.endpoint->Some_0,
    {
        match &self.endpoint {
            Some(endpoint) => endpoint,
            None => unreached(),
        }
    }

    /// Returns a mutable reference to the server's endpoint. The endpoint
    /// must be opened.
    pub fn endpoint_mut(&mut self) -> (r: &mut Endpoint)
        requires
            old(self).endpoint is Some,
        ensures
            *r == old(self).endpoint->Some_0,
            final(self).endpoint == Some(*final(r)),
    {
        match &mut self.endpoint {
            Some(endpoint) => endpoint,
            None => unreached(),
        }
    }

    /// Returns an optional reference to the server's endpoint.
    pub fn get_endpoint(&self) -> (r: Option<&Endpoint>)
        ensures
            r is Some <==> self.endpoint is Some,
            r matches Some(e) ==> e == self.endpoint->Some_0,
    {
        self.endpoint.as_ref()
    }

    /// Returns an optional mutable reference to the server's endpoint.
    pub fn get_endpoint_mut(&mut self) -> (r: Option<&mut Endpoint>)
        ensures
            old(self).endpoint is None ==> r is None && final(self).endpoint is None,
            old(self).endpoint matches Some(e) ==> (r matches Some(er) && *er == e && final(self).endpoint == Some(*final(er))),
    {
        self.endpoint.as_mut()
    }

    /// Starts a new endpoint and opens one channel per entry of the
    /// configuration, in order; the first entry becomes the default
    /// channel. The surrounding program retrieves the certificate and
    /// binds the listening address before handing control here.
    pub fn start_endpoint(&mut self, channels_config: &ChannelsConfiguration) -> (r: Result<
        (),
        QuintetError,
    >)
        requires
            channels_config.wf(),
        ensures
            final(self).wf(),
            r == Ok::<(), QuintetError>(()),
            final(self).endpoint matches Some(e) && {
                &&& forall|i: int|
                    0 <= i < channels_config@.len() ==> #[trigger] e.channel_types@[i] == Some(
                        channels_config@[i],
                    )
                &&& forall|i: int|
                    channels_config@.len() <= i < crate::channels::MAX_CHANNEL_COUNT
                        ==> #[trigger] e.channel_types@[i] is None
                &&& e.default_channel == (if channels_config@.len() > 0 {
                    Some(0 as ChannelId)
                } else {
                    None::<ChannelId>
                })
                &&& e.clients@.len() == 0
                &&& e.client_id_gen == 0
                &&& e.stats.received_messages_count == 0
                &&& e.stats.connect_count == 0
                &&& e.stats.disconnect_count == 0
            },
    {
        let mut endpoint = Endpoint::new();
        let types = channels_config.configs();
        let n = types.len();
        let mut i: usize = 0;
        while i < n
            invariant
                endpoint.wf(),
                n == channels_config@.len(),
                n <= crate::channels::MAX_CHANNEL_COUNT,
                types@ == channels_config@,
                i <= n,
                forall|c: int|
                    0 <= c < i ==> #[trigger] endpoint.channel_types@[c] == Some(
                        channels_config@[c],
                    ),
                forall|c: int|
                    i <= c < crate::channels::MAX_CHANNEL_COUNT
                        ==> #[trigger] endpoint.channel_types@[c] is None,
                endpoint.default_channel == (if i > 0 {
                    Some(0 as ChannelId)
                } else {
                    None::<ChannelId>
                }),
                endpoint.clients@.len() == 0,
                endpoint.client_id_gen == 0,
                endpoint.stats.received_messages_count == 0,
                endpoint.stats.connect_count == 0,
                endpoint.stats.disconnect_count == 0,
            decreases n - i,
        {
            let channel_type = types[i];
            let ghost pre_ep = endpoint;
            let step = endpoint.open_channel(channel_type);
            proof {
                assert(pre_ep.channel_types@[i as int] is None);
                assert(step is Ok) by {
                    assert(exists|c: int|
                        0 <= c < crate::channels::MAX_CHANNEL_COUNT
                            && #[trigger] pre_ep.channel_types@[c] is None) by {
                        assert(pre_ep.channel_types@[i as int] is None);
                    }
                }
            }
            match step {
                Ok(id) => {
                    proof {
                        if id as int != i as int {
                            if (id as int) < i as int {
                                assert(pre_ep.channel_types@[id as int] == Some(
                                    channels_config@[id as int],
                                ));
                            } else {
                                assert(pre_ep.channel_types@[i as int] is Some);
                            }
                            assert(false);
                        }
                    }
                },
                Err(_) => {
                    proof {
                        assert(false);
                    }
                },
            }
            i = i + 1;
        }
        self.endpoint = Some(endpoint);
        Ok(())
    }

    /// Closes the endpoint and all the connections associated with it;
    /// fails with `EndpointAlreadyClosed` when the endpoint is already
    /// closed.
    pub fn stop_endpoint(&mut self) -> (r: Result<(), QuintetError>)
        requires
            old(self).wf(),
        ensures
            final(self).wf(),
            final(self).endpoint is None,
            old(self).endpoint is None <==> r == Err::<(), QuintetError>(
                QuintetError::EndpointAlreadyClosed,
            ),
    {
        let endpoint_opt = self.endpoint.take();
        match endpoint_opt {
            Some(mut endpoint) => {
                let step = endpoint.close_incoming_connections_handler();
                match step {
                    Ok(()) => endpoint.disconnect_all_clients(),
                    Err(e) => Err(e),
                }
            },
            None => Err(QuintetError::EndpointAlreadyClosed),
        }
    }

    /// Returns true if the server is currently listening for messages and
    /// connections.
    pub fn is_listening(&self) -> (r: bool)
        ensures
            r == (self.endpoint is Some),
    {
        match &self.endpoint {
            Some(_) => true,
            None => false,
        }
    }
}

/// Whether a server, when present, is currently listening.
pub fn server_listening(server: Option<&QuintetServer>) -> (r: bool)
    ensures
        r == (server matches Some(s) && s.endpoint is Some),
{
    match server {
        Some(server) => server.is_listening(),
        None => false,
    }
}

/// True exactly when the server listens now and did not at the previous
/// update; remembers the current listening state for the next update.
pub fn server_just_opened(was_listening: &mut bool, listening: bool) -> (r: bool)
    ensures
        *final(was_listening) == listening,
        r == (!*old(was_listening) && listening),
{
    let just_opened = !*was_listening && listening;
    *was_listening = listening;
    just_opened
}

/// True exactly when the server does not listen now and did at the
/// previous update; remembers the current listening state for the next
/// update.
pub fn server_just_closed(was_listening: &mut bool, listening: bool) -> (r: bool)
    ensures
        *final(was_listening) == listening,
        r == (*old(was_listening) && !listening),
{
    let just_closed = *was_listening && !listening;
    *was_listening = listening;
    just_closed
}

} // verus!
