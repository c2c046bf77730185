//! Laws of the transport, stated over the transition predicates that the
//! operations' contracts establish.
use vstd::prelude::*;
use crate::channels::{ChannelId, ChannelType};
use crate::connection::{conn_channel_closed, tag_payloads, ClientConnection};
use crate::endpoint::{
    closes_channel, disconnects, idx_of, lemma_idx_of, opens_channel, sends_payload_on, Endpoint,
};
use crate::errors::QuintetError;
use crate::ClientId;

verus! {

/// Channel ids handed out by consecutive opens are distinct: an open
/// never returns an id that is still in the open set.
pub proof fn lemma_channel_ids_unique(
    s0: Endpoint,
    s1: Endpoint,
    s2: Endpoint,
    t1: ChannelType,
    t2: ChannelType,
    id1: ChannelId,
    id2: ChannelId,
)
    requires
        opens_channel(s0, s1, t1, id1),
        opens_channel(s1, s2, t2, id2),
    ensures
        id1 != id2,
{
    assert(s1.channel_types@[id1 as int] is Some);
}

/// A channel id is handed out only while it is free: reuse of an id
/// requires that a close released it first.
pub proof fn lemma_channel_id_reused_only_after_close(
    s0: Endpoint,
    s1: Endpoint,
    t: ChannelType,
    id: ChannelId,
)
    requires
        opens_channel(s0, s1, t, id),
    ensures
        !s0.is_open(id),
        s1.is_open(id),
{
}

/// Closing releases exactly the closed id: it leaves the open set, and an
/// open right after may hand it out again only because it is free.
pub proof fn lemma_close_releases_id(s0: Endpoint, s1: Endpoint, id: ChannelId)
    requires
        closes_channel(s0, s1, id),
    ensures
        s0.is_open(id),
        !s1.is_open(id),
{
}

/// Disconnecting the same client twice succeeds exactly once: the first
/// call succeeds and the second reports `ClientAlreadyDisconnected`.
pub proof fn lemma_disconnect_idempotent(
    s0: Endpoint,
    s1: Endpoint,
    s2: Endpoint,
    client_id: ClientId,
    r1: Result<(), QuintetError>,
    r2: Result<(), QuintetError>,
)
    requires
        disconnects(s0, s1, client_id, r1),
        disconnects(s1, s2, client_id, r2),
        s0.has_client(client_id),
        s0.clients@[idx_of(s0.clients@, client_id)].connection.close_alive,
    ensures
        r1 == Ok::<(), QuintetError>(()),
        r2 == Err::<(), QuintetError>(QuintetError::ClientAlreadyDisconnected(client_id)),
{
}

/// Sending on a channel id beyond the client's opened range reports
/// `UnknownChannel`, and sending to a never-registered client reports
/// `UnknownClient`; neither changes the endpoint's registry.
pub proof fn lemma_send_boundaries(
    pre: Endpoint,
    post: Endpoint,
    client_id: ClientId,
    channel_id: ChannelId,
    payload: Seq<u8>,
    r: Result<(), QuintetError>,
)
    requires
        sends_payload_on(pre, post, client_id, channel_id, payload, r),
    ensures
        !pre.has_client(client_id) ==> r == Err::<(), QuintetError>(
            QuintetError::UnknownClient(client_id),
        ) && post.clients@ == pre.clients@,
        pre.has_client(client_id) && channel_id as int >= pre.clients@[idx_of(
            pre.clients@,
            client_id,
        )].connection.channels@.len() ==> r == Err::<(), QuintetError>(
            QuintetError::UnknownChannel(channel_id),
        ) && post.clients@ == pre.clients@,
{
}

/// For a registered client, an opened channel id is always inside that
/// client's channel range with a present slot: sending on it can fail
/// only with backpressure or a torn-down task, never with
/// `UnknownChannel` or `ChannelClosed`. Together with the send contract,
/// `UnknownChannel` is reported exactly for ids outside the opened range.
pub proof fn lemma_open_channel_always_sendable(
    e: Endpoint,
    client_id: ClientId,
    channel_id: ChannelId,
)
    requires
        e.wf(),
        e.has_client(client_id),
        e.is_open(channel_id),
    ensures
        ({
            let err = crate::connection::send_err(
                e.clients@[idx_of(e.clients@, client_id)].connection,
                channel_id,
            );
            err is None || err == Some(QuintetError::InternalChannelClosed) || err == Some(
                QuintetError::FullQueue,
            )
        }),
{
    lemma_idx_of(e.clients@, client_id);
    let k = idx_of(e.clients@, client_id);
    assert(e.clients@[k].connection.channels@[channel_id as int] is Some);
}

/// Closing a channel never drops a queued payload: every payload that was
/// queued on the closed channel stands, in order, at the end of the
/// connection's flush backlog, still owed to the wire.
pub proof fn lemma_close_channel_flushes_queued(
    c0: ClientConnection,
    c1: ClientConnection,
    channel_id: ChannelId,
)
    requires
        conn_channel_closed(c0, c1, channel_id),
    ensures
        c1.flush_backlog@ == c0.flush_backlog@ + tag_payloads(
            channel_id,
            c0.channels@[channel_id as int]->Some_0.outbound@,
        ),
        c1.flush_backlog@.len() == c0.flush_backlog@.len()
            + c0.channels@[channel_id as int]->Some_0.outbound@.len(),
{
}

/// A freshly opened endpoint hands out client ids starting at 1,
/// incrementing by one per accepted connection: ids are unique for the
/// endpoint's lifetime and never reused.
pub proof fn lemma_client_ids_unique(e: Endpoint, i: int, j: int)
    requires
        e.wf(),
        0 <= i < j < e.clients@.len(),
    ensures
        e.clients@[i].id != e.clients@[j].id,
{
}

/// The registry membership test agrees with the id search: a client id is
/// registered exactly when some entry holds it.
pub proof fn lemma_has_client_characterization(e: Endpoint, client_id: ClientId)
    ensures
        e.has_client(client_id) <==> (exists|k: int|
            0 <= k < e.clients@.len() && (#[trigger] e.clients@[k]).id == client_id),
{
    lemma_idx_of(e.clients@, client_id);
}

} // verus!
