//! The server endpoint: the single source of truth for who is connected,
//! which channels exist, and what happened since the consumer last asked.
//!
//! All maps and queues of the endpoint are mutated only from the
//! single-threaded tick path; the asynchronous transport communicates with
//! it exclusively through the bounded notification queue and the
//! per-connection queues.
use vstd::prelude::*;
use vstd::pervasive::VecAdditionalExecFns;
use crate::channels::{ChannelId, ChannelType, MAX_CHANNEL_COUNT};
use crate::connection::ClientConnection;
use crate::errors::QuintetError;
use crate::{ClientId, DEFAULT_INTERNAL_MESSAGE_CHANNEL_SIZE, DEFAULT_MESSAGE_QUEUE_SIZE};

verus! {

/// Connection event raised when a client just connected to the server.
#[derive(Debug, Copy, Clone, PartialEq, Eq, Structural)]
pub struct ConnectionEvent {
    /// Id of the client who connected.
    pub id: ClientId,
}

/// Event raised when a client is considered disconnected from the server.
#[derive(Debug, Copy, Clone, PartialEq, Eq, Structural)]
pub struct ConnectionLostEvent {
    /// Id of the client who lost its connection.
    pub id: ClientId,
}

/// Notification queued by the asynchronous side of the endpoint and drained
/// once per tick by [`Endpoint::update_sync`].
#[derive(Debug)]
pub enum ServerAsyncMessage {
    /// The acceptor finished wiring a new connection.
    ClientConnected(ClientConnection),
    /// The transport observed that a client's connection closed.
    ClientConnectionClosed(ClientId),
}

/// One registered client: its id and its connection state.
#[derive(Debug)]
pub struct ClientEntry {
    /// The client's id, unique for the lifetime of the endpoint.
    pub id: ClientId,
    /// The client's connection state.
    pub connection: ClientConnection,
}

/// Monotonically increasing counters about one endpoint; reset only when
/// the endpoint stops, never decremented.
#[derive(Debug, Copy, Clone, PartialEq, Eq, Structural)]
pub struct EndpointStats {
    /// How many messages were received (read) on this endpoint.
    pub received_messages_count: u64,
    /// How many connection events occurred on this endpoint.
    pub connect_count: u32,
    /// How many disconnection events occurred on this endpoint.
    pub disconnect_count: u32,
}

impl EndpointStats {
    /// Returns how many messages were received (read) on this endpoint.
    pub fn received_messages_count(&self) -> (r: u64)
        ensures
            r == self.received_messages_count,
    {
        self.received_messages_count
    }

    /// Returns how many connection events occurred on this endpoint.
    pub fn connect_count(&self) -> (r: u32)
        ensures
            r == self.connect_count,
    {
        self.connect_count
    }

    /// Returns how many disconnection events occurred on this endpoint.
    pub fn disconnect_count(&self) -> (r: u32)
        ensures
            r == self.disconnect_count,
    {
        self.disconnect_count
    }
}

impl Default for EndpointStats {
    /// All counters start at zero.
    fn default() -> (r: Self)
        ensures
            r.received_messages_count == 0,
            r.connect_count == 0,
            r.disconnect_count == 0,
    {
        EndpointStats { received_messages_count: 0, connect_count: 0, disconnect_count: 0 }
    }
}

/// The first index holding the entry of client `id`, or `-1` when the id is
/// not registered.
pub open spec fn idx_of(entries: Seq<ClientEntry>, id: ClientId) -> int
    decreases entries.len(),
{
    if entries.len() == 0 {
        -1
    } else if entries[0].id == id {
        0
    } else {
        let r = idx_of(entries.drop_first(), id);
        if r < 0 {
            -1
        } else {
            r + 1
        }
    }
}

/// `idx_of` finds exactly the registered ids, at an index holding that id.
pub proof fn lemma_idx_of(entries: Seq<ClientEntry>, id: ClientId)
    ensures
        idx_of(entries, id) >= 0 <==> (exists|k: int|
            0 <= k < entries.len() && #[trigger] entries[k].id == id),
        idx_of(entries, id) >= 0 ==> idx_of(entries, id) < entries.len() && entries[idx_of(
            entries,
            id,
        )].id == id && (forall|k: int| 0 <= k < idx_of(entries, id) ==> entries[k].id != id),
    decreases entries.len(),
{
    if entries.len() > 0 {
        lemma_idx_of(entries.drop_first(), id);
        if entries[0].id != id {
            if exists|k: int| 0 <= k < entries.len() && #[trigger] entries[k].id == id {
                let k = choose|k: int| 0 <= k < entries.len() && #[trigger] entries[k].id == id;
                assert(entries.drop_first()[k - 1].id == id);
            }
            let r = idx_of(entries.drop_first(), id);
            if r >= 0 {
                assert(entries[r + 1] == entries.drop_first()[r]);
                assert(forall|k: int|
                    1 <= k < r + 1 ==> #[trigger] entries[k] == entries.drop_first()[k - 1]);
            }
        }
    }
}

/// Number of opened channels among the slots.
pub open spec fn open_count(types: Seq<Option<ChannelType>>) -> nat
    decreases types.len(),
{
    if types.len() == 0 {
        0
    } else {
        open_count(types.drop_last()) + (if types.last() is Some {
            1nat
        } else {
            0nat
        })
    }
}

/// The spawn requests that provisioning a connection enqueues: one per
/// opened slot, in channel-id order.
pub open spec fn open_requests(types: Seq<Option<ChannelType>>) -> Seq<(ChannelId, ChannelType)>
    decreases types.len(),
{
    if types.len() == 0 {
        Seq::empty()
    } else {
        open_requests(types.drop_last()) + (if types.last() is Some {
            seq![((types.len() - 1) as ChannelId, types.last()->Some_0)]
        } else {
            Seq::<(ChannelId, ChannelType)>::empty()
        })
    }
}

/// One spawn request per opened slot.
pub proof fn lemma_open_requests_len(types: Seq<Option<ChannelType>>)
    ensures
        open_requests(types).len() == open_count(types),
    decreases types.len(),
{
    if types.len() > 0 {
        lemma_open_requests_len(types.drop_last());
    }
}

/// Whether every opened channel can be requested on the connection: no
/// request is needed when nothing is open; otherwise the spawn queue must
/// be accepting and have room for one request per opened channel.
pub open spec fn channels_creatable(
    conn: ClientConnection,
    types: Seq<Option<ChannelType>>,
) -> bool {
    open_count(types) == 0 || (conn.spawn_open && conn.spawn_requests@.len() + open_count(types)
        <= DEFAULT_INTERNAL_MESSAGE_CHANNEL_SIZE)
}

/// Whether the identity acknowledgement can be queued on the connection.
pub open spec fn ack_queueable(conn: ClientConnection) -> bool {
    conn.ack_open && conn.ack_pending@.len() < DEFAULT_INTERNAL_MESSAGE_CHANNEL_SIZE
}

/// Exactly when provisioning a connection succeeds: every opened channel
/// can be requested, an id is still available, and the acknowledgement
/// can be queued.
pub open spec fn provision_ok(
    conn: ClientConnection,
    types: Seq<Option<ChannelType>>,
    gen: ClientId,
) -> bool {
    &&& channels_creatable(conn, types)
    &&& gen < u64::MAX
    &&& ack_queueable(conn)
}

/// The running outcome of one drain of the endpoint: the events emitted
/// so far in order, the registry view, and the id allocator.
#[verifier::ext_equal]
pub struct DrainPlan {
    /// Ids of the connect events emitted so far, in emission order.
    pub connect_ids: Seq<ClientId>,
    /// Ids of the disconnect events emitted so far, in emission order.
    pub lost_ids: Seq<ClientId>,
    /// The registered clients: each id with its pending lost-notice
    /// count, in registration order.
    pub registry: Seq<(ClientId, nat)>,
    /// The last allocated client id.
    pub id_gen: ClientId,
}

/// The connect-event ids, in emission order.
pub open spec fn connect_ids_of(events: Seq<ConnectionEvent>) -> Seq<ClientId> {
    events.map_values(|e: ConnectionEvent| e.id)
}

/// The disconnect-event ids, in emission order.
pub open spec fn lost_ids_of(events: Seq<ConnectionLostEvent>) -> Seq<ClientId> {
    events.map_values(|e: ConnectionLostEvent| e.id)
}

/// The registry as the drain sees it: each registered client's id and its
/// pending lost-notice count, in registration order.
pub open spec fn reg_of(entries: Seq<ClientEntry>) -> Seq<(ClientId, nat)> {
    entries.map_values(|e: ClientEntry| (e.id, e.connection.lost_notices as nat))
}

/// The first index holding `id` in a registry view, or `-1`.
pub open spec fn reg_idx(reg: Seq<(ClientId, nat)>, id: ClientId) -> int
    decreases reg.len(),
{
    if reg.len() == 0 {
        -1
    } else if reg[0].0 == id {
        0
    } else {
        let r = reg_idx(reg.drop_first(), id);
        if r < 0 {
            -1
        } else {
            r + 1
        }
    }
}

/// The registry view locates every id where the entry list does.
pub proof fn lemma_reg_idx_of(entries: Seq<ClientEntry>, id: ClientId)
    ensures
        reg_idx(reg_of(entries), id) == idx_of(entries, id),
    decreases entries.len(),
{
    if entries.len() > 0 {
        assert(reg_of(entries).drop_first() =~= reg_of(entries.drop_first()));
        lemma_reg_idx_of(entries.drop_first(), id);
    }
}

/// What one queued notification does to the drain's running outcome: a
/// provisionable connection is registered under the next id and yields one
/// connect event (a failed one only burns an id when its channels were
/// creatable); a closed notice for a registered id removes it and yields
/// one disconnect event, and is ignored otherwise.
pub open spec fn notice_step(
    plan: DrainPlan,
    msg: ServerAsyncMessage,
    types: Seq<Option<ChannelType>>,
) -> DrainPlan {
    match msg {
        ServerAsyncMessage::ClientConnected(conn) => {
            if provision_ok(conn, types, plan.id_gen) {
                DrainPlan {
                    connect_ids: plan.connect_ids.push((plan.id_gen + 1) as ClientId),
                    registry: plan.registry.push(
                        ((plan.id_gen + 1) as ClientId, conn.lost_notices as nat),
                    ),
                    id_gen: (plan.id_gen + 1) as ClientId,
                    ..plan
                }
            } else {
                DrainPlan {
                    id_gen: if channels_creatable(conn, types) && plan.id_gen < u64::MAX {
                        (plan.id_gen + 1) as ClientId
                    } else {
                        plan.id_gen
                    },
                    ..plan
                }
            }
        },
        ServerAsyncMessage::ClientConnectionClosed(id) => {
            if reg_idx(plan.registry, id) >= 0 {
                DrainPlan {
                    lost_ids: plan.lost_ids.push(id),
                    registry: plan.registry.remove(reg_idx(plan.registry, id)),
                    ..plan
                }
            } else {
                plan
            }
        },
    }
}

/// The drain's outcome after processing the queued notifications in
/// order, starting from the running outcome `plan`.
pub open spec fn notices_plan(
    msgs: Seq<ServerAsyncMessage>,
    plan: DrainPlan,
    types: Seq<Option<ChannelType>>,
) -> DrainPlan
    decreases msgs.len(),
{
    if msgs.len() == 0 {
        plan
    } else {
        notices_plan(msgs.drop_first(), notice_step(plan, msgs[0], types), types)
    }
}

/// The ids of the registry entries with pending lost notices, in
/// registration order: each yields exactly one disconnect event.
pub open spec fn pending_lost(reg: Seq<(ClientId, nat)>) -> Seq<ClientId>
    decreases reg.len(),
{
    if reg.len() == 0 {
        Seq::empty()
    } else if reg[0].1 > 0 {
        seq![reg[0].0] + pending_lost(reg.drop_first())
    } else {
        pending_lost(reg.drop_first())
    }
}

/// The registry entries that survive the notice sweep: exactly those with
/// no pending lost notice.
pub open spec fn without_lost(reg: Seq<(ClientId, nat)>) -> Seq<(ClientId, nat)>
    decreases reg.len(),
{
    if reg.len() == 0 {
        Seq::empty()
    } else if reg[0].1 > 0 {
        without_lost(reg.drop_first())
    } else {
        seq![reg[0]] + without_lost(reg.drop_first())
    }
}

/// Appending one registry entry appends its disconnect event exactly when
/// it has pending notices.
pub proof fn lemma_pending_lost_push(reg: Seq<(ClientId, nat)>, x: (ClientId, nat))
    ensures
        pending_lost(reg.push(x)) == pending_lost(reg) + (if x.1 > 0 {
            seq![x.0]
        } else {
            Seq::<ClientId>::empty()
        }),
    decreases reg.len(),
{
    if reg.len() == 0 {
        assert(reg.push(x).drop_first() =~= reg);
        assert(pending_lost(reg.push(x)) =~= pending_lost(reg) + (if x.1 > 0 {
            seq![x.0]
        } else {
            Seq::<ClientId>::empty()
        }));
    } else {
        assert(reg.push(x).drop_first() =~= reg.drop_first().push(x));
        lemma_pending_lost_push(reg.drop_first(), x);
        assert(pending_lost(reg.push(x)) =~= pending_lost(reg) + (if x.1 > 0 {
            seq![x.0]
        } else {
            Seq::<ClientId>::empty()
        }));
    }
}

/// Appending one registry entry keeps it exactly when it has no pending
/// notice.
pub proof fn lemma_without_lost_push(reg: Seq<(ClientId, nat)>, x: (ClientId, nat))
    ensures
        without_lost(reg.push(x)) == without_lost(reg) + (if x.1 > 0 {
            Seq::<(ClientId, nat)>::empty()
        } else {
            seq![x]
        }),
    decreases reg.len(),
{
    if reg.len() == 0 {
        assert(reg.push(x).drop_first() =~= reg);
        assert(without_lost(reg.push(x)) =~= without_lost(reg) + (if x.1 > 0 {
            Seq::<(ClientId, nat)>::empty()
        } else {
            seq![x]
        }));
    } else {
        assert(reg.push(x).drop_first() =~= reg.drop_first().push(x));
        lemma_without_lost_push(reg.drop_first(), x);
        assert(without_lost(reg.push(x)) =~= without_lost(reg) + (if x.1 > 0 {
            Seq::<(ClientId, nat)>::empty()
        } else {
            seq![x]
        }));
    }
}

/// Everything one drain of the endpoint does, computed from the state
/// before the call: the connect and disconnect events in order, the final
/// registry view, and the final value of the id allocator.
pub open spec fn drain_plan(pre: Endpoint) -> DrainPlan {
    let p1 = notices_plan(
        pre.from_async@,
        DrainPlan {
            connect_ids: Seq::empty(),
            lost_ids: Seq::empty(),
            registry: reg_of(pre.clients@),
            id_gen: pre.client_id_gen,
        },
        pre.channel_types@,
    );
    DrainPlan {
        lost_ids: p1.lost_ids + pending_lost(p1.registry),
        registry: without_lost(p1.registry),
        ..p1
    }
}

/// Represents the server side of the transport: owns every client
/// connection, the set of opened channels applied to all of them, the
/// client-identity allocator and the endpoint statistics.
#[derive(Debug)]
pub struct Endpoint {
    /// The registered clients, in registration order.
    pub clients: Vec<ClientEntry>,
    /// The last allocated client id; ids start at 1 and are never reused.
    pub client_id_gen: ClientId,
    /// The opened channels: slot `id` holds the channel's type while the
    /// channel is open, and `None` while the id is free.
    pub channel_types: Vec<Option<ChannelType>>,
    /// The channel used when the caller does not name one.
    pub default_channel: Option<ChannelId>,
    /// Notifications queued by the asynchronous side, oldest first.
    pub from_async: Vec<ServerAsyncMessage>,
    /// Ids of clients that were registered once and have been torn down.
    pub departed: Vec<ClientId>,
    /// The endpoint's statistics.
    pub stats: EndpointStats,
    /// Whether the connection acceptor still listens to the endpoint's
    /// close broadcast.
    pub close_alive: bool,
}

impl Endpoint {
    /// The endpoint's invariant: one slot per possible channel id, a
    /// default channel that is always open, unique client ids allocated
    /// below the id counter, and bounded queues everywhere.
    pub open spec fn wf(&self) -> bool {
        &&& self.channel_types@.len() == MAX_CHANNEL_COUNT
        &&& (self.default_channel matches Some(d) ==> self.channel_types@[d as int] is Some)
        &&& forall|i: int, j: int|
            0 <= i < j < self.clients@.len() ==> (#[trigger] self.clients@[i]).id
                != (#[trigger] self.clients@[j]).id
        &&& forall|k: int|
            0 <= k < self.clients@.len() ==> 1 <= (#[trigger] self.clients@[k]).id
                <= self.client_id_gen
        &&& forall|k: int|
            0 <= k < self.clients@.len() ==> (#[trigger] self.clients@[k]).connection.wf()
        &&& forall|k: int, ch: int|
            #![trigger self.clients@[k], self.channel_types@[ch]]
            0 <= k < self.clients@.len() && 0 <= ch < self.channel_types@.len()
                && self.channel_types@[ch] is Some ==> (ch
                < self.clients@[k].connection.channels@.len()
                && self.clients@[k].connection.channels@[ch] is Some)
        &&& forall|k: int|
            0 <= k < self.departed@.len() ==> 1 <= #[trigger] self.departed@[k]
                <= self.client_id_gen
        &&& self.from_async@.len() <= DEFAULT_INTERNAL_MESSAGE_CHANNEL_SIZE
        &&& forall|k: int|
            0 <= k < self.from_async@.len() ==> (#[trigger] self.from_async@[k] matches
                ServerAsyncMessage::ClientConnected(c) ==> c.wf())
    }

    /// Whether client `id` is currently registered.
    pub open spec fn has_client(&self, id: ClientId) -> bool {
        idx_of(self.clients@, id) >= 0
    }

    /// Whether channel `id` is currently open.
    pub open spec fn is_open(&self, id: ChannelId) -> bool {
        self.channel_types@[id as int] is Some
    }

    /// Whether `id` belongs to a client that was registered once and has
    /// since been torn down.
    pub open spec fn has_departed(&self, id: ClientId) -> bool {
        self.departed@.contains(id)
    }

    /// A fresh endpoint: no clients, no opened channel, no default channel,
    /// zeroed statistics, and a running connection acceptor.
    pub fn new() -> (r: Self)
        ensures
            r.wf(),
            r.clients@.len() == 0,
            r.client_id_gen == 0,
            forall|i: int| 0 <= i < MAX_CHANNEL_COUNT ==> #[trigger] r.channel_types@[i] is None,
            r.default_channel is None,
            r.from_async@.len() == 0,
            r.departed@.len() == 0,
            r.stats == (EndpointStats { received_messages_count: 0, connect_count: 0, disconnect_count: 0 }),
            r.close_alive,
    {
        let mut channel_types: Vec<Option<ChannelType>> = Vec::new();
        while channel_types.len() < MAX_CHANNEL_COUNT
            invariant
                channel_types@.len() <= MAX_CHANNEL_COUNT,
                forall|i: int| 0 <= i < channel_types@.len() ==> #[trigger] channel_types@[i] is None,
            decreases MAX_CHANNEL_COUNT - channel_types@.len(),
        {
            channel_types.push(None);
        }
        Endpoint {
            clients: Vec::new(),
            client_id_gen: 0,
            channel_types,
            default_channel: None,
            from_async: Vec::new(),
            departed: Vec::new(),
            stats: EndpointStats { received_messages_count: 0, connect_count: 0, disconnect_count: 0 },
            close_alive: true,
        }
    }

    /// The index of client `id` in the registry, or `None` when the id is
    /// not registered.
    fn find_client(&self, id: ClientId) -> (r: Option<usize>)
        ensures
            r matches Some(k) ==> k == idx_of(self.clients@, id) && k < self.clients@.len()
                && self.clients@[k as int].id == id,
            r is None ==> idx_of(self.clients@, id) < 0,
    {
        proof {
            lemma_idx_of(self.clients@, id);
        }
        let mut k: usize = 0;
        while k < self.clients.len()
            invariant
                k <= self.clients@.len(),
                forall|j: int| 0 <= j < k ==> self.clients@[j].id != id,
                idx_of(self.clients@, id) >= 0 ==> idx_of(self.clients@, id)
                    < self.clients@.len() && self.clients@[idx_of(self.clients@, id)].id == id
                    && (forall|j: int| 0 <= j < idx_of(self.clients@, id) ==> self.clients@[j].id != id),
                idx_of(self.clients@, id) < 0 ==> (forall|j: int|
                    0 <= j < self.clients@.len() ==> self.clients@[j].id != id),
            decreases self.clients@.len() - k,
        {
            if self.clients[k].id == id {
                proof {
                    if idx_of(self.clients@, id) < k {
                    }
                }
                return Some(k);
            }
            k = k + 1;
        }
        None
    }

    /// Returns the ids of all connected clients, in registration order.
    pub fn clients(&self) -> (r: Vec<ClientId>)
        ensures
            r@.len() == self.clients@.len(),
            forall|k: int| 0 <= k < r@.len() ==> r@[k] == self.clients@[k].id,
    {
        let mut out: Vec<ClientId> = Vec::new();
        let mut k: usize = 0;
        while k < self.clients.len()
            invariant
                k <= self.clients@.len(),
                out@.len() == k,
                forall|j: int| 0 <= j < k ==> out@[j] == self.clients@[j].id,
            decreases self.clients@.len() - k,
        {
            out.push(self.clients[k].id);
            k = k + 1;
        }
        out
    }

    /// Returns the endpoint's statistics.
    pub fn endpoint_stats(&self) -> (r: &EndpointStats)
        ensures
            r == self.stats,
    {
        &self.stats
    }

    /// Sets the default channel. The default channel must always refer to
    /// a currently-open channel.
    pub fn set_default_channel(&mut self, channel_id: ChannelId)
        requires
            old(self).wf(),
            old(self).is_open(channel_id),
        ensures
            final(self).wf(),
            *final(self) == (Endpoint { default_channel: Some(channel_id), ..*old(self) }),
    {
        self.default_channel = Some(channel_id);
    }

    /// Returns the default channel id, if one is set.
    pub fn get_default_channel(&self) -> (r: Option<ChannelId>)
        ensures
            r == self.default_channel,
    {
        self.default_channel
    }
}

/// Everything of the endpoint but its client registry is the same.
pub open spec fn same_config(pre: Endpoint, post: Endpoint) -> bool {
    &&& post.client_id_gen == pre.client_id_gen
    &&& post.channel_types@ == pre.channel_types@
    &&& post.default_channel == pre.default_channel
    &&& post.from_async@ == pre.from_async@
    &&& post.departed@ == pre.departed@
    &&& post.close_alive == pre.close_alive
}

/// The outcome of enqueueing a payload holding the bytes `payload` for
/// client `client_id` on channel `channel_id`: either the error that names
/// what was wrong, with the endpoint unchanged, or success, with exactly
/// that client's channel queue extended by the payload.
pub open spec fn sends_payload_on(
    pre: Endpoint,
    post: Endpoint,
    client_id: ClientId,
    channel_id: ChannelId,
    payload: Seq<u8>,
    r: Result<(), QuintetError>,
) -> bool {
    &&& same_config(pre, post)
    &&& post.stats == pre.stats
    &&& (!pre.has_client(client_id) ==> r == Err::<(), QuintetError>(
        QuintetError::UnknownClient(client_id),
    ) && post.clients@ == pre.clients@)
    &&& (pre.has_client(client_id) ==> ({
        let k = idx_of(pre.clients@, client_id);
        match crate::connection::send_err(pre.clients@[k].connection, channel_id) {
            Some(e) => r == Err::<(), QuintetError>(e) && post.clients@ == pre.clients@,
            None => {
                &&& r == Ok::<(), QuintetError>(())
                &&& post.clients@.len() == pre.clients@.len()
                &&& (forall|j: int|
                    0 <= j < pre.clients@.len() && j != k ==> #[trigger] post.clients@[j]
                        == pre.clients@[j])
                &&& post.clients@[k].id == client_id
                &&& crate::connection::conn_sent(
                    pre.clients@[k].connection,
                    post.clients@[k].connection,
                    channel_id,
                    payload,
                )
            },
        }
    }))
}

/// The outcome of a non-blocking receive for client `client_id`:
/// `Ok(Some(..))` pops the oldest received pair and counts one received
/// message, `Ok(None)` means nothing is pending, and the errors name an
/// unknown client or a torn-down receive pipeline, with the endpoint
/// unchanged.
pub open spec fn recv_transition(
    pre: Endpoint,
    post: Endpoint,
    client_id: ClientId,
    outcome: Result<Option<(ChannelId, Seq<u8>)>, QuintetError>,
) -> bool {
    &&& same_config(pre, post)
    &&& (!pre.has_client(client_id) ==> outcome == Err::<Option<(ChannelId, Seq<u8>)>,
        QuintetError,
    >(QuintetError::UnknownClient(client_id)) && post.clients@ == pre.clients@ && post.stats
        == pre.stats)
    &&& (pre.has_client(client_id) ==> ({
        let k = idx_of(pre.clients@, client_id);
        let conn = pre.clients@[k].connection;
        if conn.inbound@.len() > 0 {
            &&& outcome == Ok::<Option<(ChannelId, Seq<u8>)>, QuintetError>(
                Some((conn.inbound@[0].0, conn.inbound@[0].1@)),
            )
            &&& post.stats.received_messages_count == (if pre.stats.received_messages_count
                < u64::MAX {
                pre.stats.received_messages_count + 1
            } else {
                pre.stats.received_messages_count as int
            })
            &&& post.stats.connect_count == pre.stats.connect_count
            &&& post.stats.disconnect_count == pre.stats.disconnect_count
            &&& post.clients@.len() == pre.clients@.len()
            &&& (forall|j: int|
                0 <= j < pre.clients@.len() && j != k ==> #[trigger] post.clients@[j]
                    == pre.clients@[j])
            &&& post.clients@[k].id == client_id
            &&& post.clients@[k].connection.inbound@ == conn.inbound@.drop_first()
            &&& post.clients@[k].connection.channels == conn.channels
            &&& post.clients@[k].connection.flush_backlog == conn.flush_backlog
            &&& post.clients@[k].connection.inbound_open == conn.inbound_open
            &&& post.clients@[k].connection.lost_notices == conn.lost_notices
            &&& post.clients@[k].connection.spawn_requests == conn.spawn_requests
            &&& post.clients@[k].connection.spawn_open == conn.spawn_open
            &&& post.clients@[k].connection.ack_pending == conn.ack_pending
            &&& post.clients@[k].connection.ack_open == conn.ack_open
            &&& post.clients@[k].connection.close_alive == conn.close_alive
        } else if conn.inbound_open {
            outcome == Ok::<Option<(ChannelId, Seq<u8>)>, QuintetError>(None) && post.clients@
                == pre.clients@ && post.stats == pre.stats
        } else {
            outcome == Err::<Option<(ChannelId, Seq<u8>)>, QuintetError>(
                QuintetError::InternalChannelClosed,
            ) && post.clients@ == pre.clients@ && post.stats == pre.stats
        }
    }))
}

/// The outcome of broadcasting a payload holding the bytes `payload` on
/// channel `channel_id`: a channel id that is not in the endpoint's open
/// set is refused with `UnknownChannel`; otherwise the payload goes to
/// every client in registration order, success is owed when every client
/// can accept it and then extends every client's queue, and the first
/// failure aborts the loop, names the failing client's error, and leaves
/// the later clients untouched.
pub open spec fn broadcasts_payload_on(
    pre: Endpoint,
    post: Endpoint,
    channel_id: ChannelId,
    payload: Seq<u8>,
    r: Result<(), QuintetError>,
) -> bool {
    &&& same_config(pre, post)
    &&& post.stats == pre.stats
    &&& post.clients@.len() == pre.clients@.len()
    &&& forall|j: int|
        0 <= j < pre.clients@.len() ==> (#[trigger] post.clients@[j]).id == pre.clients@[j].id
    &&& (!pre.is_open(channel_id) ==> r == Err::<(), QuintetError>(
        QuintetError::UnknownChannel(channel_id),
    ) && post.clients@ == pre.clients@)
    &&& (pre.is_open(channel_id) ==> {
        &&& ((forall|j: int|
            0 <= j < pre.clients@.len() ==> crate::connection::send_err(
                (#[trigger] pre.clients@[j]).connection,
                channel_id,
            ) is None) ==> r == Ok::<(), QuintetError>(()))
        &&& (r == Ok::<(), QuintetError>(()) ==> forall|j: int|
            0 <= j < pre.clients@.len() ==> crate::connection::conn_sent(
                (#[trigger] pre.clients@[j]).connection,
                post.clients@[j].connection,
                channel_id,
                payload,
            ))
        &&& (r matches Err(e) ==> exists|f: int|
            {
                &&& 0 <= f < pre.clients@.len()
                &&& crate::connection::send_err(
                    (#[trigger] pre.clients@[f]).connection,
                    channel_id,
                ) == Some(e)
                &&& forall|j: int|
                    0 <= j < f ==> crate::connection::conn_sent(
                        (#[trigger] pre.clients@[j]).connection,
                        post.clients@[j].connection,
                        channel_id,
                        payload,
                    )
                &&& forall|j: int|
                    f <= j < pre.clients@.len() ==> #[trigger] post.clients@[j]
                        == pre.clients@[j]
            })
    })
}

/// Entry lists with pointwise equal ids locate every id at the same index.
pub proof fn lemma_idx_of_ids_eq(s1: Seq<ClientEntry>, s2: Seq<ClientEntry>, id: ClientId)
    requires
        s1.len() == s2.len(),
        forall|k: int| 0 <= k < s1.len() ==> (#[trigger] s1[k]).id == s2[k].id,
    ensures
        idx_of(s1, id) == idx_of(s2, id),
    decreases s1.len(),
{
    if s1.len() > 0 {
        assert(s1[0].id == s2[0].id);
        assert forall|k: int| 0 <= k < s1.drop_first().len() implies (#[trigger] s1.drop_first()[k]).id
            == s2.drop_first()[k].id by {
            assert(s1.drop_first()[k] == s1[k + 1]);
            assert(s2.drop_first()[k] == s2[k + 1]);
            assert(s1[k + 1].id == s2[k + 1].id);
        }
        lemma_idx_of_ids_eq(s1.drop_first(), s2.drop_first(), id);
    }
}

/// Relies on borsh::to_vec: serializes a value into its canonical byte
/// form; `None` when serialization fails.
#[verifier::external_body]
fn borsh_encode<T: borsh::BorshSerialize>(value: &T) -> (r: Option<Vec<u8>>) {
    borsh::to_vec(value).ok()
}

/// Relies on borsh::from_slice: parses a value of `T` back from its byte
/// form; `None` when the bytes do not deserialize to `T`.
#[verifier::external_body]
fn borsh_decode<T: borsh::BorshDeserialize>(bytes: &[u8]) -> (r: Option<T>) {
    borsh::from_slice(bytes).ok()
}

/// Taking a longer prefix never lowers the number of opened slots.
pub proof fn lemma_open_count_mono(types: Seq<Option<ChannelType>>, m1: int, m2: int)
    requires
        0 <= m1 <= m2 <= types.len(),
    ensures
        open_count(types.take(m1)) <= open_count(types.take(m2)),
    decreases m2 - m1,
{
    if m1 < m2 {
        lemma_open_count_mono(types, m1, m2 - 1);
        assert(types.take(m2).drop_last() =~= types.take(m2 - 1));
    }
}

/// An id found in a registry with one entry removed was in the registry.
pub proof fn lemma_has_after_remove(entries: Seq<ClientEntry>, k: int, id: ClientId)
    requires
        0 <= k < entries.len(),
    ensures
        (exists|j: int|
            0 <= j < entries.remove(k).len() && (#[trigger] entries.remove(k)[j]).id == id)
            ==> (exists|j: int| 0 <= j < entries.len() && (#[trigger] entries[j]).id == id),
{
    if exists|j: int|
        0 <= j < entries.remove(k).len() && (#[trigger] entries.remove(k)[j]).id == id {
        let j = choose|j: int|
            0 <= j < entries.remove(k).len() && (#[trigger] entries.remove(k)[j]).id == id;
        if j < k {
            assert(entries[j].id == id);
        } else {
            assert(entries[j + 1].id == id);
        }
    }
}

/// Connection `post` is `pre` provisioned for registration as client
/// `cid`: every opened channel has a fresh live send handle, the identity
/// acknowledgement is queued, and the rest is untouched.
pub open spec fn provisioned(
    pre: ClientConnection,
    post: ClientConnection,
    types: Seq<Option<ChannelType>>,
    cid: ClientId,
) -> bool {
    &&& forall|ch: int|
        0 <= ch < types.len() ==> ((#[trigger] types[ch]) is Some ==> (post.spec_channel(
            ch as ChannelId,
        ) matches Some(c) && c.task_alive && c.outbound@.len() == 0))
    &&& post.spawn_requests@ == pre.spawn_requests@ + open_requests(types)
    &&& post.flush_backlog == pre.flush_backlog
    &&& post.inbound == pre.inbound
    &&& post.inbound_open == pre.inbound_open
    &&& post.lost_notices == pre.lost_notices
    &&& post.spawn_open == pre.spawn_open
    &&& post.ack_pending@ == pre.ack_pending@.push(cid)
    &&& post.ack_open == pre.ack_open
    &&& post.close_alive == pre.close_alive
}

/// No client id occurs twice in the list.
pub open spec fn distinct_ids(ids: Seq<ClientId>) -> bool {
    forall|t1: int, t2: int|
        0 <= t1 < t2 < ids.len() ==> #[trigger] ids[t1] != #[trigger] ids[t2]
}

/// The outcome of sending a payload holding the bytes `payload` on channel
/// `channel_id` to each client of a duplicate-free list, in list order:
/// success is owed when every listed client is registered and can accept
/// the payload; on success exactly the listed clients' queues are
/// extended; the first failure aborts the loop.
pub open spec fn sends_group_payload_on(
    pre: Endpoint,
    post: Endpoint,
    ids: Seq<ClientId>,
    channel_id: ChannelId,
    payload: Seq<u8>,
    r: Result<(), QuintetError>,
) -> bool {
    &&& same_config(pre, post)
    &&& post.stats == pre.stats
    &&& post.clients@.len() == pre.clients@.len()
    &&& forall|j: int|
        0 <= j < pre.clients@.len() ==> (#[trigger] post.clients@[j]).id == pre.clients@[j].id
    &&& forall|j: int|
        0 <= j < pre.clients@.len() && !ids.contains((#[trigger] pre.clients@[j]).id)
            ==> post.clients@[j] == pre.clients@[j]
    &&& (distinct_ids(ids) ==> {
        &&& ((forall|t: int|
            0 <= t < ids.len() ==> pre.has_client(#[trigger] ids[t])
                && crate::connection::send_err(
                pre.clients@[idx_of(pre.clients@, ids[t])].connection,
                channel_id,
            ) is None) ==> r == Ok::<(), QuintetError>(()))
        &&& (r == Ok::<(), QuintetError>(()) ==> forall|j: int|
            0 <= j < pre.clients@.len() ==> (if ids.contains((#[trigger] pre.clients@[j]).id) {
                crate::connection::conn_sent(
                    pre.clients@[j].connection,
                    post.clients@[j].connection,
                    channel_id,
                    payload,
                )
            } else {
                post.clients@[j] == pre.clients@[j]
            }))
        &&& (r matches Err(e) ==> exists|f: int|
            {
                &&& 0 <= f < ids.len()
                &&& (if !pre.has_client(#[trigger] ids[f]) {
                    e == QuintetError::UnknownClient(ids[f])
                } else {
                    crate::connection::send_err(
                        pre.clients@[idx_of(pre.clients@, ids[f])].connection,
                        channel_id,
                    ) == Some(e)
                })
                &&& forall|j: int|
                    0 <= j < pre.clients@.len() ==> (if ids.take(f).contains(
                        (#[trigger] pre.clients@[j]).id,
                    ) {
                        crate::connection::conn_sent(
                            pre.clients@[j].connection,
                            post.clients@[j].connection,
                            channel_id,
                            payload,
                        )
                    } else {
                        post.clients@[j] == pre.clients@[j]
                    })
            })
    })
}

/// The outcome of asking to disconnect `client_id`: a registered client
/// is removed from the registry and recorded as departed, with success
/// exactly when its close broadcast was still alive; an id that departed
/// earlier reports `ClientAlreadyDisconnected`, and an id never seen
/// reports `UnknownClient`. The opened channels, the statistics and the
/// id allocator are untouched.
pub open spec fn disconnects(
    pre: Endpoint,
    post: Endpoint,
    client_id: ClientId,
    r: Result<(), QuintetError>,
) -> bool {
    &&& post.client_id_gen == pre.client_id_gen
    &&& post.channel_types@ == pre.channel_types@
    &&& post.default_channel == pre.default_channel
    &&& post.from_async@ == pre.from_async@
    &&& post.stats == pre.stats
    &&& post.close_alive == pre.close_alive
    &&& (!pre.has_client(client_id) && pre.has_departed(client_id) ==> r == Err::<
        (),
        QuintetError,
    >(QuintetError::ClientAlreadyDisconnected(client_id)) && post.clients@ == pre.clients@
        && post.departed@ == pre.departed@)
    &&& (!pre.has_client(client_id) && !pre.has_departed(client_id) ==> r == Err::<
        (),
        QuintetError,
    >(QuintetError::UnknownClient(client_id)) && post.clients@ == pre.clients@ && post.departed@
        == pre.departed@)
    &&& (pre.has_client(client_id) ==> ({
        let k = idx_of(pre.clients@, client_id);
        &&& post.clients@ == pre.clients@.remove(k)
        &&& post.departed@ == pre.departed@.push(client_id)
        &&& r == (if pre.clients@[k].connection.close_alive {
            Ok::<(), QuintetError>(())
        } else {
            Err::<(), QuintetError>(QuintetError::ClientAlreadyDisconnected(client_id))
        })
        &&& !post.has_client(client_id)
        &&& post.has_departed(client_id)
    }))
}

/// The channel-set effect of opening a channel: the id handed out was
/// free, is the lowest free id, and is now marked open; it becomes the
/// default channel when none was set.
pub open spec fn opens_channel(
    pre: Endpoint,
    post: Endpoint,
    channel_type: ChannelType,
    id: ChannelId,
) -> bool {
    &&& pre.channel_types@.len() == MAX_CHANNEL_COUNT
    &&& pre.channel_types@[id as int] is None
    &&& (forall|i: int| 0 <= i < id ==> #[trigger] pre.channel_types@[i] is Some)
    &&& post.channel_types@ == pre.channel_types@.update(id as int, Some(channel_type))
    &&& post.default_channel == (if pre.default_channel is None {
        Some(id)
    } else {
        pre.default_channel
    })
}

/// The channel-set effect of closing a channel: the id leaves the open
/// set and is released; the default channel is cleared when it was the
/// default.
pub open spec fn closes_channel(pre: Endpoint, post: Endpoint, id: ChannelId) -> bool {
    &&& pre.channel_types@.len() == MAX_CHANNEL_COUNT
    &&& pre.channel_types@[id as int] is Some
    &&& post.channel_types@ == pre.channel_types@.update(id as int, None::<ChannelType>)
    &&& post.default_channel == (if pre.default_channel == Some(id) {
        None::<ChannelId>
    } else {
        pre.default_channel
    })
}

impl Endpoint {
    /// Whether `id` is recorded as a departed client.
    fn departed_contains(&self, id: ClientId) -> (r: bool)
        ensures
            r == self.has_departed(id),
    {
        let mut k: usize = 0;
        while k < self.departed.len()
            invariant
                k <= self.departed@.len(),
                forall|j: int| 0 <= j < k ==> self.departed@[j] != id,
            decreases self.departed@.len() - k,
        {
            if self.departed[k] == id {
                return true;
            }
            k = k + 1;
        }
        false
    }

    /// Sends the payload to the specified client on the specified channel,
    /// without blocking. Fails with `UnknownClient` for an id that is not
    /// registered, `UnknownChannel` for a channel id beyond the opened
    /// range, `ChannelClosed` on a closed channel, `InternalChannelClosed`
    /// when the channel's send task is gone, and `FullQueue` as the
    /// backpressure signal: the caller may retry later.
    pub fn send_payload_on(&mut self, client_id: ClientId, channel_id: ChannelId, payload: Vec<
        u8,
    >) -> (r: Result<(), QuintetError>)
        requires
            old(self).wf(),
        ensures
            final(self).wf(),
            sends_payload_on(
                *old(self),
                *final(self),
                client_id,
                channel_id,
                payload@,
                r,
            ),
    {
        proof {
            lemma_idx_of(old(self).clients@, client_id);
        }
        match self.find_client(client_id) {
            None => Err(QuintetError::UnknownClient(client_id)),
            Some(k) => {
                let entry = &mut self.clients[k];
                let r = entry.connection.send_payload_on(channel_id, payload);
                proof {
                    if crate::connection::send_err(
                        old(self).clients@[k as int].connection,
                        channel_id,
                    ) is Some {
                        assert(self.clients@ =~= old(self).clients@);
                    }
                }
                r
            },
        }
    }

    /// [`Endpoint::send_payload_on`] on the default channel; fails with
    /// `NoDefaultChannel` when none is set.
    pub fn send_payload(&mut self, client_id: ClientId, payload: Vec<u8>) -> (r: Result<
        (),
        QuintetError,
    >)
        requires
            old(self).wf(),
        ensures
            final(self).wf(),
            old(self).default_channel is None ==> r == Err::<(), QuintetError>(
                QuintetError::NoDefaultChannel,
            ) && *final(self) == *old(self),
            old(self).default_channel matches Some(ch) ==> sends_payload_on(
                *old(self),
                *final(self),
                client_id,
                ch,
                payload@,
                r,
            ),
    {
        match self.get_default_channel() {
            Some(channel) => self.send_payload_on(client_id, channel, payload),
            None => Err(QuintetError::NoDefaultChannel),
        }
    }

    /// [`Endpoint::send_payload_on`] with the failure dropped, for call
    /// sites that cannot act on it.
    pub fn try_send_payload_on(&mut self, client_id: ClientId, channel_id: ChannelId, payload: Vec<
        u8,
    >)
        requires
            old(self).wf(),
        ensures
            final(self).wf(),
            exists|r: Result<(), QuintetError>|
                sends_payload_on(
                    *old(self),
                    *final(self),
                    client_id,
                    channel_id,
                    payload@,
                    r,
                ),
    {
        let r = self.send_payload_on(client_id, channel_id, payload);
        proof {
            assert(sends_payload_on(*old(self), *self, client_id, channel_id, payload@, r));
        }
        let _ = r;
    }

    /// [`Endpoint::send_payload`] with the failure dropped, for call sites
    /// that cannot act on it.
    pub fn try_send_payload(&mut self, client_id: ClientId, payload: Vec<u8>)
        requires
            old(self).wf(),
        ensures
            final(self).wf(),
            old(self).default_channel is None ==> *final(self) == *old(self),
            old(self).default_channel matches Some(ch) ==> exists|r: Result<(), QuintetError>|
                sends_payload_on(*old(self), *final(self), client_id, ch, payload@, r),
    {
        let r = self.send_payload(client_id, payload);
        proof {
            if old(self).default_channel is Some {
                let ch = old(self).default_channel->Some_0;
                assert(sends_payload_on(*old(self), *self, client_id, ch, payload@, r));
            }
        }
        let _ = r;
    }

    /// Attempts to receive one payload sent by the specified client:
    /// `Ok(Some(..))` pops the oldest pending `(channel, payload)` pair
    /// and counts one received message, `Ok(None)` means nothing is
    /// pending now. Fails with `UnknownClient` for an id that is not
    /// registered, and with `InternalChannelClosed` when the client's
    /// receive pipeline tore down.
    pub fn receive_payload_from(&mut self, client_id: ClientId) -> (r: Result<
        Option<(ChannelId, Vec<u8>)>,
        QuintetError,
    >)
        requires
            old(self).wf(),
        ensures
            final(self).wf(),
            recv_transition(
                *old(self),
                *final(self),
                client_id,
                match r {
                    Ok(Some((ch, p))) => Ok(Some((ch, p@))),
                    Ok(None) => Ok(None),
                    Err(e) => Err(e),
                },
            ),
    {
        proof {
            lemma_idx_of(old(self).clients@, client_id);
        }
        match self.find_client(client_id) {
            None => Err(QuintetError::UnknownClient(client_id)),
            Some(k) => {
                let entry = &mut self.clients[k];
                let res = entry.connection.try_recv();
                match res {
                    Ok(Some(item)) => {
                        proof {
                            assert(self.clients@ =~= old(self).clients@.update(
                                k as int,
                                self.clients@[k as int],
                            ));
                        }
                        if self.stats.received_messages_count < u64::MAX {
                            self.stats.received_messages_count =
                                self.stats.received_messages_count + 1;
                        }
                        Ok(Some(item))
                    },
                    Ok(None) => {
                        proof {
                            assert(self.clients@ =~= old(self).clients@);
                        }
                        Ok(None)
                    },
                    Err(e) => {
                        proof {
                            assert(self.clients@ =~= old(self).clients@);
                        }
                        Err(e)
                    },
                }
            },
        }
    }

    /// [`Endpoint::receive_payload_from`] with the failure dropped: the
    /// caller sees `Some(..)` only for an actually received pair.
    pub fn try_receive_payload_from(&mut self, client_id: ClientId) -> (r: Option<
        (ChannelId, Vec<u8>),
    >)
        requires
            old(self).wf(),
        ensures
            final(self).wf(),
            exists|outcome: Result<Option<(ChannelId, Seq<u8>)>, QuintetError>|
                recv_transition(*old(self), *final(self), client_id, outcome),
            r matches Some((ch, p)) ==> recv_transition(
                *old(self),
                *final(self),
                client_id,
                Ok(Some((ch, p@))),
            ),
            r is None ==> exists|outcome: Result<Option<(ChannelId, Seq<u8>)>, QuintetError>|
                recv_transition(*old(self), *final(self), client_id, outcome) && (outcome
                    matches Ok(p2) ==> p2 is None),
    {
        let res = self.receive_payload_from(client_id);
        match res {
            Ok(payload) => payload,
            Err(e) => {
                proof {
                    assert(recv_transition(
                        *old(self),
                        *self,
                        client_id,
                        Err::<Option<(ChannelId, Seq<u8>)>, QuintetError>(e),
                    ));
                }
                None
            },
        }
    }

    /// Disconnects a specific client and removes it from the endpoint.
    /// Succeeds once: a second call for the same id fails with
    /// `ClientAlreadyDisconnected`, and an id that was never registered
    /// fails with `UnknownClient`.
    pub fn disconnect_client(&mut self, client_id: ClientId) -> (r: Result<(), QuintetError>)
        requires
            old(self).wf(),
        ensures
            final(self).wf(),
            final(self).client_id_gen == old(self).client_id_gen,
            final(self).channel_types@ == old(self).channel_types@,
            final(self).default_channel == old(self).default_channel,
            final(self).from_async@ == old(self).from_async@,
            final(self).stats == old(self).stats,
            final(self).close_alive == old(self).close_alive,
            !old(self).has_client(client_id) && old(self).has_departed(client_id) ==> r
                == Err::<(), QuintetError>(QuintetError::ClientAlreadyDisconnected(client_id))
                && *final(self) == *old(self),
            !old(self).has_client(client_id) && !old(self).has_departed(client_id) ==> r
                == Err::<(), QuintetError>(QuintetError::UnknownClient(client_id)) && *final(self)
                == *old(self),
            old(self).has_client(client_id) ==> ({
                let k = idx_of(old(self).clients@, client_id);
                &&& final(self).clients@ == old(self).clients@.remove(k)
                &&& final(self).departed@ == old(self).departed@.push(client_id)
                &&& r == (if old(self).clients@[k].connection.close_alive {
                    Ok::<(), QuintetError>(())
                } else {
                    Err::<(), QuintetError>(QuintetError::ClientAlreadyDisconnected(client_id))
                })
                &&& !final(self).has_client(client_id)
                &&& final(self).has_departed(client_id)
            }),
            disconnects(*old(self), *final(self), client_id, r),
    {
        proof {
            lemma_idx_of(old(self).clients@, client_id);
        }
        match self.find_client(client_id) {
            Some(k) => {
                let entry = self.clients.remove(k);
                self.departed.push(client_id);
                proof {
                    lemma_idx_of(self.clients@, client_id);
                    if self.has_client(client_id) {
                        let j = idx_of(self.clients@, client_id);
                        if j < k {
                            assert(old(self).clients@[j].id == client_id);
                        } else {
                            assert(old(self).clients@[j + 1].id == client_id);
                        }
                    }
                    assert(self.departed@.last() == client_id);
                }
                if entry.connection.close_alive {
                    Ok(())
                } else {
                    Err(QuintetError::ClientAlreadyDisconnected(client_id))
                }
            },
            None => {
                if self.departed_contains(client_id) {
                    Err(QuintetError::ClientAlreadyDisconnected(client_id))
                } else {
                    Err(QuintetError::UnknownClient(client_id))
                }
            },
        }
    }

    /// [`Endpoint::disconnect_client`] with the failure dropped.
    pub fn try_disconnect_client(&mut self, client_id: ClientId)
        requires
            old(self).wf(),
        ensures
            final(self).wf(),
            final(self).client_id_gen == old(self).client_id_gen,
            final(self).channel_types@ == old(self).channel_types@,
            final(self).default_channel == old(self).default_channel,
            final(self).from_async@ == old(self).from_async@,
            final(self).stats == old(self).stats,
            final(self).close_alive == old(self).close_alive,
            !old(self).has_client(client_id) ==> *final(self) == *old(self),
            old(self).has_client(client_id) ==> ({
                let k = idx_of(old(self).clients@, client_id);
                &&& final(self).clients@ == old(self).clients@.remove(k)
                &&& final(self).departed@ == old(self).departed@.push(client_id)
                &&& !final(self).has_client(client_id)
            }),
    {
        let _ = self.disconnect_client(client_id);
    }

    /// Disconnects every connected client, in registration order; the
    /// first failure aborts the loop and is returned.
    pub fn disconnect_all_clients(&mut self) -> (r: Result<(), QuintetError>)
        requires
            old(self).wf(),
        ensures
            final(self).wf(),
            final(self).client_id_gen == old(self).client_id_gen,
            final(self).channel_types@ == old(self).channel_types@,
            final(self).default_channel == old(self).default_channel,
            final(self).from_async@ == old(self).from_async@,
            final(self).stats == old(self).stats,
            final(self).close_alive == old(self).close_alive,
            (forall|k: int|
                0 <= k < old(self).clients@.len()
                    ==> (#[trigger] old(self).clients@[k]).connection.close_alive) ==> r
                == Ok::<(), QuintetError>(()),
            r == Ok::<(), QuintetError>(()) ==> final(self).clients@.len() == 0 && final(self).departed@ == old(self).departed@ + old(self).clients@.map_values(
                |e: ClientEntry| e.id,
            ),
            r matches Err(e) ==> exists|f: int|
                {
                    &&& 0 <= f < old(self).clients@.len()
                    &&& !(#[trigger] old(self).clients@[f]).connection.close_alive
                    &&& e == QuintetError::ClientAlreadyDisconnected(old(self).clients@[f].id)
                    &&& final(self).clients@ == old(self).clients@.skip(f + 1)
                    &&& final(self).departed@ == old(self).departed@ + old(self).clients@.take(
                        f + 1,
                    ).map_values(|e2: ClientEntry| e2.id)
                },
    {
        let ghost pre = *old(self);
        let n0 = self.clients.len();
        let mut i: usize = 0;
        proof {
            assert(self.departed@ =~= pre.departed@ + pre.clients@.take(0).map_values(
                |e2: ClientEntry| e2.id,
            ));
            assert(self.clients@ =~= pre.clients@.skip(0));
        }
        while self.clients.len() > 0
            invariant
                self.wf(),
                pre == *old(self),
                n0 == pre.clients@.len(),
                i <= pre.clients@.len(),
                self.clients@ == pre.clients@.skip(i as int),
                self.departed@ == pre.departed@ + pre.clients@.take(i as int).map_values(
                    |e2: ClientEntry| e2.id,
                ),
                forall|j: int| 0 <= j < i ==> (#[trigger] pre.clients@[j]).connection.close_alive,
                self.client_id_gen == pre.client_id_gen,
                self.channel_types@ == pre.channel_types@,
                self.default_channel == pre.default_channel,
                self.from_async@ == pre.from_async@,
                self.stats == pre.stats,
                self.close_alive == pre.close_alive,
            decreases self.clients@.len(),
        {
            let id = self.clients[0].id;
            let ghost cur = *self;
            proof {
                assert(idx_of(cur.clients@, id) == 0);
            }
            let step = self.disconnect_client(id);
            proof {
                assert(cur.clients@.remove(0) =~= pre.clients@.skip(i + 1));
                assert(pre.clients@.take(i + 1) =~= pre.clients@.take(i as int).push(
                    pre.clients@[i as int],
                ));
                assert(pre.clients@.take(i + 1).map_values(|e2: ClientEntry| e2.id)
                    =~= pre.clients@.take(i as int).map_values(|e2: ClientEntry| e2.id).push(
                    pre.clients@[i as int].id,
                ));
            }
            match step {
                Ok(()) => {},
                Err(e) => {
                    proof {
                        assert(pre.clients@[i as int] == cur.clients@[0]);
                    }
                    return Err(e);
                },
            }
            i = i + 1;
        }
        proof {
            assert(pre.clients@.take(pre.clients@.len() as int) =~= pre.clients@);
            assert(pre.clients@.take(pre.clients@.len() as int).map_values(
                |e2: ClientEntry| e2.id,
            ) =~= pre.clients@.map_values(|e2: ClientEntry| e2.id));
        }
        Ok(())
    }

    /// Sends the payload to every connected client on the specified
    /// channel, in registration order; the first failure aborts the loop
    /// and is returned, leaving the earlier clients' queues extended.
    pub fn broadcast_payload_on(&mut self, channel_id: ChannelId, payload: &Vec<u8>) -> (r:
        Result<(), QuintetError>)
        requires
            old(self).wf(),
        ensures
            final(self).wf(),
            broadcasts_payload_on(*old(self), *final(self), channel_id, payload@, r),
    {
        if self.channel_types[channel_id as usize].is_none() {
            return Err(QuintetError::UnknownChannel(channel_id));
        }
        let n = self.clients.len();
        let mut k: usize = 0;
        while k < n
            invariant
                n == old(self).clients@.len(),
                k <= n,
                old(self).wf(),
                old(self).is_open(channel_id),
                self.wf(),
                self.clients@.len() == n,
                same_config(*old(self), *self),
                self.stats == old(self).stats,
                forall|j: int|
                    0 <= j < k ==> crate::connection::send_err(
                        (#[trigger] old(self).clients@[j]).connection,
                        channel_id,
                    ) is None,
                forall|j: int|
                    0 <= j < k ==> (#[trigger] self.clients@[j]).id == old(self).clients@[j].id
                        && crate::connection::conn_sent(
                        old(self).clients@[j].connection,
                        self.clients@[j].connection,
                        channel_id,
                        payload@,
                    ),
                forall|j: int|
                    k <= j < n ==> #[trigger] self.clients@[j] == old(self).clients@[j],
            decreases n - k,
        {
            let cloned = payload.clone();
            proof {
                assert(cloned@ =~= payload@);
            }
            let entry = &mut self.clients[k];
            let step = entry.connection.send_payload_on(channel_id, cloned);
            match step {
                Ok(()) => {},
                Err(e) => {
                    proof {
                        assert(self.clients@[k as int] == old(self).clients@[k as int]);
                        assert(forall|j: int|
                            k as int <= j < n ==> #[trigger] self.clients@[j] == old(self).clients@[j]);
                    }
                    return Err(e);
                },
            }
            k = k + 1;
        }
        Ok(())
    }

    /// [`Endpoint::broadcast_payload_on`] on the default channel; fails
    /// with `NoDefaultChannel` when none is set.
    pub fn broadcast_payload(&mut self, payload: &Vec<u8>) -> (r: Result<(), QuintetError>)
        requires
            old(self).wf(),
        ensures
            final(self).wf(),
            old(self).default_channel is None ==> r == Err::<(), QuintetError>(
                QuintetError::NoDefaultChannel,
            ) && *final(self) == *old(self),
            old(self).default_channel matches Some(ch) ==> broadcasts_payload_on(
                *old(self),
                *final(self),
                ch,
                payload@,
                r,
            ),
    {
        match self.get_default_channel() {
            Some(channel) => self.broadcast_payload_on(channel, payload),
            None => Err(QuintetError::NoDefaultChannel),
        }
    }

    /// [`Endpoint::broadcast_payload_on`] with the failure dropped.
    pub fn try_broadcast_payload_on(&mut self, channel_id: ChannelId, payload: &Vec<u8>)
        requires
            old(self).wf(),
        ensures
            final(self).wf(),
            exists|r: Result<(), QuintetError>|
                broadcasts_payload_on(*old(self), *final(self), channel_id, payload@, r),
    {
        let r = self.broadcast_payload_on(channel_id, payload);
        proof {
            assert(broadcasts_payload_on(*old(self), *self, channel_id, payload@, r));
        }
        let _ = r;
    }

    /// [`Endpoint::broadcast_payload`] with the failure dropped.
    pub fn try_broadcast_payload(&mut self, payload: &Vec<u8>)
        requires
            old(self).wf(),
        ensures
            final(self).wf(),
            old(self).default_channel is None ==> *final(self) == *old(self),
            old(self).default_channel matches Some(ch) ==> exists|r: Result<(), QuintetError>|
                broadcasts_payload_on(*old(self), *final(self), ch, payload@, r),
    {
        let r = self.broadcast_payload(payload);
        proof {
            if old(self).default_channel is Some {
                let ch = old(self).default_channel->Some_0;
                assert(broadcasts_payload_on(*old(self), *self, ch, payload@, r));
            }
        }
        let _ = r;
    }

    /// Opens a channel of the requested type and returns its id: the
    /// lowest currently-free channel id. The channel is created on every
    /// currently connected client, and becomes the default channel if none
    /// is set yet. Fails with `MaxChannelsCountReached` when the id pool
    /// is exhausted, and propagates a per-connection channel-creation
    /// failure, leaving the id unallocated.
    pub fn open_channel(&mut self, channel_type: ChannelType) -> (r: Result<
        ChannelId,
        QuintetError,
    >)
        requires
            old(self).wf(),
        ensures
            final(self).wf(),
            final(self).client_id_gen == old(self).client_id_gen,
            final(self).from_async@ == old(self).from_async@,
            final(self).departed@ == old(self).departed@,
            final(self).stats == old(self).stats,
            final(self).close_alive == old(self).close_alive,
            (forall|i: int|
                0 <= i < MAX_CHANNEL_COUNT ==> #[trigger] old(self).channel_types@[i] is Some)
                ==> r == Err::<ChannelId, QuintetError>(QuintetError::MaxChannelsCountReached)
                && *final(self) == *old(self),
            r == Err::<ChannelId, QuintetError>(QuintetError::MaxChannelsCountReached)
                ==> forall|i: int|
                0 <= i < MAX_CHANNEL_COUNT ==> #[trigger] old(self).channel_types@[i] is Some,
            (exists|i: int|
                0 <= i < MAX_CHANNEL_COUNT && #[trigger] old(self).channel_types@[i] is None)
                && (forall|j: int|
                0 <= j < old(self).clients@.len() ==> crate::connection::create_err(
                    (#[trigger] old(self).clients@[j]).connection,
                ) is None) ==> r is Ok,
            r matches Ok(id) ==> {
                &&& old(self).channel_types@[id as int] is None
                &&& (forall|i: int| 0 <= i < id ==> #[trigger] old(self).channel_types@[i] is Some)
                &&& final(self).channel_types@ == old(self).channel_types@.update(
                    id as int,
                    Some(channel_type),
                )
                &&& final(self).default_channel == (if old(self).default_channel is None {
                    Some(id)
                } else {
                    old(self).default_channel
                })
                &&& final(self).clients@.len() == old(self).clients@.len()
                &&& forall|j: int|
                    0 <= j < old(self).clients@.len() ==> (#[trigger] final(self).clients@[j]).id
                        == old(self).clients@[j].id && crate::connection::conn_created(
                        old(self).clients@[j].connection,
                        final(self).clients@[j].connection,
                        id,
                        channel_type,
                    )
            },
            r matches Err(e) ==> final(self).channel_types@ == old(self).channel_types@ && final(self).default_channel == old(self).default_channel && final(self).clients@.len() == old(self).clients@.len(),
            r matches Ok(id) ==> opens_channel(*old(self), *final(self), channel_type, id),
            r matches Err(e) ==> (e != QuintetError::MaxChannelsCountReached ==> exists|f: int|
                {
                    &&& 0 <= f < old(self).clients@.len()
                    &&& crate::connection::create_err(
                        (#[trigger] old(self).clients@[f]).connection,
                    ) == Some(e)
                    &&& forall|j: int|
                        f <= j < old(self).clients@.len() ==> #[trigger] final(self).clients@[j]
                            == old(self).clients@[j]
                }),
    {
        let mut candidate: usize = 0;
        while candidate < MAX_CHANNEL_COUNT && self.channel_types[candidate].is_some()
            invariant
                self == old(self),
                self.wf(),
                candidate <= MAX_CHANNEL_COUNT,
                forall|i: int| 0 <= i < candidate ==> #[trigger] self.channel_types@[i] is Some,
            decreases MAX_CHANNEL_COUNT - candidate,
        {
            candidate = candidate + 1;
        }
        if candidate >= MAX_CHANNEL_COUNT {
            return Err(QuintetError::MaxChannelsCountReached);
        }
        let channel_id: ChannelId = candidate as ChannelId;
        let n = self.clients.len();
        let mut k: usize = 0;
        while k < n
            invariant
                n == old(self).clients@.len(),
                k <= n,
                old(self).wf(),
                self.wf(),
                channel_id == candidate,
                candidate < MAX_CHANNEL_COUNT,
                old(self).channel_types@[candidate as int] is None,
                forall|i: int| 0 <= i < candidate ==> #[trigger] old(self).channel_types@[i] is Some,
                self.clients@.len() == n,
                self.client_id_gen == old(self).client_id_gen,
                self.channel_types@ == old(self).channel_types@,
                self.default_channel == old(self).default_channel,
                self.from_async@ == old(self).from_async@,
                self.departed@ == old(self).departed@,
                self.stats == old(self).stats,
                self.close_alive == old(self).close_alive,
                forall|j: int|
                    0 <= j < k ==> crate::connection::create_err(
                        (#[trigger] old(self).clients@[j]).connection,
                    ) is None,
                forall|j: int|
                    0 <= j < k ==> (#[trigger] self.clients@[j]).id == old(self).clients@[j].id
                        && crate::connection::conn_created(
                        old(self).clients@[j].connection,
                        self.clients@[j].connection,
                        channel_id,
                        channel_type,
                    ),
                forall|j: int|
                    k <= j < n ==> #[trigger] self.clients@[j] == old(self).clients@[j],
            decreases n - k,
        {
            let entry = &mut self.clients[k];
            let step = entry.connection.create_channel(channel_id, channel_type);
            match step {
                Ok(_) => {
                    proof {
                        assert(crate::connection::conn_created(
                            old(self).clients@[k as int].connection,
                            self.clients@[k as int].connection,
                            channel_id,
                            channel_type,
                        ));
                    }
                },
                Err(e) => {
                    proof {
                        assert(self.clients@[k as int] == old(self).clients@[k as int]);
                        assert(forall|j: int|
                            k as int <= j < n ==> #[trigger] self.clients@[j] == old(self).clients@[j]);
                    }
                    return Err(e);
                },
            }
            k = k + 1;
        }
        self.channel_types.set(candidate, Some(channel_type));
        if self.default_channel.is_none() {
            self.default_channel = Some(channel_id);
        }
        Ok(channel_id)
    }

    /// Closes the channel with the given id: removes it from the opened
    /// set, clears the default channel if it was the default, instructs
    /// every live connection to close that channel (best-effort: the
    /// first failure aborts the loop and is returned), and releases the
    /// id. The id is released even when a per-connection close fails:
    /// open set and free pool are one structure here, so an id removed
    /// from the opened set is deliberately free for reuse. Already-queued
    /// payloads are not dropped: each connection moves them to its flush
    /// backlog. Fails with `UnknownChannel` when the id is not open.
    pub fn close_channel(&mut self, channel_id: ChannelId) -> (r: Result<(), QuintetError>)
        requires
            old(self).wf(),
        ensures
            final(self).wf(),
            final(self).client_id_gen == old(self).client_id_gen,
            final(self).from_async@ == old(self).from_async@,
            final(self).departed@ == old(self).departed@,
            final(self).stats == old(self).stats,
            final(self).close_alive == old(self).close_alive,
            !old(self).is_open(channel_id) ==> r == Err::<(), QuintetError>(
                QuintetError::UnknownChannel(channel_id),
            ) && *final(self) == *old(self),
            old(self).is_open(channel_id) ==> (r matches Err(e) ==> e
                == QuintetError::ChannelClosed),
            old(self).is_open(channel_id) ==> closes_channel(*old(self), *final(self), channel_id),
            old(self).is_open(channel_id) ==> {
                &&& final(self).channel_types@ == old(self).channel_types@.update(
                    channel_id as int,
                    None::<ChannelType>,
                )
                &&& final(self).default_channel == (if old(self).default_channel == Some(
                    channel_id,
                ) {
                    None::<ChannelId>
                } else {
                    old(self).default_channel
                })
                &&& final(self).clients@.len() == old(self).clients@.len()
                &&& forall|j: int|
                    0 <= j < old(self).clients@.len() ==> (#[trigger] final(self).clients@[j]).id
                        == old(self).clients@[j].id
                &&& ((forall|j: int|
                    0 <= j < old(self).clients@.len() ==> crate::connection::close_err(
                        (#[trigger] old(self).clients@[j]).connection,
                        channel_id,
                    ) is None) ==> r == Ok::<(), QuintetError>(()))
                &&& (r == Ok::<(), QuintetError>(()) ==> forall|j: int|
                    0 <= j < old(self).clients@.len() ==> crate::connection::conn_channel_closed(
                        (#[trigger] old(self).clients@[j]).connection,
                        final(self).clients@[j].connection,
                        channel_id,
                    ))
                &&& (r matches Err(e) ==> exists|f: int|
                    {
                        &&& 0 <= f < old(self).clients@.len()
                        &&& crate::connection::close_err(
                            (#[trigger] old(self).clients@[f]).connection,
                            channel_id,
                        ) == Some(e)
                        &&& forall|j: int|
                            0 <= j < f ==> crate::connection::conn_channel_closed(
                                (#[trigger] old(self).clients@[j]).connection,
                                final(self).clients@[j].connection,
                                channel_id,
                            )
                        &&& forall|j: int|
                            f < j < old(self).clients@.len() ==> #[trigger] final(self).clients@[j] == old(self).clients@[j]
                    })
            },
    {
        let idx = channel_id as usize;
        if self.channel_types[idx].is_none() {
            return Err(QuintetError::UnknownChannel(channel_id));
        }
        self.channel_types.set(idx, None);
        if self.default_channel.is_some() {
            let d = match self.default_channel {
                Some(d) => d,
                None => 0,
            };
            if d == channel_id {
                self.default_channel = None;
            }
        }
        let n = self.clients.len();
        let mut k: usize = 0;
        while k < n
            invariant
                n == old(self).clients@.len(),
                k <= n,
                old(self).wf(),
                self.wf(),
                old(self).is_open(channel_id),
                self.clients@.len() == n,
                self.client_id_gen == old(self).client_id_gen,
                self.channel_types@ == old(self).channel_types@.update(
                    channel_id as int,
                    None::<ChannelType>,
                ),
                self.default_channel == (if old(self).default_channel == Some(channel_id) {
                    None::<ChannelId>
                } else {
                    old(self).default_channel
                }),
                self.from_async@ == old(self).from_async@,
                self.departed@ == old(self).departed@,
                self.stats == old(self).stats,
                self.close_alive == old(self).close_alive,
                forall|j: int|
                    0 <= j < k ==> crate::connection::close_err(
                        (#[trigger] old(self).clients@[j]).connection,
                        channel_id,
                    ) is None,
                forall|j: int|
                    0 <= j < k ==> (#[trigger] self.clients@[j]).id == old(self).clients@[j].id
                        && crate::connection::conn_channel_closed(
                        old(self).clients@[j].connection,
                        self.clients@[j].connection,
                        channel_id,
                    ),
                forall|j: int|
                    k <= j < n ==> #[trigger] self.clients@[j] == old(self).clients@[j],
            decreases n - k,
        {
            let entry = &mut self.clients[k];
            let step = entry.connection.close_channel(channel_id);
            match step {
                Ok(()) => {
                    proof {
                        assert(crate::connection::conn_channel_closed(
                            old(self).clients@[k as int].connection,
                            self.clients@[k as int].connection,
                            channel_id,
                        ));
                    }
                },
                Err(e) => {
                    proof {
                        assert(crate::connection::close_err(
                            old(self).clients@[k as int].connection,
                            channel_id,
                        ) == Some(e));
                        assert(forall|j: int|
                            (k as int) < j < n ==> #[trigger] self.clients@[j] == old(self).clients@[j]);
                    }
                    return Err(e);
                },
            }
            k = k + 1;
        }
        Ok(())
    }

    /// Sends the payload to each client of the given list on the specified
    /// channel, in list order; the first failure aborts the loop and is
    /// returned.
    fn send_group_payload_on(&mut self, client_ids: &Vec<ClientId>, channel_id: ChannelId, payload: &Vec<u8>) -> (r: Result<(), QuintetError>)
        requires
            old(self).wf(),
        ensures
            final(self).wf(),
            sends_group_payload_on(
                *old(self),
                *final(self),
                client_ids@,
                channel_id,
                payload@,
                r,
            ),
    {
        let n = client_ids.len();
        let mut i: usize = 0;
        proof {
            assert(client_ids@.take(0) =~= Seq::<ClientId>::empty());
        }
        while i < n
            invariant
                n == client_ids@.len(),
                i <= n,
                old(self).wf(),
                self.wf(),
                same_config(*old(self), *self),
                self.stats == old(self).stats,
                self.clients@.len() == old(self).clients@.len(),
                forall|j: int|
                    0 <= j < old(self).clients@.len() ==> (#[trigger] self.clients@[j]).id == old(self).clients@[j].id,
                forall|j: int|
                    0 <= j < old(self).clients@.len() && !client_ids@.take(i as int).contains(
                        (#[trigger] old(self).clients@[j]).id,
                    ) ==> self.clients@[j] == old(self).clients@[j],
                distinct_ids(client_ids@) ==> {
                    &&& (forall|t: int|
                        0 <= t < i ==> old(self).has_client(#[trigger] client_ids@[t])
                            && crate::connection::send_err(
                            old(self).clients@[idx_of(old(self).clients@, client_ids@[t])].connection,
                            channel_id,
                        ) is None)
                    &&& (forall|j: int|
                        0 <= j < old(self).clients@.len() ==> (if client_ids@.take(
                            i as int,
                        ).contains((#[trigger] old(self).clients@[j]).id) {
                            crate::connection::conn_sent(
                                old(self).clients@[j].connection,
                                self.clients@[j].connection,
                                channel_id,
                                payload@,
                            )
                        } else {
                            self.clients@[j] == old(self).clients@[j]
                        }))
                },
            decreases n - i,
        {
            let id = client_ids[i];
            let cloned = payload.clone();
            proof {
                assert(cloned@ =~= payload@);
            }
            let ghost cur = *self;
            let step = self.send_payload_on(id, channel_id, cloned);
            proof {
                lemma_idx_of_ids_eq(cur.clients@, old(self).clients@, id);
                lemma_idx_of(cur.clients@, id);
                lemma_idx_of(old(self).clients@, id);
                if distinct_ids(client_ids@) {
                    assert(!client_ids@.take(i as int).contains(id)) by {
                        if client_ids@.take(i as int).contains(id) {
                            let t = choose|t: int|
                                0 <= t < i && client_ids@.take(i as int)[t] == id;
                            assert(client_ids@[t] == id);
                            assert(client_ids@[i as int] == id);
                        }
                    }
                    if cur.has_client(id) {
                        let k = idx_of(cur.clients@, id);
                        assert(old(self).clients@[k].id == id);
                        assert(cur.clients@[k] == old(self).clients@[k]);
                    }
                }
            }
            match step {
                Err(e) => {
                    proof {
                        assert(self.clients@ == cur.clients@);
                        assert forall|j: int|
                            0 <= j < old(self).clients@.len() && !client_ids@.contains(
                                (#[trigger] old(self).clients@[j]).id,
                            ) implies self.clients@[j] == old(self).clients@[j] by {
                            let jid = old(self).clients@[j].id;
                            if client_ids@.take(i as int).contains(jid) {
                                let t = choose|t: int|
                                    0 <= t < i && client_ids@.take(i as int)[t] == jid;
                                assert(client_ids@[t] == jid);
                            }
                        }
                        if distinct_ids(client_ids@) {
                            let fi = i as int;
                            assert(self.clients@ == cur.clients@);
                            if old(self).has_client(id) {
                                let k = idx_of(old(self).clients@, id);
                                assert(cur.clients@[k] == old(self).clients@[k]);
                                assert(crate::connection::send_err(
                                    old(self).clients@[k].connection,
                                    channel_id,
                                ) == Some(e));
                            } else {
                                assert(e == QuintetError::UnknownClient(id));
                            }
                            assert forall|j: int|
                                0 <= j < old(self).clients@.len() implies (if client_ids@.take(
                                    fi,
                                ).contains((#[trigger] old(self).clients@[j]).id) {
                                    crate::connection::conn_sent(
                                        old(self).clients@[j].connection,
                                        self.clients@[j].connection,
                                        channel_id,
                                        payload@,
                                    )
                                } else {
                                    self.clients@[j] == old(self).clients@[j]
                                }) by {
                                assert(self.clients@[j] == cur.clients@[j]);
                            }
                        }
                    }
                    return Err(e);
                },
                Ok(()) => {},
            }
            i = i + 1;
            proof {
                assert forall|j: int|
                    0 <= j < old(self).clients@.len() && !client_ids@.take(i as int).contains(
                        (#[trigger] old(self).clients@[j]).id,
                    ) implies self.clients@[j] == old(self).clients@[j] by {
                    let jid = old(self).clients@[j].id;
                    assert(!client_ids@.take(i - 1).contains(jid)) by {
                        if client_ids@.take(i - 1).contains(jid) {
                            let t = choose|t: int|
                                0 <= t < i - 1 && #[trigger] client_ids@.take(i - 1)[t] == jid;
                            assert(client_ids@.take(i as int)[t] == jid);
                        }
                    }
                    assert(jid != id) by {
                        assert(client_ids@.take(i as int)[i - 1] == id);
                    }
                    assert(cur.clients@[j] == old(self).clients@[j]);
                    lemma_idx_of(cur.clients@, id);
                    if cur.has_client(id) {
                        assert(cur.clients@[idx_of(cur.clients@, id)].id == id);
                        assert(j != idx_of(cur.clients@, id));
                    }
                }
                if distinct_ids(client_ids@) {
                    let ghost iprev = i - 1;
                    assert(client_ids@.take(i as int) =~= client_ids@.take(iprev).push(id));
                    assert(client_ids@.take(i as int).contains(id)) by {
                        assert(client_ids@.take(i as int)[iprev] == id);
                    }
                    let k = idx_of(cur.clients@, id);
                    assert(cur.has_client(id));
                    assert(cur.clients@[k] == old(self).clients@[k]);
                    assert forall|j: int|
                        0 <= j < old(self).clients@.len() implies (if client_ids@.take(
                            i as int,
                        ).contains((#[trigger] old(self).clients@[j]).id) {
                            crate::connection::conn_sent(
                                old(self).clients@[j].connection,
                                self.clients@[j].connection,
                                channel_id,
                                payload@,
                            )
                        } else {
                            self.clients@[j] == old(self).clients@[j]
                        }) by {
                        let jid = old(self).clients@[j].id;
                        if j == k {
                            assert(jid == id);
                            assert(crate::connection::conn_sent(
                                cur.clients@[k].connection,
                                self.clients@[k].connection,
                                channel_id,
                                payload@,
                            ));
                        } else {
                            if jid == id {
                                assert(cur.clients@[j].id == id);
                                assert(cur.clients@[k].id == id);
                                if j < k {
                                    assert((cur.clients@[j]).id != (cur.clients@[k]).id);
                                } else {
                                    assert((cur.clients@[k]).id != (cur.clients@[j]).id);
                                }
                                assert(false);
                            } else {
                                assert(self.clients@[j] == cur.clients@[j]);
                                assert(client_ids@.take(i as int).contains(jid)
                                    == client_ids@.take(iprev).contains(jid)) by {
                                    if client_ids@.take(i as int).contains(jid) {
                                        let t = choose|t: int|
                                            0 <= t < i && client_ids@.take(i as int)[t] == jid;
                                        if t < iprev {
                                            assert(client_ids@.take(iprev)[t] == jid);
                                        } else {
                                            assert(jid == id);
                                        }
                                    }
                                    if client_ids@.take(iprev).contains(jid) {
                                        let t = choose|t: int|
                                            0 <= t < iprev && client_ids@.take(iprev)[t] == jid;
                                        assert(client_ids@.take(i as int)[t] == jid);
                                    }
                                }
                            }
                        }
                    }
                }
            }
        }
        proof {
            assert(client_ids@.take(n as int) =~= client_ids@);
        }
        Ok(())
    }

    /// Serializes the message and sends it to the specified client on the
    /// specified channel; serialization failure is its own error kind,
    /// independent of transport failure.
    pub fn send_message_on<T: borsh::BorshSerialize>(&mut self, client_id: ClientId, channel_id: ChannelId, message: T) -> (r: Result<(), QuintetError>)
        requires
            old(self).wf(),
        ensures
            final(self).wf(),
            r == Err::<(), QuintetError>(QuintetError::Serialization) ==> *final(self) == *old(self),
            r != Err::<(), QuintetError>(QuintetError::Serialization) ==> exists|p: Seq<u8>|
                sends_payload_on(*old(self), *final(self), client_id, channel_id, p, r),
    {
        match borsh_encode(&message) {
            Some(p) => {
                let ghost pv = p@;
                let r = self.send_payload_on(client_id, channel_id, p);
                proof {
                    assert(sends_payload_on(*old(self), *self, client_id, channel_id, pv, r));
                }
                r
            },
            None => Err(QuintetError::Serialization),
        }
    }

    /// [`Endpoint::send_message_on`] on the default channel; fails with
    /// `NoDefaultChannel` when none is set.
    pub fn send_message<T: borsh::BorshSerialize>(&mut self, client_id: ClientId, message: T) -> (r: Result<(), QuintetError>)
        requires
            old(self).wf(),
        ensures
            final(self).wf(),
            old(self).default_channel is None ==> r == Err::<(), QuintetError>(
                QuintetError::NoDefaultChannel,
            ) && *final(self) == *old(self),
            r == Err::<(), QuintetError>(QuintetError::Serialization) ==> *final(self) == *old(self),
            old(self).default_channel matches Some(ch) ==> (r != Err::<(), QuintetError>(
                QuintetError::Serialization,
            ) ==> exists|p: Seq<u8>|
                sends_payload_on(*old(self), *final(self), client_id, ch, p, r)),
    {
        match self.get_default_channel() {
            Some(channel) => self.send_message_on(client_id, channel, message),
            None => Err(QuintetError::NoDefaultChannel),
        }
    }

    /// [`Endpoint::send_message_on`] with the failure dropped.
    pub fn try_send_message_on<T: borsh::BorshSerialize>(&mut self, client_id: ClientId, channel_id: ChannelId, message: T)
        requires
            old(self).wf(),
        ensures
            final(self).wf(),
            (*final(self) == *old(self)) || (exists|p: Seq<u8>, r: Result<(), QuintetError>|
                sends_payload_on(*old(self), *final(self), client_id, channel_id, p, r)),
    {
        let r = self.send_message_on(client_id, channel_id, message);
        proof {
            if r != Err::<(), QuintetError>(QuintetError::Serialization) {
                let p = choose|p: Seq<u8>|
                    sends_payload_on(*old(self), *self, client_id, channel_id, p, r);
                assert(sends_payload_on(*old(self), *self, client_id, channel_id, p, r));
            }
        }
        let _ = r;
    }

    /// [`Endpoint::send_message`] with the failure dropped.
    pub fn try_send_message<T: borsh::BorshSerialize>(&mut self, client_id: ClientId, message: T)
        requires
            old(self).wf(),
        ensures
            final(self).wf(),
            old(self).default_channel is None ==> *final(self) == *old(self),
            old(self).default_channel matches Some(ch) ==> ((*final(self) == *old(self)) || (
            exists|p: Seq<u8>, r: Result<(), QuintetError>|
                sends_payload_on(*old(self), *final(self), client_id, ch, p, r))),
    {
        let r = self.send_message(client_id, message);
        proof {
            if old(self).default_channel is Some {
                let ch = old(self).default_channel->Some_0;
                if r != Err::<(), QuintetError>(QuintetError::Serialization) {
                    let p = choose|p: Seq<u8>|
                        sends_payload_on(*old(self), *self, client_id, ch, p, r);
                    assert(sends_payload_on(*old(self), *self, client_id, ch, p, r));
                }
            }
        }
        let _ = r;
    }

    /// Serializes the message once and sends it to all the listed clients
    /// on the specified channel; the first failure aborts the loop and is
    /// returned.
    pub fn send_group_message_on<T: borsh::BorshSerialize>(&mut self, client_ids: &Vec<ClientId>, channel_id: ChannelId, message: T) -> (r: Result<(), QuintetError>)
        requires
            old(self).wf(),
        ensures
            final(self).wf(),
            (r == Err::<(), QuintetError>(QuintetError::Serialization) && *final(self) == *old(self))
                || (exists|p: Seq<u8>|
                sends_group_payload_on(
                    *old(self),
                    *final(self),
                    client_ids@,
                    channel_id,
                    p,
                    r,
                )),
    {
        match borsh_encode(&message) {
            Some(p) => {
                let ghost pv = p@;
                let r = self.send_group_payload_on(client_ids, channel_id, &p);
                proof {
                    assert(sends_group_payload_on(
                        *old(self),
                        *self,
                        client_ids@,
                        channel_id,
                        pv,
                        r,
                    ));
                }
                r
            },
            None => Err(QuintetError::Serialization),
        }
    }

    /// [`Endpoint::send_group_message_on`] on the default channel; fails
    /// with `NoDefaultChannel` when none is set.
    pub fn send_group_message<T: borsh::BorshSerialize>(&mut self, client_ids: &Vec<ClientId>, message: T) -> (r: Result<(), QuintetError>)
        requires
            old(self).wf(),
        ensures
            final(self).wf(),
            old(self).default_channel is None ==> r == Err::<(), QuintetError>(
                QuintetError::NoDefaultChannel,
            ) && *final(self) == *old(self),
            old(self).default_channel matches Some(ch) ==> ((r == Err::<(), QuintetError>(
                QuintetError::Serialization,
            ) && *final(self) == *old(self)) || (exists|p: Seq<u8>|
                sends_group_payload_on(*old(self), *final(self), client_ids@, ch, p, r))),
    {
        match self.get_default_channel() {
            Some(channel) => self.send_group_message_on(client_ids, channel, message),
            None => Err(QuintetError::NoDefaultChannel),
        }
    }

    /// [`Endpoint::send_group_message_on`] with the failure dropped.
    pub fn try_send_group_message_on<T: borsh::BorshSerialize>(&mut self, client_ids: &Vec<ClientId>, channel_id: ChannelId, message: T)
        requires
            old(self).wf(),
        ensures
            final(self).wf(),
            (*final(self) == *old(self)) || (exists|p: Seq<u8>, r: Result<(), QuintetError>|
                sends_group_payload_on(
                    *old(self),
                    *final(self),
                    client_ids@,
                    channel_id,
                    p,
                    r,
                )),
    {
        let r = self.send_group_message_on(client_ids, channel_id, message);
        proof {
            if !(r == Err::<(), QuintetError>(QuintetError::Serialization) && *self == *old(self)) {
                let p = choose|p: Seq<u8>|
                    sends_group_payload_on(*old(self), *self, client_ids@, channel_id, p, r);
                assert(sends_group_payload_on(*old(self), *self, client_ids@, channel_id, p, r));
            }
        }
        let _ = r;
    }

    /// [`Endpoint::send_group_message`] with the failure dropped.
    pub fn try_send_group_message<T: borsh::BorshSerialize>(&mut self, client_ids: &Vec<ClientId>, message: T)
        requires
            old(self).wf(),
        ensures
            final(self).wf(),
            old(self).default_channel is None ==> *final(self) == *old(self),
            old(self).default_channel matches Some(ch) ==> ((*final(self) == *old(self)) || (
            exists|p: Seq<u8>, r: Result<(), QuintetError>|
                sends_group_payload_on(*old(self), *final(self), client_ids@, ch, p, r))),
    {
        let r = self.send_group_message(client_ids, message);
        proof {
            if old(self).default_channel is Some {
                let ch = old(self).default_channel->Some_0;
                if !(r == Err::<(), QuintetError>(QuintetError::Serialization) && *self == *old(
                    self,
                )) {
                    let p = choose|p: Seq<u8>|
                        sends_group_payload_on(*old(self), *self, client_ids@, ch, p, r);
                    assert(sends_group_payload_on(*old(self), *self, client_ids@, ch, p, r));
                }
            }
        }
        let _ = r;
    }

    /// Serializes the message once and sends it to every connected client
    /// on the specified channel; the first failure aborts the loop and is
    /// returned.
    pub fn broadcast_message_on<T: borsh::BorshSerialize>(&mut self, channel_id: ChannelId, message: T) -> (r: Result<(), QuintetError>)
        requires
            old(self).wf(),
        ensures
            final(self).wf(),
            (r == Err::<(), QuintetError>(QuintetError::Serialization) && *final(self) == *old(self))
                || (exists|p: Seq<u8>|
                broadcasts_payload_on(*old(self), *final(self), channel_id, p, r)),
    {
        match borsh_encode(&message) {
            Some(p) => {
                let ghost pv = p@;
                let r = self.broadcast_payload_on(channel_id, &p);
                proof {
                    assert(broadcasts_payload_on(*old(self), *self, channel_id, pv, r));
                }
                r
            },
            None => Err(QuintetError::Serialization),
        }
    }

    /// [`Endpoint::broadcast_message_on`] on the default channel; fails
    /// with `NoDefaultChannel` when none is set.
    pub fn broadcast_message<T: borsh::BorshSerialize>(&mut self, message: T) -> (r: Result<(), QuintetError>)
        requires
            old(self).wf(),
        ensures
            final(self).wf(),
            old(self).default_channel is None ==> r == Err::<(), QuintetError>(
                QuintetError::NoDefaultChannel,
            ) && *final(self) == *old(self),
            old(self).default_channel matches Some(ch) ==> ((r == Err::<(), QuintetError>(
                QuintetError::Serialization,
            ) && *final(self) == *old(self)) || (exists|p: Seq<u8>|
                broadcasts_payload_on(*old(self), *final(self), ch, p, r))),
    {
        match self.get_default_channel() {
            Some(channel) => self.broadcast_message_on(channel, message),
            None => Err(QuintetError::NoDefaultChannel),
        }
    }

    /// [`Endpoint::broadcast_message_on`] with the failure dropped.
    pub fn try_broadcast_message_on<T: borsh::BorshSerialize>(&mut self, channel_id: ChannelId, message: T)
        requires
            old(self).wf(),
        ensures
            final(self).wf(),
            (*final(self) == *old(self)) || (exists|p: Seq<u8>, r: Result<(), QuintetError>|
                broadcasts_payload_on(*old(self), *final(self), channel_id, p, r)),
    {
        let r = self.broadcast_message_on(channel_id, message);
        proof {
            if !(r == Err::<(), QuintetError>(QuintetError::Serialization) && *self == *old(self)) {
                let p = choose|p: Seq<u8>|
                    broadcasts_payload_on(*old(self), *self, channel_id, p, r);
                assert(broadcasts_payload_on(*old(self), *self, channel_id, p, r));
            }
        }
        let _ = r;
    }

    /// [`Endpoint::broadcast_message`] with the failure dropped.
    pub fn try_broadcast_message<T: borsh::BorshSerialize>(&mut self, message: T)
        requires
            old(self).wf(),
        ensures
            final(self).wf(),
            old(self).default_channel is None ==> *final(self) == *old(self),
            old(self).default_channel matches Some(ch) ==> ((*final(self) == *old(self)) || (
            exists|p: Seq<u8>, r: Result<(), QuintetError>|
                broadcasts_payload_on(*old(self), *final(self), ch, p, r))),
    {
        let r = self.broadcast_message(message);
        proof {
            if old(self).default_channel is Some {
                let ch = old(self).default_channel->Some_0;
                if !(r == Err::<(), QuintetError>(QuintetError::Serialization) && *self == *old(
                    self,
                )) {
                    let p = choose|p: Seq<u8>| broadcasts_payload_on(*old(self), *self, ch, p, r);
                    assert(broadcasts_payload_on(*old(self), *self, ch, p, r));
                }
            }
        }
        let _ = r;
    }

    /// Attempts to receive one message from the specified client and
    /// deserialize it into `T`: the payload is popped and counted even
    /// when it does not deserialize, which is reported as the distinct
    /// `Deserialization` error kind.
    pub fn receive_message_from<T: borsh::BorshDeserialize>(&mut self, client_id: ClientId) -> (r: Result<Option<(ChannelId, T)>, QuintetError>)
        requires
            old(self).wf(),
        ensures
            final(self).wf(),
            r matches Ok(m) ==> (m is None ==> recv_transition(
                *old(self),
                *final(self),
                client_id,
                Ok(None),
            )),
            r matches Ok(m) ==> (m matches Some(p2) ==> exists|chp: (ChannelId, Seq<u8>)|
                recv_transition(*old(self), *final(self), client_id, Ok(Some(chp))) && chp.0
                    == p2.0),
            r matches Err(e) ==> (e == QuintetError::Deserialization ==> exists|chp: (
                ChannelId,
                Seq<u8>,
            )| recv_transition(*old(self), *final(self), client_id, Ok(Some(chp)))),
            r matches Err(e) ==> (e != QuintetError::Deserialization ==> recv_transition(
                *old(self),
                *final(self),
                client_id,
                Err(e),
            )),
    {
        match self.receive_payload_from(client_id) {
            Ok(Some(pair)) => {
                let (channel_id, payload) = pair;
                match borsh_decode::<T>(payload.as_slice()) {
                    Some(message) => {
                        proof {
                            assert(recv_transition(
                                *old(self),
                                *self,
                                client_id,
                                Ok(Some((channel_id, payload@))),
                            ));
                        }
                        Ok(Some((channel_id, message)))
                    },
                    None => {
                        proof {
                            assert(recv_transition(
                                *old(self),
                                *self,
                                client_id,
                                Ok(Some((channel_id, payload@))),
                            ));
                        }
                        Err(QuintetError::Deserialization)
                    },
                }
            },
            Ok(None) => Ok(None),
            Err(e) => Err(e),
        }
    }

    /// Provisions a newly accepted connection and registers it: creates
    /// every currently-opened channel on it, allocates the next client id,
    /// and queues the identity acknowledgement. On any failure the
    /// connection is told to close and discarded, and the endpoint keeps
    /// its registry unchanged.
    fn handle_connection(&mut self, connection: ClientConnection) -> (r: Result<
        ClientId,
        QuintetError,
    >)
        requires
            old(self).wf(),
            connection.wf(),
        ensures
            final(self).wf(),
            final(self).channel_types@ == old(self).channel_types@,
            final(self).default_channel == old(self).default_channel,
            final(self).from_async@ == old(self).from_async@,
            final(self).departed@ == old(self).departed@,
            final(self).stats == old(self).stats,
            final(self).close_alive == old(self).close_alive,
            final(self).client_id_gen == (if channels_creatable(
                connection,
                old(self).channel_types@,
            ) && old(self).client_id_gen < u64::MAX {
                old(self).client_id_gen + 1
            } else {
                old(self).client_id_gen as int
            }),
            r is Ok <==> provision_ok(connection, old(self).channel_types@, old(self).client_id_gen),
            r matches Err(e) ==> e == (if !channels_creatable(connection, old(self).channel_types@) {
                if !connection.spawn_open {
                    QuintetError::InternalChannelClosed
                } else {
                    QuintetError::FullQueue
                }
            } else {
                QuintetError::InternalChannelClosed
            }),
            r matches Ok(cid) ==> {
                &&& cid == old(self).client_id_gen + 1
                &&& final(self).client_id_gen == cid
                &&& final(self).clients@.len() == old(self).clients@.len() + 1
                &&& (forall|j: int|
                    0 <= j < old(self).clients@.len() ==> #[trigger] final(self).clients@[j]
                        == old(self).clients@[j])
                &&& final(self).clients@.last().id == cid
                &&& provisioned(
                    connection,
                    final(self).clients@.last().connection,
                    old(self).channel_types@,
                    cid,
                )
                &&& final(self).has_client(cid)
            },
            r is Err ==> final(self).clients@ == old(self).clients@,
    {
        let mut conn = connection;
        let mut ch: usize = 0;
        proof {
            assert(self.channel_types@.take(0) =~= Seq::<Option<ChannelType>>::empty());
            assert(conn.spawn_requests@ =~= connection.spawn_requests@ + open_requests(
                self.channel_types@.take(0),
            ));
        }
        while ch < MAX_CHANNEL_COUNT
            invariant
                *self == *old(self),
                self.wf(),
                connection.wf(),
                ch <= MAX_CHANNEL_COUNT,
                conn.wf(),
                conn.spawn_requests@ == connection.spawn_requests@ + open_requests(
                    self.channel_types@.take(ch as int),
                ),
                open_count(self.channel_types@.take(ch as int)) > 0 ==> connection.spawn_open,
                forall|c2: int|
                    0 <= c2 < ch ==> ((#[trigger] self.channel_types@[c2]) is Some
                        ==> (conn.spec_channel(c2 as ChannelId) matches Some(c) && c.task_alive
                        && c.outbound@.len() == 0)),
                conn.flush_backlog == connection.flush_backlog,
                conn.inbound == connection.inbound,
                conn.inbound_open == connection.inbound_open,
                conn.lost_notices == connection.lost_notices,
                conn.spawn_open == connection.spawn_open,
                conn.ack_pending == connection.ack_pending,
                conn.ack_open == connection.ack_open,
                conn.close_alive == connection.close_alive,
            decreases MAX_CHANNEL_COUNT - ch,
        {
            let ty_opt = self.channel_types[ch];
            proof {
                assert(self.channel_types@.take(ch + 1).drop_last() =~= self.channel_types@.take(
                    ch as int,
                ));
                assert(self.channel_types@.take(ch + 1).last() == self.channel_types@[ch as int]);
                lemma_open_requests_len(self.channel_types@.take(ch as int));
            }
            match ty_opt {
                Some(ty) => {
                    let ghost pre_conn = conn;
                    let step = conn.create_channel(ch as ChannelId, ty);
                    match step {
                        Ok(_) => {
                            proof {
                                assert(conn.spawn_requests@ =~= connection.spawn_requests@
                                    + open_requests(self.channel_types@.take(ch + 1)));
                            }
                        },
                        Err(e) => {
                            proof {
                                lemma_open_count_mono(
                                    self.channel_types@,
                                    ch + 1,
                                    MAX_CHANNEL_COUNT as int,
                                );
                                assert(self.channel_types@.take(MAX_CHANNEL_COUNT as int)
                                    =~= self.channel_types@);
                                assert(open_count(self.channel_types@) >= open_count(
                                    self.channel_types@.take(ch + 1),
                                ));
                                assert(open_count(self.channel_types@.take(ch + 1)) == open_count(
                                    self.channel_types@.take(ch as int),
                                ) + 1);
                                assert(!channels_creatable(connection, self.channel_types@));
                            }
                            conn.try_close();
                            return Err(e);
                        },
                    }
                },
                None => {
                    proof {
                        assert(open_requests(self.channel_types@.take(ch + 1))
                            =~= open_requests(self.channel_types@.take(ch as int)));
                        assert(conn.spawn_requests@ =~= connection.spawn_requests@
                            + open_requests(self.channel_types@.take(ch + 1)));
                    }
                },
            }
            ch = ch + 1;
        }
        proof {
            assert(self.channel_types@.take(MAX_CHANNEL_COUNT as int) =~= self.channel_types@);
            lemma_open_requests_len(self.channel_types@);
            assert(channels_creatable(connection, self.channel_types@)) by {
                if open_count(self.channel_types@) > 0 {
                    assert(connection.spawn_open);
                    assert(conn.spawn_requests@.len() <= DEFAULT_INTERNAL_MESSAGE_CHANNEL_SIZE);
                }
            }
        }
        if self.client_id_gen == u64::MAX {
            conn.try_close();
            return Err(QuintetError::InternalChannelClosed);
        }
        self.client_id_gen = self.client_id_gen + 1;
        let client_id = self.client_id_gen;
        if conn.ack_open && conn.ack_pending.len() < DEFAULT_INTERNAL_MESSAGE_CHANNEL_SIZE {
            conn.ack_pending.push(client_id);
            self.clients.push(ClientEntry { id: client_id, connection: conn });
            proof {
                lemma_idx_of(self.clients@, client_id);
                assert(self.clients@.last().id == client_id);
            }
            Ok(client_id)
        } else {
            conn.try_close();
            Err(QuintetError::InternalChannelClosed)
        }
    }

    /// The once-per-tick bridge between the asynchronous transport and
    /// the consumer; never blocks. Drains the notification queue in
    /// order: a newly accepted connection is provisioned with every
    /// opened channel and registered, yielding one connect event (on
    /// provisioning failure it is discarded and no event is emitted); a
    /// connection reported closed is torn down, yielding one disconnect
    /// event, only if it is still registered. Then every remaining
    /// connection's lost-connection notices are drained, yielding at most
    /// one disconnect event per connection per tick, and the lost
    /// connections are torn down. Every event comes with exactly one
    /// stats increment.
    #[verifier::rlimit(100)]
    pub fn update_sync(&mut self) -> (events: (Vec<ConnectionEvent>, Vec<ConnectionLostEvent>))
        requires
            old(self).wf(),
        ensures
            final(self).wf(),
            final(self).channel_types@ == old(self).channel_types@,
            final(self).default_channel == old(self).default_channel,
            final(self).close_alive == old(self).close_alive,
            final(self).stats.received_messages_count == old(self).stats.received_messages_count,
            final(self).from_async@.len() == 0,
            forall|k: int|
                0 <= k < final(self).clients@.len() ==> (#[trigger] final(self).clients@[k]).connection.lost_notices == 0,
            final(self).client_id_gen >= old(self).client_id_gen,
            old(self).stats.connect_count + events.0@.len() <= u32::MAX ==> final(self).stats.connect_count == old(self).stats.connect_count + events.0@.len(),
            old(self).stats.disconnect_count + events.1@.len() <= u32::MAX ==> final(self).stats.disconnect_count == old(self).stats.disconnect_count + events.1@.len(),
            forall|a: int, b: int|
                0 <= a < b < events.0@.len() ==> (#[trigger] events.0@[a]).id < (
                #[trigger] events.0@[b]).id,
            forall|a: int|
                0 <= a < events.0@.len() ==> old(self).client_id_gen < (
                #[trigger] events.0@[a]).id <= final(self).client_id_gen,
            forall|a: int, b: int|
                0 <= a < b < events.1@.len() ==> (#[trigger] events.1@[a]).id != (
                #[trigger] events.1@[b]).id,
            forall|a: int|
                0 <= a < events.1@.len() ==> !final(self).has_client(
                    (#[trigger] events.1@[a]).id,
                ) && final(self).has_departed(events.1@[a].id),
            forall|j1: int|
                0 <= j1 < final(self).clients@.len() ==> ((exists|j0: int|
                    0 <= j0 < old(self).clients@.len() && old(self).clients@[j0] == #[trigger] final(self).clients@[j1])
                    || final(self).clients@[j1].id > old(self).client_id_gen),
            ({
                let plan = drain_plan(*old(self));
                &&& connect_ids_of(events.0@) == plan.connect_ids
                &&& lost_ids_of(events.1@) == plan.lost_ids
                &&& final(self).client_id_gen == plan.id_gen
                &&& reg_of(final(self).clients@) == plan.registry
                &&& final(self).departed@ == old(self).departed@ + plan.lost_ids
            }),
    {
        let mut connect_events: Vec<ConnectionEvent> = Vec::new();
        let mut lost_events: Vec<ConnectionLostEvent> = Vec::new();
        let ghost types = old(self).channel_types@;
        let ghost init_plan = DrainPlan {
            connect_ids: Seq::empty(),
            lost_ids: Seq::empty(),
            registry: reg_of(old(self).clients@),
            id_gen: old(self).client_id_gen,
        };
        proof {
            assert(connect_ids_of(connect_events@) =~= Seq::<ClientId>::empty());
            assert(lost_ids_of(lost_events@) =~= Seq::<ClientId>::empty());
            assert((DrainPlan {
                connect_ids: connect_ids_of(connect_events@),
                lost_ids: lost_ids_of(lost_events@),
                registry: reg_of(self.clients@),
                id_gen: self.client_id_gen,
            }) =~= init_plan);
            assert(self.departed@ =~= old(self).departed@ + lost_ids_of(lost_events@));
        }
        while self.from_async.len() > 0
            invariant
                self.wf(),
                self.channel_types@ == old(self).channel_types@,
                self.default_channel == old(self).default_channel,
                self.close_alive == old(self).close_alive,
                self.stats.received_messages_count == old(self).stats.received_messages_count,
                self.client_id_gen >= old(self).client_id_gen,
                self.stats.connect_count as int == (if old(self).stats.connect_count
                    + connect_events@.len() <= u32::MAX {
                    old(self).stats.connect_count + connect_events@.len()
                } else {
                    u32::MAX as int
                }),
                self.stats.disconnect_count as int == (if old(self).stats.disconnect_count
                    + lost_events@.len() <= u32::MAX {
                    old(self).stats.disconnect_count + lost_events@.len()
                } else {
                    u32::MAX as int
                }),
                forall|a: int, b: int|
                    0 <= a < b < connect_events@.len() ==> (#[trigger] connect_events@[a]).id < (
                    #[trigger] connect_events@[b]).id,
                forall|a: int|
                    0 <= a < connect_events@.len() ==> old(self).client_id_gen < (
                    #[trigger] connect_events@[a]).id <= self.client_id_gen,
                forall|a: int, b: int|
                    0 <= a < b < lost_events@.len() ==> (#[trigger] lost_events@[a]).id != (
                    #[trigger] lost_events@[b]).id,
                forall|a: int|
                    0 <= a < lost_events@.len() ==> !self.has_client(
                        (#[trigger] lost_events@[a]).id,
                    ) && self.has_departed(lost_events@[a].id),
                forall|j1: int|
                    0 <= j1 < self.clients@.len() ==> ((exists|j0: int|
                        0 <= j0 < old(self).clients@.len() && old(self).clients@[j0]
                            == #[trigger] self.clients@[j1]) || self.clients@[j1].id > old(self).client_id_gen),
                types == old(self).channel_types@,
                init_plan == (DrainPlan {
                    connect_ids: Seq::<ClientId>::empty(),
                    lost_ids: Seq::<ClientId>::empty(),
                    registry: reg_of(old(self).clients@),
                    id_gen: old(self).client_id_gen,
                }),
                notices_plan(
                    self.from_async@,
                    (DrainPlan {
                        connect_ids: connect_ids_of(connect_events@),
                        lost_ids: lost_ids_of(lost_events@),
                        registry: reg_of(self.clients@),
                        id_gen: self.client_id_gen,
                    }),
                    types,
                ) == notices_plan(old(self).from_async@, init_plan, types),
                self.departed@ == old(self).departed@ + lost_ids_of(lost_events@),
            decreases self.from_async@.len(),
        {
            let ghost pre = *self;
            let ghost acc_pre = DrainPlan {
                connect_ids: connect_ids_of(connect_events@),
                lost_ids: lost_ids_of(lost_events@),
                registry: reg_of(pre.clients@),
                id_gen: pre.client_id_gen,
            };
            proof {
                assert(pre.from_async@[0] matches ServerAsyncMessage::ClientConnected(c)
                    ==> c.wf());
            }
            let msg = self.from_async.remove(0);
            proof {
                assert forall|k2: int| 0 <= k2 < self.from_async@.len() implies (
                #[trigger] self.from_async@[k2] matches ServerAsyncMessage::ClientConnected(c)
                    ==> c.wf()) by {
                    assert(self.from_async@[k2] == pre.from_async@[k2 + 1]);
                }
                assert(self.from_async@ =~= pre.from_async@.drop_first());
                assert(notices_plan(pre.from_async@, acc_pre, types) == notices_plan(
                    pre.from_async@.drop_first(),
                    notice_step(acc_pre, pre.from_async@[0], types),
                    types,
                ));
            }
            match msg {
                ServerAsyncMessage::ClientConnected(connection) => {
                    let ghost gen_before = self.client_id_gen;
                    match self.handle_connection(connection) {
                        Ok(client_id) => {
                            if self.stats.connect_count < u32::MAX {
                                self.stats.connect_count = self.stats.connect_count + 1;
                            }
                            connect_events.push(ConnectionEvent { id: client_id });
                            proof {
                                assert forall|a: int|
                                    0 <= a < lost_events@.len() implies !self.has_client(
                                        (#[trigger] lost_events@[a]).id,
                                    ) && self.has_departed(lost_events@[a].id) by {
                                    let lid = lost_events@[a].id;
                                    lemma_idx_of(pre.clients@, lid);
                                    lemma_idx_of(self.clients@, lid);
                                    if self.has_client(lid) {
                                        let j = idx_of(self.clients@, lid);
                                        if j < self.clients@.len() - 1 {
                                            assert(pre.clients@[j].id == lid);
                                        } else {
                                            assert(lid == self.client_id_gen);
                                            assert(lid <= pre.client_id_gen);
                                        }
                                    }
                                }
                                assert forall|j1: int|
                                    0 <= j1 < self.clients@.len() implies ((exists|j0: int|
                                        0 <= j0 < old(self).clients@.len() && old(self).clients@[j0]
                                            == #[trigger] self.clients@[j1]) || self.clients@[j1].id
                                        > old(self).client_id_gen) by {
                                    if j1 < self.clients@.len() - 1 {
                                        assert(self.clients@[j1] == pre.clients@[j1]);
                                    } else {
                                        assert(self.clients@[j1].id == self.client_id_gen);
                                        assert(self.client_id_gen == gen_before + 1);
                                    }
                                }
                                assert(connect_ids_of(connect_events@)
                                    =~= acc_pre.connect_ids.push(client_id));
                                assert(reg_of(self.clients@) =~= acc_pre.registry.push(
                                    (client_id, self.clients@.last().connection.lost_notices as nat),
                                ));
                                assert((DrainPlan {
                                    connect_ids: connect_ids_of(connect_events@),
                                    lost_ids: lost_ids_of(lost_events@),
                                    registry: reg_of(self.clients@),
                                    id_gen: self.client_id_gen,
                                }) =~= notice_step(acc_pre, pre.from_async@[0], types));
                            }
                        },
                        Err(_) => {
                            proof {
                                assert(reg_of(self.clients@) =~= acc_pre.registry);
                                assert((DrainPlan {
                                    connect_ids: connect_ids_of(connect_events@),
                                    lost_ids: lost_ids_of(lost_events@),
                                    registry: reg_of(self.clients@),
                                    id_gen: self.client_id_gen,
                                }) =~= notice_step(acc_pre, pre.from_async@[0], types));
                            }
                        },
                    }
                },
                ServerAsyncMessage::ClientConnectionClosed(client_id) => {
                    match self.find_client(client_id) {
                        Some(_) => {
                            if self.stats.disconnect_count < u32::MAX {
                                self.stats.disconnect_count = self.stats.disconnect_count + 1;
                            }
                            let ghost mid = *self;
                            proof {
                                lemma_idx_of(mid.clients@, client_id);
                            }
                            self.try_disconnect_client(client_id);
                            lost_events.push(ConnectionLostEvent { id: client_id });
                            proof {
                                let k = idx_of(mid.clients@, client_id);
                                assert forall|a: int|
                                    0 <= a < lost_events@.len() implies !self.has_client(
                                        (#[trigger] lost_events@[a]).id,
                                    ) && self.has_departed(lost_events@[a].id) by {
                                    let lid = lost_events@[a].id;
                                    if a < lost_events@.len() - 1 {
                                        lemma_has_after_remove(mid.clients@, k, lid);
                                        lemma_idx_of(self.clients@, lid);
                                        lemma_idx_of(mid.clients@, lid);
                                        let t = choose|t: int|
                                            0 <= t < mid.departed@.len()
                                                && mid.departed@[t] == lid;
                                        assert(self.departed@[t] == lid);
                                    } else {
                                        assert(lid == client_id);
                                        assert(self.departed@.last() == client_id);
                                    }
                                }
                                assert forall|a: int, b: int|
                                    0 <= a < b < lost_events@.len() implies (
                                #[trigger] lost_events@[a]).id != (
                                #[trigger] lost_events@[b]).id by {
                                    if b == lost_events@.len() - 1 {
                                        assert(!mid.has_client(lost_events@[a].id));
                                        assert(mid.has_client(client_id));
                                    }
                                }
                                assert forall|j1: int|
                                    0 <= j1 < self.clients@.len() implies ((exists|j0: int|
                                        0 <= j0 < old(self).clients@.len() && old(self).clients@[j0]
                                            == #[trigger] self.clients@[j1]) || self.clients@[j1].id
                                        > old(self).client_id_gen) by {
                                    if j1 < k {
                                        assert(self.clients@[j1] == mid.clients@[j1]);
                                    } else {
                                        assert(self.clients@[j1] == mid.clients@[j1 + 1]);
                                    }
                                }
                                lemma_reg_idx_of(pre.clients@, client_id);
                                assert(reg_idx(acc_pre.registry, client_id) == k);
                                assert(lost_ids_of(lost_events@) =~= acc_pre.lost_ids.push(
                                    client_id,
                                ));
                                assert(reg_of(self.clients@) =~= acc_pre.registry.remove(k));
                                assert(self.departed@ =~= old(self).departed@ + lost_ids_of(
                                    lost_events@,
                                ));
                                assert((DrainPlan {
                                    connect_ids: connect_ids_of(connect_events@),
                                    lost_ids: lost_ids_of(lost_events@),
                                    registry: reg_of(self.clients@),
                                    id_gen: self.client_id_gen,
                                }) =~= notice_step(acc_pre, pre.from_async@[0], types));
                            }
                        },
                        None => {
                            proof {
                                lemma_reg_idx_of(pre.clients@, client_id);
                                assert((DrainPlan {
                                    connect_ids: connect_ids_of(connect_events@),
                                    lost_ids: lost_ids_of(lost_events@),
                                    registry: reg_of(self.clients@),
                                    id_gen: self.client_id_gen,
                                }) =~= notice_step(acc_pre, pre.from_async@[0], types));
                            }
                        },
                    }
                },
            }
        }
        let ghost p1 = notices_plan(old(self).from_async@, init_plan, types);
        let ghost mut m: int = 0;
        proof {
            assert(notices_plan(
                self.from_async@,
                (DrainPlan {
                    connect_ids: connect_ids_of(connect_events@),
                    lost_ids: lost_ids_of(lost_events@),
                    registry: reg_of(self.clients@),
                    id_gen: self.client_id_gen,
                }),
                types,
            ) == (DrainPlan {
                connect_ids: connect_ids_of(connect_events@),
                lost_ids: lost_ids_of(lost_events@),
                registry: reg_of(self.clients@),
                id_gen: self.client_id_gen,
            }));
            assert(p1.registry.take(0) =~= Seq::<(ClientId, nat)>::empty());
            assert(without_lost(p1.registry.take(0)) =~= Seq::<(ClientId, nat)>::empty());
            assert(pending_lost(p1.registry.take(0)) =~= Seq::<ClientId>::empty());
            assert(reg_of(self.clients@) =~= without_lost(p1.registry.take(0)) + p1.registry.skip(
                0,
            ));
            assert(lost_ids_of(lost_events@) =~= p1.lost_ids + pending_lost(p1.registry.take(0)));
        }
        let mut k: usize = 0;
        while k < self.clients.len()
            invariant
                self.wf(),
                self.channel_types@ == old(self).channel_types@,
                self.default_channel == old(self).default_channel,
                self.close_alive == old(self).close_alive,
                self.stats.received_messages_count == old(self).stats.received_messages_count,
                self.client_id_gen >= old(self).client_id_gen,
                self.from_async@.len() == 0,
                k <= self.clients@.len(),
                forall|j: int|
                    0 <= j < k ==> (#[trigger] self.clients@[j]).connection.lost_notices == 0,
                self.stats.connect_count as int == (if old(self).stats.connect_count
                    + connect_events@.len() <= u32::MAX {
                    old(self).stats.connect_count + connect_events@.len()
                } else {
                    u32::MAX as int
                }),
                self.stats.disconnect_count as int == (if old(self).stats.disconnect_count
                    + lost_events@.len() <= u32::MAX {
                    old(self).stats.disconnect_count + lost_events@.len()
                } else {
                    u32::MAX as int
                }),
                forall|a: int, b: int|
                    0 <= a < b < connect_events@.len() ==> (#[trigger] connect_events@[a]).id < (
                    #[trigger] connect_events@[b]).id,
                forall|a: int|
                    0 <= a < connect_events@.len() ==> old(self).client_id_gen < (
                    #[trigger] connect_events@[a]).id <= self.client_id_gen,
                forall|a: int, b: int|
                    0 <= a < b < lost_events@.len() ==> (#[trigger] lost_events@[a]).id != (
                    #[trigger] lost_events@[b]).id,
                forall|a: int|
                    0 <= a < lost_events@.len() ==> !self.has_client(
                        (#[trigger] lost_events@[a]).id,
                    ) && self.has_departed(lost_events@[a].id),
                forall|j1: int|
                    0 <= j1 < self.clients@.len() ==> ((exists|j0: int|
                        0 <= j0 < old(self).clients@.len() && old(self).clients@[j0]
                            == #[trigger] self.clients@[j1]) || self.clients@[j1].id > old(self).client_id_gen),
                types == old(self).channel_types@,
                init_plan == (DrainPlan {
                    connect_ids: Seq::<ClientId>::empty(),
                    lost_ids: Seq::<ClientId>::empty(),
                    registry: reg_of(old(self).clients@),
                    id_gen: old(self).client_id_gen,
                }),
                p1 == notices_plan(old(self).from_async@, init_plan, types),
                0 <= m <= p1.registry.len(),
                reg_of(self.clients@) == without_lost(p1.registry.take(m)) + p1.registry.skip(m),
                k as int == without_lost(p1.registry.take(m)).len(),
                connect_ids_of(connect_events@) == p1.connect_ids,
                lost_ids_of(lost_events@) == p1.lost_ids + pending_lost(p1.registry.take(m)),
                self.client_id_gen == p1.id_gen,
                self.departed@ == old(self).departed@ + lost_ids_of(lost_events@),
            decreases self.clients@.len() - k,
        {
            let ghost pre = *self;
            let entry = &mut self.clients[k];
            let n = entry.connection.take_lost_notices();
            if n > 0 {
                let removed = self.clients.remove(k);
                let client_id = removed.id;
                self.departed.push(client_id);
                if self.stats.disconnect_count < u32::MAX {
                    self.stats.disconnect_count = self.stats.disconnect_count + 1;
                }
                let ghost lost_pre = lost_events@;
                lost_events.push(ConnectionLostEvent { id: client_id });
                proof {
                    let ghost mid = Seq::new(
                        pre.clients@.len(),
                        |j: int|
                            if j == k {
                                ClientEntry {
                                    id: pre.clients@[k as int].id,
                                    connection: ClientConnection {
                                        lost_notices: 0,
                                        ..pre.clients@[k as int].connection
                                    },
                                }
                            } else {
                                pre.clients@[j]
                            },
                    );
                    assert(self.clients@ =~= mid.remove(k as int));
                    assert(mid[k as int].id == client_id);
                    assert forall|a: int|
                        0 <= a < lost_events@.len() implies !self.has_client(
                            (#[trigger] lost_events@[a]).id,
                        ) && self.has_departed(lost_events@[a].id) by {
                        let lid = lost_events@[a].id;
                        if a < lost_events@.len() - 1 {
                            lemma_has_after_remove(mid, k as int, lid);
                            lemma_idx_of(self.clients@, lid);
                            lemma_idx_of(pre.clients@, lid);
                            if self.has_client(lid) {
                                let j = choose|j: int|
                                    0 <= j < mid.len() && (#[trigger] mid[j]).id == lid;
                                assert(pre.clients@[j].id == lid);
                            }
                            let t = choose|t: int|
                                0 <= t < pre.departed@.len() && pre.departed@[t] == lid;
                            assert(self.departed@[t] == lid);
                        } else {
                            assert(lid == client_id);
                            assert(self.departed@.last() == client_id);
                            lemma_idx_of(self.clients@, lid);
                            if self.has_client(lid) {
                                let j = idx_of(self.clients@, lid);
                                if j < k {
                                    assert(pre.clients@[j].id == lid);
                                    assert(pre.clients@[k as int].id == lid);
                                } else {
                                    assert(pre.clients@[j + 1].id == lid);
                                    assert(pre.clients@[k as int].id == lid);
                                }
                                assert(false);
                            }
                        }
                    }
                    assert forall|a: int, b: int|
                        0 <= a < b < lost_events@.len() implies (#[trigger] lost_events@[a]).id
                            != (#[trigger] lost_events@[b]).id by {
                        if b == lost_events@.len() - 1 {
                            assert(!pre.has_client(lost_events@[a].id));
                            lemma_idx_of(pre.clients@, client_id);
                            assert(pre.clients@[k as int].id == client_id);
                        }
                    }
                    assert forall|j: int|
                        0 <= j < k ==> (#[trigger] self.clients@[j]).connection.lost_notices
                            == 0 by {}
                    assert forall|j1: int|
                        0 <= j1 < self.clients@.len() implies ((exists|j0: int|
                            0 <= j0 < old(self).clients@.len() && old(self).clients@[j0]
                                == #[trigger] self.clients@[j1]) || self.clients@[j1].id > old(self).client_id_gen) by {
                        if j1 < k {
                            assert(self.clients@[j1] == mid[j1]);
                            assert(mid[j1] == pre.clients@[j1]);
                        } else {
                            assert(self.clients@[j1] == mid[j1 + 1]);
                            assert(mid[j1 + 1] == pre.clients@[j1 + 1]);
                        }
                    }
                    // advance the drain plan: the entry had pending notices
                    assert(m < p1.registry.len());
                    assert(reg_of(pre.clients@)[k as int] == p1.registry[m]);
                    assert(p1.registry[m].0 == client_id);
                    assert(p1.registry[m].1 == n);
                    assert(p1.registry.take(m + 1) =~= p1.registry.take(m).push(p1.registry[m]));
                    lemma_pending_lost_push(p1.registry.take(m), p1.registry[m]);
                    lemma_without_lost_push(p1.registry.take(m), p1.registry[m]);
                    assert(pending_lost(p1.registry.take(m + 1)) == pending_lost(
                        p1.registry.take(m),
                    ) + seq![client_id]);
                    assert(without_lost(p1.registry.take(m + 1)) == without_lost(
                        p1.registry.take(m),
                    ));
                    assert(lost_ids_of(lost_events@) =~= lost_ids_of(lost_pre).push(client_id));
                    assert(lost_ids_of(lost_pre) == p1.lost_ids + pending_lost(
                        p1.registry.take(m),
                    ));
                    assert(lost_ids_of(lost_events@) =~= p1.lost_ids + pending_lost(
                        p1.registry.take(m + 1),
                    ));
                    assert(p1.registry.skip(m).drop_first() =~= p1.registry.skip(m + 1));
                    assert(self.clients@.len() == pre.clients@.len() - 1);
                    assert(reg_of(pre.clients@).len() == pre.clients@.len());
                    assert(reg_of(pre.clients@).len() == without_lost(p1.registry.take(m)).len()
                        + p1.registry.skip(m).len());
                    assert(p1.registry.skip(m).len() == p1.registry.len() - m);
                    assert forall|j: int|
                        0 <= j < reg_of(self.clients@).len() implies reg_of(self.clients@)[j]
                            == (without_lost(p1.registry.take(m)) + p1.registry.skip(m + 1))[j] by {
                        if j < k {
                            assert(self.clients@[j] == pre.clients@[j]);
                            assert(reg_of(pre.clients@)[j] == (without_lost(p1.registry.take(m))
                                + p1.registry.skip(m))[j]);
                        } else {
                            assert(self.clients@[j] == pre.clients@[j + 1]);
                            assert(reg_of(pre.clients@)[j + 1] == (without_lost(
                                p1.registry.take(m),
                            ) + p1.registry.skip(m))[j + 1]);
                            assert(0 <= j + 1 - k);
                            assert(m + (j + 1 - k) < p1.registry.len());
                            assert(p1.registry.skip(m)[j + 1 - k] == p1.registry[m + (j + 1
                                - k)]);
                            assert(p1.registry.skip(m + 1)[j - k] == p1.registry[m + 1 + (j
                                - k)]);
                        }
                    }
                    assert(reg_of(self.clients@) =~= without_lost(p1.registry.take(m + 1))
                        + p1.registry.skip(m + 1));
                    assert(self.departed@ =~= old(self).departed@ + lost_ids_of(lost_events@));
                    m = m + 1;
                }
            } else {
                proof {
                    assert(self.clients@ =~= pre.clients@);
                    assert(m < p1.registry.len());
                    assert(reg_of(pre.clients@)[k as int] == p1.registry[m]);
                    assert(p1.registry[m].1 == 0);
                    assert(p1.registry.take(m + 1) =~= p1.registry.take(m).push(p1.registry[m]));
                    lemma_pending_lost_push(p1.registry.take(m), p1.registry[m]);
                    lemma_without_lost_push(p1.registry.take(m), p1.registry[m]);
                    assert(pending_lost(p1.registry.take(m + 1)) =~= pending_lost(
                        p1.registry.take(m),
                    ));
                    assert(without_lost(p1.registry.take(m + 1)) =~= without_lost(
                        p1.registry.take(m),
                    ).push(p1.registry[m]));
                    assert(reg_of(self.clients@) =~= without_lost(p1.registry.take(m + 1))
                        + p1.registry.skip(m + 1)) by {
                        assert(p1.registry.skip(m) =~= seq![p1.registry[m]] + p1.registry.skip(
                            m + 1,
                        ));
                    }
                    m = m + 1;
                }
                k = k + 1;
            }
        }
        proof {
            assert(p1.registry.skip(m).len() == 0);
            assert(m == p1.registry.len());
            assert(p1.registry.take(m) =~= p1.registry);
            assert(reg_of(self.clients@) =~= without_lost(p1.registry));
            let plan = drain_plan(*old(self));
            assert(plan.connect_ids == p1.connect_ids);
            assert(plan.lost_ids == p1.lost_ids + pending_lost(p1.registry));
            assert(plan.registry == without_lost(p1.registry));
            assert(plan.id_gen == p1.id_gen);
        }
        (connect_events, lost_events)
    }

    /// Queues the notification that the acceptor finished wiring a new
    /// connection, as the asynchronous side does; fails fast with
    /// `FullQueue` when the notification queue is saturated.
    pub fn announce_connection(&mut self, connection: ClientConnection) -> (r: Result<
        (),
        QuintetError,
    >)
        requires
            old(self).wf(),
            connection.wf(),
        ensures
            final(self).wf(),
            old(self).from_async@.len() >= DEFAULT_INTERNAL_MESSAGE_CHANNEL_SIZE ==> r
                == Err::<(), QuintetError>(QuintetError::FullQueue) && *final(self) == *old(self),
            old(self).from_async@.len() < DEFAULT_INTERNAL_MESSAGE_CHANNEL_SIZE ==> {
                &&& r == Ok::<(), QuintetError>(())
                &&& final(self).from_async@ == old(self).from_async@.push(
                    ServerAsyncMessage::ClientConnected(connection),
                )
                &&& final(self).clients@ == old(self).clients@
                &&& final(self).client_id_gen == old(self).client_id_gen
                &&& final(self).channel_types@ == old(self).channel_types@
                &&& final(self).default_channel == old(self).default_channel
                &&& final(self).departed@ == old(self).departed@
                &&& final(self).stats == old(self).stats
                &&& final(self).close_alive == old(self).close_alive
            },
    {
        if self.from_async.len() >= DEFAULT_INTERNAL_MESSAGE_CHANNEL_SIZE {
            Err(QuintetError::FullQueue)
        } else {
            self.from_async.push(ServerAsyncMessage::ClientConnected(connection));
            Ok(())
        }
    }

    /// Queues the notification that a client's connection closed, as the
    /// asynchronous side does; fails fast with `FullQueue` when the
    /// notification queue is saturated.
    pub fn announce_connection_closed(&mut self, client_id: ClientId) -> (r: Result<
        (),
        QuintetError,
    >)
        requires
            old(self).wf(),
        ensures
            final(self).wf(),
            old(self).from_async@.len() >= DEFAULT_INTERNAL_MESSAGE_CHANNEL_SIZE ==> r
                == Err::<(), QuintetError>(QuintetError::FullQueue) && *final(self) == *old(self),
            old(self).from_async@.len() < DEFAULT_INTERNAL_MESSAGE_CHANNEL_SIZE ==> {
                &&& r == Ok::<(), QuintetError>(())
                &&& final(self).from_async@ == old(self).from_async@.push(
                    ServerAsyncMessage::ClientConnectionClosed(client_id),
                )
                &&& final(self).clients@ == old(self).clients@
                &&& final(self).client_id_gen == old(self).client_id_gen
                &&& final(self).channel_types@ == old(self).channel_types@
                &&& final(self).default_channel == old(self).default_channel
                &&& final(self).departed@ == old(self).departed@
                &&& final(self).stats == old(self).stats
                &&& final(self).close_alive == old(self).close_alive
            },
    {
        if self.from_async.len() >= DEFAULT_INTERNAL_MESSAGE_CHANNEL_SIZE {
            Err(QuintetError::FullQueue)
        } else {
            self.from_async.push(ServerAsyncMessage::ClientConnectionClosed(client_id));
            Ok(())
        }
    }

    /// Signals the connection acceptor to stop accepting connections;
    /// fails with `InternalChannelClosed` when it already stopped.
    pub fn close_incoming_connections_handler(&mut self) -> (r: Result<(), QuintetError>)
        requires
            old(self).wf(),
        ensures
            final(self).wf(),
            !old(self).close_alive ==> r == Err::<(), QuintetError>(
                QuintetError::InternalChannelClosed,
            ) && *final(self) == *old(self),
            old(self).close_alive ==> r == Ok::<(), QuintetError>(()) && *final(self) == (
            Endpoint { close_alive: false, ..*old(self) }),
    {
        if !self.close_alive {
            Err(QuintetError::InternalChannelClosed)
        } else {
            self.close_alive = false;
            Ok(())
        }
    }

    /// [`Endpoint::receive_message_from`] with the failure dropped: the
    /// caller sees `Some(..)` only for an actually received message.
    pub fn try_receive_message_from<T: borsh::BorshDeserialize>(&mut self, client_id: ClientId) -> (r: Option<(ChannelId, T)>)
        requires
            old(self).wf(),
        ensures
            final(self).wf(),
            exists|outcome: Result<Option<(ChannelId, Seq<u8>)>, QuintetError>|
                recv_transition(*old(self), *final(self), client_id, outcome),
    {
        let res = self.receive_message_from::<T>(client_id);
        match res {
            Ok(message) => {
                proof {
                    match message {
                        Some(ref p2) => {
                            let p = choose|p: Seq<u8>|
                                recv_transition(
                                    *old(self),
                                    *self,
                                    client_id,
                                    Ok(Some((p2.0, p))),
                                );
                            assert(recv_transition(
                                *old(self),
                                *self,
                                client_id,
                                Ok(Some((p2.0, p))),
                            ));
                        },
                        None => {
                            assert(recv_transition(
                                *old(self),
                                *self,
                                client_id,
                                Ok::<Option<(ChannelId, Seq<u8>)>, QuintetError>(None),
                            ));
                        },
                    }
                }
                message
            },
            Err(e) => {
                proof {
                    if e == QuintetError::Deserialization {
                        let chp = choose|chp: (ChannelId, Seq<u8>)|
                            recv_transition(*old(self), *self, client_id, Ok(Some(chp)));
                        assert(recv_transition(*old(self), *self, client_id, Ok(Some(chp))));
                    } else {
                        assert(recv_transition(
                            *old(self),
                            *self,
                            client_id,
                            Err::<Option<(ChannelId, Seq<u8>)>, QuintetError>(e),
                        ));
                    }
                }
                None
            },
        }
    }
}

} // verus!
