//! Per-client connection state: the registry of channel send queues, the
//! inbound payload queue filled by the receive tasks, and the close fan-out.
//!
//! The connection state is the synchronous face of one peer. The
//! asynchronous transport interacts with it only through the queue
//! operations below: the send tasks pop outbound payloads, the receive
//! tasks push inbound payloads, and fatal wire errors arrive as lost
//! notices that the endpoint drains once per tick.
use vstd::prelude::*;
use vstd::pervasive::VecAdditionalExecFns;
use crate::channels::{ChannelId, ChannelType, MAX_CHANNEL_COUNT};
use crate::errors::QuintetError;
use crate::{ClientId, DEFAULT_INTERNAL_MESSAGE_CHANNEL_SIZE, DEFAULT_MESSAGE_QUEUE_SIZE};

verus! {

/// The sending half of one opened channel on one connection: a bounded
/// outbound queue drained by the channel's send task.
#[derive(Debug)]
pub struct Channel {
    /// Payloads waiting to be written to the wire, oldest first.
    pub outbound: Vec<Vec<u8>>,
    /// Whether the channel's send task still holds the other end of the
    /// queue; when it has exited, enqueues fail.
    pub task_alive: bool,
}

impl Channel {
    /// The queue respects its bound.
    pub open spec fn wf(&self) -> bool {
        self.outbound@.len() <= DEFAULT_MESSAGE_QUEUE_SIZE
    }

    /// A fresh channel with an empty outbound queue and a live send task.
    pub fn new() -> (r: Self)
        ensures
            r.wf(),
            r.outbound@ == Seq::<Vec<u8>>::empty(),
            r.task_alive,
    {
        Channel { outbound: Vec::new(), task_alive: true }
    }

    /// Enqueues one payload for the channel's send task, without blocking:
    /// fails fast with `FullQueue` when the queue is saturated, and with
    /// `InternalChannelClosed` when the send task is gone.
    pub fn send_payload(&mut self, payload: Vec<u8>) -> (r: Result<(), QuintetError>)
        requires
            old(self).wf(),
        ensures
            final(self).wf(),
            final(self).task_alive == old(self).task_alive,
            if !old(self).task_alive {
                r == Err::<(), QuintetError>(QuintetError::InternalChannelClosed)
                    && final(self).outbound@ == old(self).outbound@
            } else if old(self).outbound@.len() >= DEFAULT_MESSAGE_QUEUE_SIZE {
                r == Err::<(), QuintetError>(QuintetError::FullQueue)
                    && final(self).outbound@ == old(self).outbound@
            } else {
                r == Ok::<(), QuintetError>(())
                    && final(self).outbound@ == old(self).outbound@.push(payload)
            },
    {
        if !self.task_alive {
            Err(QuintetError::InternalChannelClosed)
        } else if self.outbound.len() >= DEFAULT_MESSAGE_QUEUE_SIZE {
            Err(QuintetError::FullQueue)
        } else {
            self.outbound.push(payload);
            Ok(())
        }
    }
}

/// Represents one client's connection on the server's endpoint.
#[derive(Debug)]
pub struct ClientConnection {
    /// Send handles indexed by [`ChannelId`]; `None` marks a closed or
    /// never-opened slot.
    pub channels: Vec<Option<Channel>>,
    /// Payloads that closing channels still owe to the wire, each tagged
    /// with its channel id, oldest first per channel: a closed channel
    /// drains its queue before its stream is released.
    pub flush_backlog: Vec<(ChannelId, Vec<u8>)>,
    /// Payloads received from the client, oldest first.
    pub inbound: Vec<(ChannelId, Vec<u8>)>,
    /// Whether the receive tasks still hold the sending end of the inbound
    /// queue.
    pub inbound_open: bool,
    /// Lost-connection notices raised by channel tasks and not yet drained.
    pub lost_notices: usize,
    /// Channel tasks requested but not yet spawned by the task spawner.
    pub spawn_requests: Vec<(ChannelId, ChannelType)>,
    /// Whether the task spawner still accepts spawn requests.
    pub spawn_open: bool,
    /// Identity acknowledgements queued for the connection task.
    pub ack_pending: Vec<ClientId>,
    /// Whether the connection task still accepts acknowledgements.
    pub ack_open: bool,
    /// Whether the close broadcast still has listening tasks.
    pub close_alive: bool,
}

/// The payloads queued on one channel slot, empty for a vacant slot.
pub open spec fn outbound_of(slot: Option<Channel>) -> Seq<Vec<u8>> {
    match slot {
        Some(c) => c.outbound@,
        None => Seq::empty(),
    }
}

/// The payloads of one channel's queue, each tagged with the channel id.
pub open spec fn tag_payloads(channel_id: ChannelId, payloads: Seq<Vec<u8>>) -> Seq<
    (ChannelId, Vec<u8>),
> {
    payloads.map_values(|p: Vec<u8>| (channel_id, p))
}

/// The payloads queued on all channel slots, each tagged with its channel
/// id, in slot order, oldest first within each slot.
pub open spec fn all_outbound(slots: Seq<Option<Channel>>) -> Seq<(ChannelId, Vec<u8>)>
    decreases slots.len(),
{
    if slots.len() == 0 {
        Seq::empty()
    } else {
        all_outbound(slots.drop_last()) + tag_payloads(
            (slots.len() - 1) as ChannelId,
            outbound_of(slots.last()),
        )
    }
}

/// The failure that enqueueing a payload on channel `channel_id` of this
/// connection would report, or `None` when the enqueue succeeds.
pub open spec fn send_err(conn: ClientConnection, channel_id: ChannelId) -> Option<QuintetError> {
    if channel_id as int >= conn.channels@.len() {
        Some(QuintetError::UnknownChannel(channel_id))
    } else {
        match conn.channels@[channel_id as int] {
            None => Some(QuintetError::ChannelClosed),
            Some(c) => if !c.task_alive {
                Some(QuintetError::InternalChannelClosed)
            } else if c.outbound@.len() >= DEFAULT_MESSAGE_QUEUE_SIZE {
                Some(QuintetError::FullQueue)
            } else {
                None
            },
        }
    }
}

/// Connection `post` is `pre` with a payload holding the bytes `payload`
/// appended to the outbound queue of channel `channel_id`, and nothing else
/// changed.
pub open spec fn conn_sent(
    pre: ClientConnection,
    post: ClientConnection,
    channel_id: ChannelId,
    payload: Seq<u8>,
) -> bool {
    &&& post.channels@.len() == pre.channels@.len()
    &&& forall|j: int|
        0 <= j < post.channels@.len() && j != channel_id ==> #[trigger] post.channels@[j]
            == pre.channels@[j]
    &&& pre.channels@[channel_id as int] matches Some(c)
    &&& post.channels@[channel_id as int] matches Some(c2)
        && c2.task_alive == pre.channels@[channel_id as int]->Some_0.task_alive
        && c2.outbound.deep_view() == pre.channels@[channel_id as int]->Some_0.outbound.deep_view().push(payload)
    &&& post.flush_backlog == pre.flush_backlog
    &&& post.inbound == pre.inbound
    &&& post.inbound_open == pre.inbound_open
    &&& post.lost_notices == pre.lost_notices
    &&& post.spawn_requests == pre.spawn_requests
    &&& post.spawn_open == pre.spawn_open
    &&& post.ack_pending == pre.ack_pending
    &&& post.ack_open == pre.ack_open
    &&& post.close_alive == pre.close_alive
}

/// The failure that requesting one more channel task on this connection
/// would report, or `None` when the request succeeds.
pub open spec fn create_err(conn: ClientConnection) -> Option<QuintetError> {
    if !conn.spawn_open {
        Some(QuintetError::InternalChannelClosed)
    } else if conn.spawn_requests@.len() >= DEFAULT_INTERNAL_MESSAGE_CHANNEL_SIZE {
        Some(QuintetError::FullQueue)
    } else {
        None
    }
}

/// Connection `post` is `pre` with channel `channel_id` freshly created:
/// one more spawn request, a fresh empty send handle at that id, vacant
/// padding below it, and nothing else changed.
pub open spec fn conn_created(
    pre: ClientConnection,
    post: ClientConnection,
    channel_id: ChannelId,
    channel_type: ChannelType,
) -> bool {
    &&& post.spawn_requests@ == pre.spawn_requests@.push((channel_id, channel_type))
    &&& post.channels@.len() == (if channel_id as int + 1 > pre.channels@.len() {
        channel_id as int + 1
    } else {
        pre.channels@.len() as int
    })
    &&& post.spec_channel(channel_id) matches Some(c) && c.outbound@.len() == 0 && c.task_alive
    &&& forall|k: int|
        0 <= k < post.channels@.len() && k != channel_id ==> #[trigger] post.channels@[k] == (
        if k < pre.channels@.len() {
            pre.channels@[k]
        } else {
            None::<Channel>
        })
    &&& post.flush_backlog == pre.flush_backlog
    &&& post.inbound == pre.inbound
    &&& post.inbound_open == pre.inbound_open
    &&& post.lost_notices == pre.lost_notices
    &&& post.spawn_open == pre.spawn_open
    &&& post.ack_pending == pre.ack_pending
    &&& post.ack_open == pre.ack_open
    &&& post.close_alive == pre.close_alive
}

/// The failure that closing channel `channel_id` on this connection would
/// report, or `None` when the close succeeds.
pub open spec fn close_err(conn: ClientConnection, channel_id: ChannelId) -> Option<QuintetError> {
    if channel_id as int >= conn.channels@.len() {
        Some(QuintetError::UnknownChannel(channel_id))
    } else {
        match conn.channels@[channel_id as int] {
            None => Some(QuintetError::ChannelClosed),
            Some(c) => if c.task_alive {
                None
            } else {
                Some(QuintetError::ChannelClosed)
            },
        }
    }
}

/// Connection `post` is `pre` with channel `channel_id` closed: the slot
/// vacated, its queued payloads moved to the end of the flush backlog, and
/// nothing else changed.
pub open spec fn conn_channel_closed(
    pre: ClientConnection,
    post: ClientConnection,
    channel_id: ChannelId,
) -> bool {
    &&& pre.channels@[channel_id as int] matches Some(c)
    &&& post.channels@ == pre.channels@.update(channel_id as int, None::<Channel>)
    &&& post.flush_backlog@ == pre.flush_backlog@ + tag_payloads(
        channel_id,
        pre.channels@[channel_id as int]->Some_0.outbound@,
    )
    &&& post.inbound == pre.inbound
    &&& post.inbound_open == pre.inbound_open
    &&& post.lost_notices == pre.lost_notices
    &&& post.spawn_requests == pre.spawn_requests
    &&& post.spawn_open == pre.spawn_open
    &&& post.ack_pending == pre.ack_pending
    &&& post.ack_open == pre.ack_open
    &&& post.close_alive == pre.close_alive
}

/// Moves a channel's queued payloads into their tagged form, preserving
/// order.
fn tag_queue(channel_id: ChannelId, payloads: Vec<Vec<u8>>) -> (r: Vec<(ChannelId, Vec<u8>)>)
    ensures
        r@ == tag_payloads(channel_id, payloads@),
{
    let ghost qv = payloads@;
    let mut queued = payloads;
    let mut tagged: Vec<(ChannelId, Vec<u8>)> = Vec::new();
    let ghost mut t: int = 0;
    proof {
        assert(queued@ =~= qv.skip(0));
        assert(tagged@ =~= tag_payloads(channel_id, qv.take(0)));
    }
    while queued.len() > 0
        invariant
            0 <= t <= qv.len(),
            queued@ == qv.skip(t),
            tagged@ == tag_payloads(channel_id, qv.take(t)),
        decreases queued@.len(),
    {
        let p = queued.remove(0);
        tagged.push((channel_id, p));
        proof {
            assert(queued@ =~= qv.skip(t + 1));
            assert(qv.take(t + 1) =~= qv.take(t).push(qv[t]));
            assert(tagged@ =~= tag_payloads(channel_id, qv.take(t + 1)));
            t = t + 1;
        }
    }
    proof {
        assert(qv.take(t) =~= qv);
    }
    tagged
}

impl ClientConnection {
    /// All queues respect their bounds and the channel registry respects
    /// the channel id range.
    pub open spec fn wf(&self) -> bool {
        &&& self.channels@.len() <= MAX_CHANNEL_COUNT
        &&& forall|k: int|
            0 <= k < self.channels@.len() ==> (#[trigger] self.channels@[k] matches Some(c)
                ==> c.wf())
        &&& self.inbound@.len() <= DEFAULT_MESSAGE_QUEUE_SIZE
        &&& self.lost_notices <= DEFAULT_INTERNAL_MESSAGE_CHANNEL_SIZE
        &&& self.spawn_requests@.len() <= DEFAULT_INTERNAL_MESSAGE_CHANNEL_SIZE
        &&& self.ack_pending@.len() <= DEFAULT_INTERNAL_MESSAGE_CHANNEL_SIZE
    }

    /// The channel slot at `id`, `None` when out of range or closed.
    pub open spec fn spec_channel(&self, id: ChannelId) -> Option<Channel> {
        if id < self.channels@.len() {
            self.channels@[id as int]
        } else {
            None
        }
    }

    /// The payloads queued on channel `id`, oldest first; empty when the
    /// slot is vacant.
    pub open spec fn spec_outbound(&self, id: ChannelId) -> Seq<Vec<u8>> {
        match self.spec_channel(id) {
            Some(c) => c.outbound@,
            None => Seq::empty(),
        }
    }

    /// A fresh connection with no channels and empty queues, as handed to
    /// the endpoint by the connection acceptor.
    pub fn new() -> (r: Self)
        ensures
            r.wf(),
            r.channels@.len() == 0,
            r.flush_backlog@ == Seq::<(ChannelId, Vec<u8>)>::empty(),
            r.inbound@ == Seq::<(ChannelId, Vec<u8>)>::empty(),
            r.inbound_open,
            r.lost_notices == 0,
            r.spawn_requests@.len() == 0,
            r.spawn_open,
            r.ack_pending@.len() == 0,
            r.ack_open,
            r.close_alive,
    {
        ClientConnection {
            channels: Vec::new(),
            flush_backlog: Vec::new(),
            inbound: Vec::new(),
            inbound_open: true,
            lost_notices: 0,
            spawn_requests: Vec::new(),
            spawn_open: true,
            ack_pending: Vec::new(),
            ack_open: true,
            close_alive: true,
        }
    }

    /// Creates the channel `channel_id` on this connection: requests the
    /// matching send task from the task spawner and stores the new send
    /// handle at that id, growing the registry with vacant slots for ids
    /// beyond its current length. Fails with `FullQueue` or
    /// `InternalChannelClosed` when the spawn-request queue rejects the
    /// request, leaving the registry unchanged.
    pub fn create_channel(&mut self, channel_id: ChannelId, channel_type: ChannelType) -> (r:
        Result<ChannelId, QuintetError>)
        requires
            old(self).wf(),
        ensures
            final(self).wf(),
            final(self).flush_backlog == old(self).flush_backlog,
            final(self).inbound == old(self).inbound,
            final(self).inbound_open == old(self).inbound_open,
            final(self).lost_notices == old(self).lost_notices,
            final(self).spawn_open == old(self).spawn_open,
            final(self).ack_pending == old(self).ack_pending,
            final(self).ack_open == old(self).ack_open,
            final(self).close_alive == old(self).close_alive,
            !old(self).spawn_open ==> r == Err::<ChannelId, QuintetError>(
                QuintetError::InternalChannelClosed,
            ) && *final(self) == *old(self),
            old(self).spawn_open && old(self).spawn_requests@.len()
                >= DEFAULT_INTERNAL_MESSAGE_CHANNEL_SIZE ==> r == Err::<ChannelId, QuintetError>(
                QuintetError::FullQueue,
            ) && *final(self) == *old(self),
            old(self).spawn_open && old(self).spawn_requests@.len()
                < DEFAULT_INTERNAL_MESSAGE_CHANNEL_SIZE ==> {
                &&& r == Ok::<ChannelId, QuintetError>(channel_id)
                &&& final(self).spawn_requests@ == old(self).spawn_requests@.push(
                    (channel_id, channel_type),
                )
                &&& final(self).channels@.len() == if channel_id as int + 1 > old(self).channels@.len() {
                    channel_id as int + 1
                } else {
                    old(self).channels@.len() as int
                }
                &&& final(self).spec_channel(channel_id) matches Some(c) && c.outbound@.len()
                    == 0 && c.task_alive
                &&& forall|k: int|
                    0 <= k < final(self).channels@.len() && k != channel_id
                        ==> #[trigger] final(self).channels@[k] == (if k < old(self).channels@.len() {
                        old(self).channels@[k]
                    } else {
                        None::<Channel>
                    })
            },
    {
        if !self.spawn_open {
            return Err(QuintetError::InternalChannelClosed);
        }
        if self.spawn_requests.len() >= DEFAULT_INTERNAL_MESSAGE_CHANNEL_SIZE {
            return Err(QuintetError::FullQueue);
        }
        self.spawn_requests.push((channel_id, channel_type));
        let idx = channel_id as usize;
        if idx < self.channels.len() {
            self.channels.set(idx, Some(Channel::new()));
        } else {
            while self.channels.len() < idx
                invariant
                    old(self).wf(),
                    idx < MAX_CHANNEL_COUNT,
                    old(self).channels@.len() <= self.channels@.len() <= idx,
                    forall|k: int|
                        0 <= k < self.channels@.len() ==> #[trigger] self.channels@[k] == (
                        if k < old(self).channels@.len() {
                            old(self).channels@[k]
                        } else {
                            None::<Channel>
                        }),
                    self.flush_backlog == old(self).flush_backlog,
                    self.inbound == old(self).inbound,
                    self.inbound_open == old(self).inbound_open,
                    self.lost_notices == old(self).lost_notices,
                    self.spawn_requests@ == old(self).spawn_requests@.push(
                        (channel_id, channel_type),
                    ),
                    self.spawn_open == old(self).spawn_open,
                    self.ack_pending == old(self).ack_pending,
                    self.ack_open == old(self).ack_open,
                    self.close_alive == old(self).close_alive,
                    old(self).spawn_requests@.len() < DEFAULT_INTERNAL_MESSAGE_CHANNEL_SIZE,
                decreases idx - self.channels@.len(),
            {
                self.channels.push(None);
            }
            self.channels.push(Some(Channel::new()));
        }
        Ok(channel_id)
    }

    /// Takes the send handle at `channel_id` out of the registry and moves
    /// its queued payloads to the flush backlog: a closing channel first
    /// sends everything that was already queued. Fails with
    /// `UnknownChannel` when the id is beyond the registry, and with
    /// `ChannelClosed` when the slot is vacant or the send task is gone.
    pub fn close_channel(&mut self, channel_id: ChannelId) -> (r: Result<(), QuintetError>)
        requires
            old(self).wf(),
        ensures
            final(self).wf(),
            final(self).inbound == old(self).inbound,
            final(self).inbound_open == old(self).inbound_open,
            final(self).lost_notices == old(self).lost_notices,
            final(self).spawn_requests == old(self).spawn_requests,
            final(self).spawn_open == old(self).spawn_open,
            final(self).ack_pending == old(self).ack_pending,
            final(self).ack_open == old(self).ack_open,
            final(self).close_alive == old(self).close_alive,
            channel_id as int >= old(self).channels@.len() ==> r == Err::<(), QuintetError>(
                QuintetError::UnknownChannel(channel_id),
            ) && final(self).channels@ == old(self).channels@ && final(self).flush_backlog@
                == old(self).flush_backlog@,
            (channel_id as int) < old(self).channels@.len() && old(self).channels@[channel_id as int]
                is None ==> r == Err::<(), QuintetError>(QuintetError::ChannelClosed) && final(self).channels@ == old(self).channels@ && final(self).flush_backlog@ == old(self).flush_backlog@,
            (channel_id as int) < old(self).channels@.len()
                ==> (old(self).channels@[channel_id as int] matches Some(c) ==> {
                &&& final(self).channels@ == old(self).channels@.update(
                    channel_id as int,
                    None::<Channel>,
                )
                &&& c.task_alive ==> r == Ok::<(), QuintetError>(()) && final(self).flush_backlog@
                    == old(self).flush_backlog@ + tag_payloads(channel_id, c.outbound@)
                &&& !c.task_alive ==> r == Err::<(), QuintetError>(QuintetError::ChannelClosed)
                    && final(self).flush_backlog@ == old(self).flush_backlog@
            }),
    {
        let idx = channel_id as usize;
        if idx >= self.channels.len() {
            return Err(QuintetError::UnknownChannel(channel_id));
        }
        let mut slot: Option<Channel> = None;
        self.channels.set_and_swap(idx, &mut slot);
        match slot {
            Some(channel) => {
                if channel.task_alive {
                    let mut tagged = tag_queue(channel_id, channel.outbound);
                    self.flush_backlog.append(&mut tagged);
                    Ok(())
                } else {
                    Err(QuintetError::ChannelClosed)
                }
            },
            None => Err(QuintetError::ChannelClosed),
        }
    }

    /// Signals the connection to close all its background tasks. The
    /// payloads still queued on every channel move to the flush backlog,
    /// in slot order: the connection waits for all buffered messages to be
    /// sent before it truly closes. Fails with `ConnectionAlreadyClosed`
    /// when no task listens to the close broadcast any more.
    pub fn close(&mut self) -> (r: Result<(), QuintetError>)
        requires
            old(self).wf(),
        ensures
            final(self).wf(),
            !old(self).close_alive ==> r == Err::<(), QuintetError>(
                QuintetError::ConnectionAlreadyClosed,
            ) && *final(self) == *old(self),
            old(self).close_alive ==> {
                &&& r == Ok::<(), QuintetError>(())
                &&& final(self).channels@.len() == old(self).channels@.len()
                &&& forall|k: int|
                    0 <= k < final(self).channels@.len() ==> #[trigger] final(self).channels@[k]
                        is None
                &&& final(self).flush_backlog@ == old(self).flush_backlog@ + all_outbound(
                    old(self).channels@,
                )
                &&& final(self).inbound == old(self).inbound
                &&& !final(self).inbound_open
                &&& final(self).lost_notices == old(self).lost_notices
                &&& final(self).spawn_requests == old(self).spawn_requests
                &&& !final(self).spawn_open
                &&& final(self).ack_pending == old(self).ack_pending
                &&& !final(self).ack_open
                &&& !final(self).close_alive
            },
    {
        if !self.close_alive {
            return Err(QuintetError::ConnectionAlreadyClosed);
        }
        let n = self.channels.len();
        let mut i: usize = 0;
        proof {
            assert(old(self).channels@.take(0) =~= Seq::<Option<Channel>>::empty());
            assert(self.flush_backlog@ =~= old(self).flush_backlog@ + all_outbound(
                old(self).channels@.take(0),
            ));
        }
        while i < n
            invariant
                old(self).wf(),
                n == self.channels@.len(),
                n == old(self).channels@.len(),
                i <= n,
                self.flush_backlog@ == old(self).flush_backlog@ + all_outbound(
                    old(self).channels@.take(i as int),
                ),
                forall|k: int| 0 <= k < i ==> #[trigger] self.channels@[k] is None,
                forall|k: int|
                    i <= k < n ==> #[trigger] self.channels@[k] == old(self).channels@[k],
                self.inbound == old(self).inbound,
                self.inbound_open == old(self).inbound_open,
                self.lost_notices == old(self).lost_notices,
                self.spawn_requests == old(self).spawn_requests,
                self.spawn_open == old(self).spawn_open,
                self.ack_pending == old(self).ack_pending,
                self.ack_open == old(self).ack_open,
                self.close_alive == old(self).close_alive,
            decreases n - i,
        {
            let mut slot: Option<Channel> = None;
            self.channels.set_and_swap(i, &mut slot);
            proof {
                assert(old(self).channels@.take(i + 1).drop_last() =~= old(self).channels@.take(
                    i as int,
                ));
                assert(old(self).channels@.take(i + 1).last() == old(self).channels@[i as int]);
            }
            match slot {
                Some(channel) => {
                    let mut tagged = tag_queue(i as ChannelId, channel.outbound);
                    self.flush_backlog.append(&mut tagged);
                },
                None => {
                    proof {
                        assert(self.flush_backlog@ =~= old(self).flush_backlog@ + all_outbound(
                            old(self).channels@.take(i + 1),
                        ));
                    }
                },
            }
            i = i + 1;
        }
        proof {
            assert(old(self).channels@.take(n as int) =~= old(self).channels@);
        }
        self.inbound_open = false;
        self.spawn_open = false;
        self.ack_open = false;
        self.close_alive = false;
        Ok(())
    }

    /// [`ClientConnection::close`], with the failure dropped: closing an
    /// already-closed connection is reported, not retried.
    pub fn try_close(&mut self)
        requires
            old(self).wf(),
        ensures
            final(self).wf(),
            !old(self).close_alive ==> *final(self) == *old(self),
            old(self).close_alive ==> {
                &&& forall|k: int|
                    0 <= k < final(self).channels@.len() ==> #[trigger] final(self).channels@[k]
                        is None
                &&& !final(self).close_alive
            },
    {
        let _ = self.close();
    }

    /// Pushes one received `(channel, payload)` pair onto the inbound
    /// queue, as the receive tasks do for every frame or datagram read
    /// from the wire. Fails fast with `FullQueue` when the queue is
    /// saturated, and with `InternalChannelClosed` once the connection is
    /// closed.
    pub fn deliver_payload(&mut self, channel_id: ChannelId, payload: Vec<u8>) -> (r: Result<
        (),
        QuintetError,
    >)
        requires
            old(self).wf(),
        ensures
            final(self).wf(),
            !old(self).inbound_open ==> r == Err::<(), QuintetError>(
                QuintetError::InternalChannelClosed,
            ) && *final(self) == *old(self),
            old(self).inbound_open && old(self).inbound@.len() >= DEFAULT_MESSAGE_QUEUE_SIZE
                ==> r == Err::<(), QuintetError>(QuintetError::FullQueue) && *final(self) == *old(self),
            old(self).inbound_open && old(self).inbound@.len() < DEFAULT_MESSAGE_QUEUE_SIZE ==> {
                &&& r == Ok::<(), QuintetError>(())
                &&& final(self).inbound@ == old(self).inbound@.push((channel_id, payload))
                &&& final(self).channels == old(self).channels
                &&& final(self).flush_backlog == old(self).flush_backlog
                &&& final(self).inbound_open
                &&& final(self).lost_notices == old(self).lost_notices
                &&& final(self).spawn_requests == old(self).spawn_requests
                &&& final(self).spawn_open == old(self).spawn_open
                &&& final(self).ack_pending == old(self).ack_pending
                &&& final(self).ack_open == old(self).ack_open
                &&& final(self).close_alive == old(self).close_alive
            },
    {
        if !self.inbound_open {
            Err(QuintetError::InternalChannelClosed)
        } else if self.inbound.len() >= DEFAULT_MESSAGE_QUEUE_SIZE {
            Err(QuintetError::FullQueue)
        } else {
            self.inbound.push((channel_id, payload));
            Ok(())
        }
    }

    /// Non-blocking pop of the oldest received pair: `Ok(None)` means
    /// nothing is pending now, and `InternalChannelClosed` that the
    /// receive pipeline tore down and nothing more can ever arrive.
    pub fn try_recv(&mut self) -> (r: Result<Option<(ChannelId, Vec<u8>)>, QuintetError>)
        requires
            old(self).wf(),
        ensures
            final(self).wf(),
            final(self).channels == old(self).channels,
            final(self).flush_backlog == old(self).flush_backlog,
            final(self).inbound_open == old(self).inbound_open,
            final(self).lost_notices == old(self).lost_notices,
            final(self).spawn_requests == old(self).spawn_requests,
            final(self).spawn_open == old(self).spawn_open,
            final(self).ack_pending == old(self).ack_pending,
            final(self).ack_open == old(self).ack_open,
            final(self).close_alive == old(self).close_alive,
            old(self).inbound@.len() > 0 ==> r == Ok::<Option<(ChannelId, Vec<u8>)>, QuintetError>(
                Some(old(self).inbound@[0]),
            ) && final(self).inbound@ == old(self).inbound@.drop_first(),
            old(self).inbound@.len() == 0 && old(self).inbound_open ==> r == Ok::<
                Option<(ChannelId, Vec<u8>)>,
                QuintetError,
            >(None) && *final(self) == *old(self),
            old(self).inbound@.len() == 0 && !old(self).inbound_open ==> r == Err::<
                Option<(ChannelId, Vec<u8>)>,
                QuintetError,
            >(QuintetError::InternalChannelClosed) && *final(self) == *old(self),
    {
        if self.inbound.len() > 0 {
            let item = self.inbound.remove(0);
            Ok(Some(item))
        } else if self.inbound_open {
            Ok(None)
        } else {
            Err(QuintetError::InternalChannelClosed)
        }
    }

    /// Enqueues `payload` on channel `channel_id` of this connection,
    /// without blocking. Fails with `UnknownChannel` beyond the registry,
    /// `ChannelClosed` on a vacant slot, `InternalChannelClosed` when the
    /// send task is gone, and `FullQueue` when the queue is saturated.
    pub fn send_payload_on(&mut self, channel_id: ChannelId, payload: Vec<u8>) -> (r: Result<
        (),
        QuintetError,
    >)
        requires
            old(self).wf(),
        ensures
            final(self).wf(),
            match send_err(*old(self), channel_id) {
                Some(e) => r == Err::<(), QuintetError>(e) && *final(self) == *old(self),
                None => r == Ok::<(), QuintetError>(()) && conn_sent(
                    *old(self),
                    *final(self),
                    channel_id,
                    payload@,
                ),
            },
    {
        let idx = channel_id as usize;
        if idx >= self.channels.len() {
            return Err(QuintetError::UnknownChannel(channel_id));
        }
        match &self.channels[idx] {
            None => {
                return Err(QuintetError::ChannelClosed);
            },
            Some(c) => {
                if !c.task_alive {
                    return Err(QuintetError::InternalChannelClosed);
                }
                if c.outbound.len() >= DEFAULT_MESSAGE_QUEUE_SIZE {
                    return Err(QuintetError::FullQueue);
                }
            },
        }
        let ghost pre_outbound = self.channels@[idx as int]->Some_0.outbound;
        if let Some(c) = &mut self.channels[idx] {
            c.outbound.push(payload);
            proof {
                assert(c.outbound.deep_view() =~~= pre_outbound.deep_view().push(payload@));
            }
        }
        Ok(())
    }

    /// Pops the oldest payload queued on channel `channel_id`, as the
    /// channel's send task does before framing it onto the wire; `None`
    /// when the slot is vacant or its queue is empty.
    pub fn pop_outbound(&mut self, channel_id: ChannelId) -> (r: Option<Vec<u8>>)
        requires
            old(self).wf(),
        ensures
            final(self).wf(),
            final(self).flush_backlog == old(self).flush_backlog,
            final(self).inbound == old(self).inbound,
            final(self).inbound_open == old(self).inbound_open,
            final(self).lost_notices == old(self).lost_notices,
            final(self).spawn_requests == old(self).spawn_requests,
            final(self).spawn_open == old(self).spawn_open,
            final(self).ack_pending == old(self).ack_pending,
            final(self).ack_open == old(self).ack_open,
            final(self).close_alive == old(self).close_alive,
            old(self).spec_outbound(channel_id).len() == 0 ==> r == None::<Vec<u8>> && final(self).channels@ == old(self).channels@,
            old(self).spec_outbound(channel_id).len() > 0 ==> {
                &&& r == Some(old(self).spec_outbound(channel_id)[0])
                &&& final(self).spec_outbound(channel_id) == old(self).spec_outbound(
                    channel_id,
                ).drop_first()
                &&& final(self).channels@.len() == old(self).channels@.len()
                &&& forall|k: int|
                    0 <= k < final(self).channels@.len() && k != channel_id
                        ==> #[trigger] final(self).channels@[k] == old(self).channels@[k]
                &&& final(self).spec_channel(channel_id) matches Some(c) && c.task_alive == old(self).spec_channel(channel_id)->Some_0.task_alive
            },
    {
        let idx = channel_id as usize;
        if idx >= self.channels.len() {
            return None;
        }
        let mut slot: Option<Channel> = None;
        self.channels.set_and_swap(idx, &mut slot);
        match slot {
            Some(mut channel) => {
                let r = if channel.outbound.len() > 0 {
                    Some(channel.outbound.remove(0))
                } else {
                    None
                };
                self.channels.set(idx, Some(channel));
                proof {
                    if old(self).spec_outbound(channel_id).len() == 0 {
                        assert(self.channels@ =~= old(self).channels@);
                    }
                }
                r
            },
            None => {
                self.channels.set(idx, None);
                proof {
                    assert(self.channels@ =~= old(self).channels@);
                }
                None
            },
        }
    }

    /// Pops the oldest payload a closing channel still owes to the wire,
    /// tagged with its channel id; `None` when nothing is left to flush.
    pub fn pop_flush(&mut self) -> (r: Option<(ChannelId, Vec<u8>)>)
        requires
            old(self).wf(),
        ensures
            final(self).wf(),
            final(self).channels == old(self).channels,
            final(self).inbound == old(self).inbound,
            final(self).inbound_open == old(self).inbound_open,
            final(self).lost_notices == old(self).lost_notices,
            final(self).spawn_requests == old(self).spawn_requests,
            final(self).spawn_open == old(self).spawn_open,
            final(self).ack_pending == old(self).ack_pending,
            final(self).ack_open == old(self).ack_open,
            final(self).close_alive == old(self).close_alive,
            old(self).flush_backlog@.len() == 0 ==> r == None::<(ChannelId, Vec<u8>)> && final(self).flush_backlog@ == old(self).flush_backlog@,
            old(self).flush_backlog@.len() > 0 ==> r == Some(old(self).flush_backlog@[0]) && final(self).flush_backlog@ == old(self).flush_backlog@.drop_first(),
    {
        if self.flush_backlog.len() > 0 {
            Some(self.flush_backlog.remove(0))
        } else {
            None
        }
    }

    /// Records one lost-connection notice, as a channel task does after a
    /// fatal wire error; fails fast with `FullQueue` when the notice queue
    /// is saturated.
    pub fn report_lost(&mut self) -> (r: Result<(), QuintetError>)
        requires
            old(self).wf(),
        ensures
            final(self).wf(),
            old(self).lost_notices >= DEFAULT_INTERNAL_MESSAGE_CHANNEL_SIZE ==> r == Err::<
                (),
                QuintetError,
            >(QuintetError::FullQueue) && *final(self) == *old(self),
            old(self).lost_notices < DEFAULT_INTERNAL_MESSAGE_CHANNEL_SIZE ==> {
                &&& r == Ok::<(), QuintetError>(())
                &&& final(self).lost_notices == old(self).lost_notices + 1
                &&& final(self).channels == old(self).channels
                &&& final(self).flush_backlog == old(self).flush_backlog
                &&& final(self).inbound == old(self).inbound
                &&& final(self).inbound_open == old(self).inbound_open
                &&& final(self).spawn_requests == old(self).spawn_requests
                &&& final(self).spawn_open == old(self).spawn_open
                &&& final(self).ack_pending == old(self).ack_pending
                &&& final(self).ack_open == old(self).ack_open
                &&& final(self).close_alive == old(self).close_alive
            },
    {
        if self.lost_notices >= DEFAULT_INTERNAL_MESSAGE_CHANNEL_SIZE {
            Err(QuintetError::FullQueue)
        } else {
            self.lost_notices = self.lost_notices + 1;
            Ok(())
        }
    }

    /// Drains and returns the lost-connection notices accumulated since
    /// the previous drain.
    pub fn take_lost_notices(&mut self) -> (n: usize)
        requires
            old(self).wf(),
        ensures
            final(self).wf(),
            n == old(self).lost_notices,
            final(self).lost_notices == 0,
            final(self).channels == old(self).channels,
            final(self).flush_backlog == old(self).flush_backlog,
            final(self).inbound == old(self).inbound,
            final(self).inbound_open == old(self).inbound_open,
            final(self).spawn_requests == old(self).spawn_requests,
            final(self).spawn_open == old(self).spawn_open,
            final(self).ack_pending == old(self).ack_pending,
            final(self).ack_open == old(self).ack_open,
            final(self).close_alive == old(self).close_alive,
    {
        let n = self.lost_notices;
        self.lost_notices = 0;
        n
    }

    /// Pops the oldest pending spawn request, as the connection's task
    /// spawner does before starting the channel's send task; `None` when
    /// no request is pending.
    pub fn take_spawn_request(&mut self) -> (r: Option<(ChannelId, ChannelType)>)
        requires
            old(self).wf(),
        ensures
            final(self).wf(),
            final(self).channels == old(self).channels,
            final(self).flush_backlog == old(self).flush_backlog,
            final(self).inbound == old(self).inbound,
            final(self).inbound_open == old(self).inbound_open,
            final(self).lost_notices == old(self).lost_notices,
            final(self).spawn_open == old(self).spawn_open,
            final(self).ack_pending == old(self).ack_pending,
            final(self).ack_open == old(self).ack_open,
            final(self).close_alive == old(self).close_alive,
            old(self).spawn_requests@.len() == 0 ==> r == None::<(ChannelId, ChannelType)>
                && final(self).spawn_requests@ == old(self).spawn_requests@,
            old(self).spawn_requests@.len() > 0 ==> r == Some(old(self).spawn_requests@[0])
                && final(self).spawn_requests@ == old(self).spawn_requests@.drop_first(),
    {
        if self.spawn_requests.len() > 0 {
            Some(self.spawn_requests.remove(0))
        } else {
            None
        }
    }
}

} // verus!
