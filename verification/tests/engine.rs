//! Scenario tests of the endpoint engine: connection lifecycle, channel
//! management, payload flow and the tick drain.
use jeffy_quintet::channels::{ChannelType, ChannelsConfiguration};
use jeffy_quintet::connection::ClientConnection;
use jeffy_quintet::endpoint::Endpoint;
use jeffy_quintet::errors::QuintetError;
use jeffy_quintet::server::{server_just_closed, server_just_opened, QuintetServer};
use jeffy_quintet::DEFAULT_MESSAGE_QUEUE_SIZE;

fn endpoint_with_types(types: Vec<ChannelType>) -> Endpoint {
    let mut endpoint = Endpoint::new();
    for t in types {
        endpoint.open_channel(t).unwrap();
    }
    endpoint
}

fn connect_one_client(endpoint: &mut Endpoint) -> u64 {
    endpoint.announce_connection(ClientConnection::new()).unwrap();
    let (connects, losts) = endpoint.update_sync();
    assert_eq!(connects.len(), 1);
    assert!(losts.is_empty());
    connects[0].id
}

#[test]
fn single_client_ordered_payloads_in_order() {
    // One OrderedReliable channel (id 0, the default); a single client
    // connects; the drain yields exactly one connect event; three payloads
    // arrive and are read back in order, then nothing is pending.
    let mut server = QuintetServer::new();
    let config = ChannelsConfiguration::default();
    server.start_endpoint(&config).unwrap();
    let endpoint = server.endpoint_mut();
    assert_eq!(endpoint.get_default_channel(), Some(0));

    let id = connect_one_client(endpoint);
    assert_eq!(id, 1);
    assert_eq!(endpoint.endpoint_stats().connect_count(), 1);
    assert_eq!(endpoint.clients(), vec![1]);

    endpoint.clients[0].connection.deliver_payload(0, b"A".to_vec()).unwrap();
    endpoint.clients[0].connection.deliver_payload(0, b"B".to_vec()).unwrap();
    endpoint.clients[0].connection.deliver_payload(0, b"C".to_vec()).unwrap();

    assert_eq!(endpoint.receive_payload_from(id).unwrap(), Some((0, b"A".to_vec())));
    assert_eq!(endpoint.receive_payload_from(id).unwrap(), Some((0, b"B".to_vec())));
    assert_eq!(endpoint.receive_payload_from(id).unwrap(), Some((0, b"C".to_vec())));
    assert_eq!(endpoint.receive_payload_from(id).unwrap(), None);
    assert_eq!(endpoint.endpoint_stats().received_messages_count(), 3);
}

#[test]
fn close_channel_flushes_queued_payloads() {
    // Channel 0 UnorderedReliable, channel 1 Unreliable; closing channel 0
    // with five queued payloads must not drop any of the five: they all
    // move to the flush backlog, still owed to the wire.
    let mut endpoint = endpoint_with_types(vec![
        ChannelType::UnorderedReliable,
        ChannelType::Unreliable,
    ]);
    let id = connect_one_client(&mut endpoint);

    for k in 0u8..5 {
        endpoint.send_payload_on(id, 0, vec![k]).unwrap();
    }
    endpoint.send_payload_on(id, 1, vec![99]).unwrap();

    endpoint.close_channel(0).unwrap();
    let flushed = &endpoint.clients[0].connection.flush_backlog;
    assert_eq!(flushed.len(), 5);
    for k in 0u8..5 {
        assert_eq!(flushed[k as usize], (0, vec![k]));
    }
    // the closed channel rejects new payloads; channel 1 still works
    assert_eq!(
        endpoint.send_payload_on(id, 0, vec![7]),
        Err(QuintetError::ChannelClosed)
    );
    endpoint.send_payload_on(id, 1, vec![7]).unwrap();
    // closing channel 1 has no flush obligation beyond its own queue
    endpoint.close_channel(1).unwrap();
}

#[test]
fn lost_transport_yields_one_disconnect_event() {
    // A connected client's transport terminates: both receive sub-tasks
    // independently report loss, yet one drain yields exactly one
    // disconnect event, one disconnect-count increment, and the client id
    // leaves the live set.
    let mut endpoint = endpoint_with_types(vec![ChannelType::OrderedReliable]);
    let id = connect_one_client(&mut endpoint);
    assert_eq!(endpoint.endpoint_stats().disconnect_count(), 0);

    endpoint.clients[0].connection.report_lost().unwrap();
    endpoint.clients[0].connection.report_lost().unwrap();

    let (connects, losts) = endpoint.update_sync();
    assert!(connects.is_empty());
    assert_eq!(losts.len(), 1);
    assert_eq!(losts[0].id, id);
    assert_eq!(endpoint.endpoint_stats().disconnect_count(), 1);
    assert!(endpoint.clients().is_empty());

    // a later closed notification for the same client adds nothing
    endpoint.announce_connection_closed(id).unwrap();
    let (connects2, losts2) = endpoint.update_sync();
    assert!(connects2.is_empty());
    assert!(losts2.is_empty());
    assert_eq!(endpoint.endpoint_stats().disconnect_count(), 1);
}

#[test]
fn closed_notification_yields_one_disconnect_event() {
    let mut endpoint = endpoint_with_types(vec![ChannelType::OrderedReliable]);
    let id = connect_one_client(&mut endpoint);

    // the transport watcher reports the closed connection, and the channel
    // tasks report loss as well, all before the next drain
    endpoint.clients[0].connection.report_lost().unwrap();
    endpoint.announce_connection_closed(id).unwrap();
    let (_, losts) = endpoint.update_sync();
    assert_eq!(losts.len(), 1);
    assert_eq!(losts[0].id, id);
    assert_eq!(endpoint.endpoint_stats().disconnect_count(), 1);
    assert!(endpoint.clients().is_empty());
}

#[test]
fn disconnect_client_twice() {
    // Disconnecting the same id twice succeeds once, then reports
    // ClientAlreadyDisconnected; a never-seen id reports UnknownClient.
    let mut endpoint = endpoint_with_types(vec![ChannelType::OrderedReliable]);
    let id = connect_one_client(&mut endpoint);

    assert_eq!(endpoint.disconnect_client(id), Ok(()));
    assert_eq!(
        endpoint.disconnect_client(id),
        Err(QuintetError::ClientAlreadyDisconnected(id))
    );
    assert_eq!(
        endpoint.disconnect_client(4242),
        Err(QuintetError::UnknownClient(4242))
    );
}

#[test]
fn send_boundaries() {
    // Sending on a channel id beyond the opened range reports
    // UnknownChannel; sending to a never-seen client reports UnknownClient.
    let mut endpoint = endpoint_with_types(vec![ChannelType::OrderedReliable]);
    let id = connect_one_client(&mut endpoint);

    assert_eq!(
        endpoint.send_payload_on(id, 3, b"x".to_vec()),
        Err(QuintetError::UnknownChannel(3))
    );
    assert_eq!(
        endpoint.send_payload_on(77, 0, b"x".to_vec()),
        Err(QuintetError::UnknownClient(77))
    );
    assert_eq!(
        endpoint.send_payload(99, b"x".to_vec()),
        Err(QuintetError::UnknownClient(99))
    );
}

#[test]
fn channel_ids_lowest_free_first_and_reused_after_close() {
    let mut endpoint = Endpoint::new();
    assert_eq!(endpoint.open_channel(ChannelType::OrderedReliable), Ok(0));
    assert_eq!(endpoint.open_channel(ChannelType::Unreliable), Ok(1));
    assert_eq!(endpoint.open_channel(ChannelType::UnorderedReliable), Ok(2));
    assert_eq!(endpoint.get_default_channel(), Some(0));

    endpoint.close_channel(1).unwrap();
    // the released id is handed out again, lowest free first
    assert_eq!(endpoint.open_channel(ChannelType::OrderedReliable), Ok(1));
    // closing the default clears it
    endpoint.close_channel(0).unwrap();
    assert_eq!(endpoint.get_default_channel(), None);
    assert_eq!(endpoint.open_channel(ChannelType::Unreliable), Ok(0));
    assert_eq!(endpoint.get_default_channel(), Some(0));
    assert_eq!(
        endpoint.close_channel(9),
        Err(QuintetError::UnknownChannel(9))
    );
}

#[test]
fn channel_pool_exhaustion() {
    let mut endpoint = Endpoint::new();
    for k in 0u32..256 {
        assert_eq!(endpoint.open_channel(ChannelType::Unreliable), Ok(k as u8));
    }
    assert_eq!(
        endpoint.open_channel(ChannelType::Unreliable),
        Err(QuintetError::MaxChannelsCountReached)
    );
}

#[test]
fn send_queue_backpressure() {
    // The outbound queue is bounded: enqueues beyond the bound fail fast
    // with FullQueue rather than blocking.
    let mut endpoint = endpoint_with_types(vec![ChannelType::OrderedReliable]);
    let id = connect_one_client(&mut endpoint);
    for _ in 0..DEFAULT_MESSAGE_QUEUE_SIZE {
        endpoint.send_payload_on(id, 0, b"m".to_vec()).unwrap();
    }
    assert_eq!(
        endpoint.send_payload_on(id, 0, b"m".to_vec()),
        Err(QuintetError::FullQueue)
    );
}

#[test]
fn send_tasks_pop_in_send_order() {
    let mut endpoint = endpoint_with_types(vec![ChannelType::OrderedReliable]);
    let id = connect_one_client(&mut endpoint);
    endpoint.send_payload_on(id, 0, b"first".to_vec()).unwrap();
    endpoint.send_payload_on(id, 0, b"second".to_vec()).unwrap();
    let conn = &mut endpoint.clients[0].connection;
    assert_eq!(conn.pop_outbound(0), Some(b"first".to_vec()));
    assert_eq!(conn.pop_outbound(0), Some(b"second".to_vec()));
    assert_eq!(conn.pop_outbound(0), None);
}

#[test]
fn broadcast_reaches_every_client() {
    let mut endpoint = endpoint_with_types(vec![ChannelType::OrderedReliable]);
    let id1 = connect_one_client(&mut endpoint);
    let id2 = connect_one_client(&mut endpoint);
    assert_ne!(id1, id2);

    endpoint.broadcast_payload_on(0, &b"hello".to_vec()).unwrap();
    for k in 0..2 {
        let conn = &mut endpoint.clients[k].connection;
        assert_eq!(conn.pop_outbound(0), Some(b"hello".to_vec()));
        assert_eq!(conn.pop_outbound(0), None);
    }
    endpoint.broadcast_payload(&b"again".to_vec()).unwrap();
    assert_eq!(
        endpoint.clients[0].connection.pop_outbound(0),
        Some(b"again".to_vec())
    );
}

#[test]
fn group_send_reaches_only_listed_clients() {
    let mut endpoint = endpoint_with_types(vec![ChannelType::OrderedReliable]);
    let id1 = connect_one_client(&mut endpoint);
    let id2 = connect_one_client(&mut endpoint);

    endpoint
        .send_group_message_on(&vec![id2], 0, String::from("only you"))
        .unwrap();
    assert_eq!(endpoint.clients[0].connection.pop_outbound(0), None);
    assert!(endpoint.clients[1].connection.pop_outbound(0).is_some());
    let _ = id1;
}

#[test]
fn default_channel_required() {
    let mut endpoint = Endpoint::new();
    let id = connect_one_client(&mut endpoint);
    assert_eq!(
        endpoint.send_payload(id, b"x".to_vec()),
        Err(QuintetError::NoDefaultChannel)
    );
    assert_eq!(
        endpoint.broadcast_payload(&b"x".to_vec()),
        Err(QuintetError::NoDefaultChannel)
    );
    endpoint.open_channel(ChannelType::OrderedReliable).unwrap();
    assert_eq!(endpoint.get_default_channel(), Some(0));
    endpoint.set_default_channel(0);
    endpoint.send_payload(id, b"x".to_vec()).unwrap();
}

#[test]
fn receive_from_torn_down_pipeline() {
    let mut endpoint = endpoint_with_types(vec![ChannelType::OrderedReliable]);
    let id = connect_one_client(&mut endpoint);
    endpoint.clients[0].connection.deliver_payload(0, b"left".to_vec()).unwrap();
    // the connection closes: queued payloads can still be read, then the
    // torn-down pipeline is reported
    endpoint.clients[0].connection.close().unwrap();
    assert_eq!(endpoint.receive_payload_from(id).unwrap(), Some((0, b"left".to_vec())));
    assert_eq!(
        endpoint.receive_payload_from(id),
        Err(QuintetError::InternalChannelClosed)
    );
    assert_eq!(
        endpoint.receive_payload_from(555),
        Err(QuintetError::UnknownClient(555))
    );
}

#[test]
fn server_lifecycle() {
    let mut server = QuintetServer::new();
    assert!(!server.is_listening());
    assert!(server.get_endpoint().is_none());
    assert_eq!(
        server.stop_endpoint(),
        Err(QuintetError::EndpointAlreadyClosed)
    );

    let config =
        ChannelsConfiguration::from_types(vec![ChannelType::OrderedReliable, ChannelType::Unreliable])
            .unwrap();
    server.start_endpoint(&config).unwrap();
    assert!(server.is_listening());
    assert!(server.get_endpoint().is_some());
    assert_eq!(server.endpoint().get_default_channel(), Some(0));

    assert_eq!(server.stop_endpoint(), Ok(()));
    assert!(!server.is_listening());
    assert_eq!(
        server.stop_endpoint(),
        Err(QuintetError::EndpointAlreadyClosed)
    );
}

#[test]
fn listening_transitions() {
    let mut was: bool = false;
    assert!(server_just_opened(&mut was, true));
    assert!(!server_just_opened(&mut was, true));
    assert!(!server_just_closed(&mut was, true));
    assert!(server_just_closed(&mut was, false));
    assert!(!server_just_closed(&mut was, false));
    assert!(server_just_opened(&mut was, true));
}

#[test]
fn provisioning_failure_discards_connection() {
    // A connection whose task spawner is already gone cannot be
    // provisioned: the drain discards it, emits no event and counts
    // nothing.
    let mut endpoint = endpoint_with_types(vec![ChannelType::OrderedReliable]);
    let mut broken = ClientConnection::new();
    broken.spawn_open = false;
    endpoint.announce_connection(broken).unwrap();
    let (connects, losts) = endpoint.update_sync();
    assert!(connects.is_empty());
    assert!(losts.is_empty());
    assert_eq!(endpoint.endpoint_stats().connect_count(), 0);
    assert!(endpoint.clients().is_empty());
}

#[test]
fn new_connection_gets_every_opened_channel() {
    // Channels opened on the endpoint are retroactively created on every
    // new connection, in id order.
    let mut endpoint = endpoint_with_types(vec![
        ChannelType::OrderedReliable,
        ChannelType::Unreliable,
    ]);
    let _ = connect_one_client(&mut endpoint);
    let conn = &mut endpoint.clients[0].connection;
    assert_eq!(
        conn.take_spawn_request(),
        Some((0, ChannelType::OrderedReliable))
    );
    assert_eq!(conn.take_spawn_request(), Some((1, ChannelType::Unreliable)));
    assert_eq!(conn.take_spawn_request(), None);
    // and a channel opened later reaches the existing connection too
    endpoint.open_channel(ChannelType::UnorderedReliable).unwrap();
    assert_eq!(
        endpoint.clients[0].connection.take_spawn_request(),
        Some((2, ChannelType::UnorderedReliable))
    );
}

#[test]
fn connection_close_flushes_every_channel() {
    // Closing a connection moves every channel's queued payloads to the
    // flush backlog, in channel order: they are sent before the close.
    let mut endpoint = endpoint_with_types(vec![
        ChannelType::OrderedReliable,
        ChannelType::UnorderedReliable,
    ]);
    let id = connect_one_client(&mut endpoint);
    endpoint.send_payload_on(id, 0, b"one".to_vec()).unwrap();
    endpoint.send_payload_on(id, 1, b"two".to_vec()).unwrap();
    endpoint.send_payload_on(id, 0, b"three".to_vec()).unwrap();

    let conn = &mut endpoint.clients[0].connection;
    conn.close().unwrap();
    assert_eq!(
        conn.flush_backlog,
        vec![(0, b"one".to_vec()), (0, b"three".to_vec()), (1, b"two".to_vec())]
    );
    assert_eq!(conn.close(), Err(QuintetError::ConnectionAlreadyClosed));
    assert_eq!(conn.pop_flush(), Some((0, b"one".to_vec())));
}

#[test]
fn client_ids_increase_and_are_never_reused() {
    let mut endpoint = endpoint_with_types(vec![ChannelType::OrderedReliable]);
    let id1 = connect_one_client(&mut endpoint);
    endpoint.disconnect_client(id1).unwrap();
    let id2 = connect_one_client(&mut endpoint);
    assert_eq!(id1, 1);
    assert_eq!(id2, 2);
    assert!(endpoint.clients() == vec![id2]);
}

#[test]
fn drain_handles_notifications_in_order() {
    let mut endpoint = endpoint_with_types(vec![ChannelType::OrderedReliable]);
    endpoint.announce_connection(ClientConnection::new()).unwrap();
    endpoint.announce_connection(ClientConnection::new()).unwrap();
    let (connects, losts) = endpoint.update_sync();
    assert_eq!(connects.len(), 2);
    assert_eq!(connects[0].id, 1);
    assert_eq!(connects[1].id, 2);
    assert!(losts.is_empty());

    // a closed notice and a new connection queued together are handled in
    // notification order
    endpoint.announce_connection_closed(1).unwrap();
    endpoint.announce_connection(ClientConnection::new()).unwrap();
    let (connects2, losts2) = endpoint.update_sync();
    assert_eq!(losts2.len(), 1);
    assert_eq!(losts2[0].id, 1);
    assert_eq!(connects2.len(), 1);
    assert_eq!(connects2[0].id, 3);
    assert_eq!(endpoint.clients(), vec![2, 3]);
    assert_eq!(endpoint.endpoint_stats().connect_count(), 3);
    assert_eq!(endpoint.endpoint_stats().disconnect_count(), 1);
}

#[test]
fn broadcast_requires_an_open_channel() {
    // Broadcasting on a channel id outside the endpoint's open set is
    // refused with UnknownChannel, even when no client is connected.
    let mut endpoint = Endpoint::new();
    assert_eq!(
        endpoint.broadcast_payload_on(5, &b"x".to_vec()),
        Err(QuintetError::UnknownChannel(5))
    );
    endpoint.open_channel(ChannelType::OrderedReliable).unwrap();
    let id = connect_one_client(&mut endpoint);
    assert_eq!(
        endpoint.broadcast_payload_on(9, &b"x".to_vec()),
        Err(QuintetError::UnknownChannel(9))
    );
    endpoint.broadcast_payload_on(0, &b"x".to_vec()).unwrap();
    let _ = id;
}

#[test]
fn try_variants_swallow_errors() {
    let mut endpoint = endpoint_with_types(vec![ChannelType::OrderedReliable]);
    // none of these may panic, whatever the failure
    endpoint.try_send_payload_on(12, 0, b"x".to_vec());
    endpoint.try_send_payload(12, b"x".to_vec());
    endpoint.try_broadcast_payload_on(9, &b"x".to_vec());
    endpoint.try_broadcast_payload(&b"x".to_vec());
    endpoint.try_send_message_on(12, 0, String::from("x"));
    endpoint.try_send_message(12, String::from("x"));
    endpoint.try_disconnect_client(12);
    assert_eq!(endpoint.try_receive_payload_from(12), None);
    let missing: Option<(u8, String)> = endpoint.try_receive_message_from(12);
    assert!(missing.is_none());
}
