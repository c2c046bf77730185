//! Tests of the wire format, the typed message round trip, the identity
//! handshake, the channel configuration and the certificate decision.
use jeffy_quintet::certificate::{certificate_action, CertAction, CertificateRetrievalMode};
use jeffy_quintet::channels::{ChannelType, ChannelsConfiguration, MAX_CHANNEL_COUNT};
use jeffy_quintet::codec::{
    decode_datagram, decode_frames, encode_client_id, encode_datagram, encode_frame,
    read_client_id,
};
use jeffy_quintet::connection::ClientConnection;
use jeffy_quintet::endpoint::Endpoint;
use jeffy_quintet::errors::QuintetError;
use jeffy_quintet::handshake::{client_id_reception, ClientIdReception, QuintetConnectionError};

#[test]
fn frame_layout() {
    let frame = encode_frame(&b"abc".to_vec());
    assert_eq!(frame, vec![0, 0, 0, 3, b'a', b'b', b'c']);
    let empty = encode_frame(&Vec::new());
    assert_eq!(empty, vec![0, 0, 0, 0]);
}

#[test]
fn frame_stream_round_trip() {
    // Frames laid end to end on one ordered stream decode back to the
    // same payloads in the same order.
    let payloads: Vec<Vec<u8>> = vec![b"alpha".to_vec(), Vec::new(), b"g".to_vec()];
    let mut stream: Vec<u8> = Vec::new();
    for p in &payloads {
        stream.extend_from_slice(&encode_frame(p));
    }
    assert_eq!(decode_frames(&stream), Some(payloads));
    assert_eq!(decode_frames(&Vec::new()), Some(Vec::new()));
}

#[test]
fn frame_stream_rejects_truncation() {
    let mut stream = encode_frame(&b"abcd".to_vec());
    stream.pop();
    assert_eq!(decode_frames(&stream), None);
    // a bare prefix announcing more bytes than follow
    assert_eq!(decode_frames(&vec![0, 0, 0, 9, 1, 2]), None);
    // fewer bytes than one length prefix
    assert_eq!(decode_frames(&vec![0, 0, 1]), None);
}

#[test]
fn datagram_layout_round_trip() {
    let datagram = encode_datagram(7, &b"pay".to_vec());
    assert_eq!(datagram, vec![7, b'p', b'a', b'y']);
    assert_eq!(decode_datagram(&datagram), Some((7, b"pay".to_vec())));
    // a datagram below the minimum header size is refused
    assert_eq!(decode_datagram(&Vec::new()), None);
    assert_eq!(decode_datagram(&vec![3]), Some((3, Vec::new())));
}

#[test]
fn client_id_frame_round_trip() {
    let frame = encode_client_id(258);
    assert_eq!(frame, vec![0, 0, 0, 0, 0, 0, 1, 2]);
    assert_eq!(read_client_id(&frame), Some(258));
    assert_eq!(read_client_id(&vec![1, 2, 3]), None);
    let big = encode_client_id(u64::MAX);
    assert_eq!(read_client_id(&big), Some(u64::MAX));
}

#[test]
fn identity_reception() {
    assert_eq!(
        client_id_reception(None),
        ClientIdReception::Failed(QuintetConnectionError::ClientIdNotReceived)
    );
    assert_eq!(
        client_id_reception(Some(vec![0, 0, 0])),
        ClientIdReception::Failed(QuintetConnectionError::InvalidClientId)
    );
    assert_eq!(
        client_id_reception(Some(encode_client_id(41))),
        ClientIdReception::Retrieved(41)
    );
    // a longer frame is accepted and only the fixed-width prefix is read
    let mut frame = encode_client_id(9);
    frame.push(200);
    assert_eq!(client_id_reception(Some(frame)), ClientIdReception::Retrieved(9));
}

#[test]
fn message_round_trip() {
    // A typed message serialized through the send path deserializes back
    // to the same value on the receive path.
    let mut endpoint = Endpoint::new();
    endpoint.open_channel(ChannelType::OrderedReliable).unwrap();
    endpoint.announce_connection(ClientConnection::new()).unwrap();
    let (connects, _) = endpoint.update_sync();
    let id = connects[0].id;

    endpoint
        .send_message_on(id, 0, String::from("hello transport"))
        .unwrap();
    let bytes = endpoint.clients[0].connection.pop_outbound(0).unwrap();
    // route the bytes back as if a peer had sent the same message
    endpoint.clients[0].connection.deliver_payload(0, bytes).unwrap();
    let (channel, message): (u8, String) = endpoint.receive_message_from(id).unwrap().unwrap();
    assert_eq!(channel, 0);
    assert_eq!(message, "hello transport");
    assert_eq!(endpoint.receive_message_from::<String>(id).unwrap(), None);
}

#[test]
fn message_round_trip_tuple() {
    let mut endpoint = Endpoint::new();
    endpoint.open_channel(ChannelType::UnorderedReliable).unwrap();
    endpoint.announce_connection(ClientConnection::new()).unwrap();
    let (connects, _) = endpoint.update_sync();
    let id = connects[0].id;

    let value: (u32, String, Vec<u8>) = (77, String::from("mixed"), vec![1, 2, 3]);
    endpoint.send_message(id, value.clone()).unwrap();
    let bytes = endpoint.clients[0].connection.pop_outbound(0).unwrap();
    endpoint.clients[0].connection.deliver_payload(0, bytes).unwrap();
    let (_, back): (u8, (u32, String, Vec<u8>)) =
        endpoint.receive_message_from(id).unwrap().unwrap();
    assert_eq!(back, value);
}

#[test]
fn undeserializable_payload_reports_deserialization() {
    let mut endpoint = Endpoint::new();
    endpoint.open_channel(ChannelType::OrderedReliable).unwrap();
    endpoint.announce_connection(ClientConnection::new()).unwrap();
    let (connects, _) = endpoint.update_sync();
    let id = connects[0].id;

    // a length-prefixed string claiming far more bytes than follow
    endpoint.clients[0].connection.deliver_payload(0, vec![255, 0, 0, 0, b'x']).unwrap();
    let r: Result<Option<(u8, String)>, QuintetError> = endpoint.receive_message_from(id);
    assert_eq!(r, Err(QuintetError::Deserialization));
}

#[test]
fn channels_configuration_building() {
    let mut config = ChannelsConfiguration::new();
    assert!(config.configs().is_empty());
    assert_eq!(config.add(ChannelType::OrderedReliable), Some(0));
    assert_eq!(config.add(ChannelType::Unreliable), Some(1));
    assert_eq!(config.configs().len(), 2);
    assert!(matches!(config.configs()[1], ChannelType::Unreliable));

    let default_config = ChannelsConfiguration::default();
    assert_eq!(default_config.configs().len(), 1);
    assert!(matches!(default_config.configs()[0], ChannelType::OrderedReliable));
}

#[test]
fn channels_configuration_bounds() {
    let too_many = vec![ChannelType::Unreliable; MAX_CHANNEL_COUNT + 1];
    assert!(matches!(
        ChannelsConfiguration::from_types(too_many),
        Err(QuintetError::MaxChannelsCountReached)
    ));
    let full = vec![ChannelType::Unreliable; MAX_CHANNEL_COUNT];
    let mut config = ChannelsConfiguration::from_types(full).unwrap();
    assert_eq!(config.add(ChannelType::Unreliable), None);
}

#[test]
fn certificate_decisions() {
    let generate = certificate_action(
        CertificateRetrievalMode::GenerateSelfSigned {
            server_hostname: String::from("local"),
        },
        true,
        true,
    );
    assert!(matches!(
        generate,
        CertAction::Generate { ref server_hostname, save_files: None } if server_hostname == "local"
    ));

    let load = certificate_action(
        CertificateRetrievalMode::LoadFromFile {
            cert_file: String::from("c.pem"),
            key_file: String::from("k.pem"),
        },
        false,
        false,
    );
    assert!(matches!(
        load,
        CertAction::Load { ref cert_file, ref key_file } if cert_file == "c.pem" && key_file == "k.pem"
    ));

    let fallback_mode = |save| CertificateRetrievalMode::LoadFromFileOrGenerateSelfSigned {
        cert_file: String::from("c.pem"),
        key_file: String::from("k.pem"),
        save_on_disk: save,
        server_hostname: String::from("host"),
    };
    assert!(matches!(
        certificate_action(fallback_mode(true), true, true),
        CertAction::Load { .. }
    ));
    // one of the two files missing is enough to fall back to generating
    assert!(matches!(
        certificate_action(fallback_mode(false), true, false),
        CertAction::Generate { save_files: None, .. }
    ));
    assert!(matches!(
        certificate_action(fallback_mode(true), false, false),
        CertAction::Generate { save_files: Some(_), .. }
    ));
}

#[test]
fn error_messages_name_the_kind() {
    assert_eq!(QuintetError::FullQueue.message(), "queue is full");
    assert_eq!(QuintetError::UnknownClient(3).message(), "unknown client id");
    assert_eq!(QuintetError::UnknownChannel(3).message(), "unknown channel id");
    assert_eq!(QuintetError::Serialization.message(), "serialization failed");
    assert_eq!(QuintetError::Deserialization.message(), "deserialization failed");
}
