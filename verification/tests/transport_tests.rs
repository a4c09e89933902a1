use nym_transport::address::{nym_address_to_multiaddress, Multiaddr, Recipient};
use nym_transport::codec::{decode, encode};
use nym_transport::connection::Connection;
use nym_transport::error::Error;
use nym_transport::message::{
    AnonymousSenderTag, ConnectionId, ConnectionMessage, Destination, InboundMessage, Message,
    OutboundMessage, PeerId, SubstreamId, SubstreamMessage, SubstreamMessageType, TransportMessage,
};
use nym_transport::substream::SubstreamState;
use nym_transport::transport::{
    ConnectionState, InboundTransportEvent, ListenerId, NymTransport, TransportEvent,
    DEFAULT_HANDSHAKE_TIMEOUT_SECS,
};

const ADDRESS: &str = "Hmer6Ndt3PV13YW53HM8ri4NvqqtfDQUQBhzvKqb1dag.2g478dyxtrQXGWc1Mk2VEqdPcWXpz7EhAcjhdAJtVZdA@AnnYnEtBjB2a5sHmeRCnBq43qxyHDf95Bqd7cwQyKNLR";

const DIALER_TAG: AnonymousSenderTag = AnonymousSenderTag(0xd1a1);
const LISTENER_TAG: AnonymousSenderTag = AnonymousSenderTag(0x1157);

fn recipient() -> Recipient {
    Recipient::from_str(ADDRESS).unwrap()
}

fn transport(listener: u64, peer: u8) -> NymTransport {
    NymTransport::new(recipient(), PeerId::from_bytes(vec![peer; 4]), ListenerId(listener))
}

/// Carries an envelope over the wire: it arrives as bytes, with a reply tag for the sender.
fn carry(out: &OutboundMessage, to: &mut NymTransport, tag: AnonymousSenderTag) {
    assert!(out.destination().is_ok());
    let msg = decode(&encode(&out.message)).unwrap();
    to.receive(InboundMessage(msg, Some(tag)));
}

fn carry_all(from: &mut NymTransport, to: &mut NymTransport, tag: AnonymousSenderTag) -> usize {
    let outs = from.take_outbound();
    for out in &outs {
        carry(out, to, tag);
    }
    outs.len()
}

/// Polls the transport and hands what arrived for the connection to it.
fn pump(t: &mut NymTransport, conn: &mut Connection) -> Vec<OutboundMessage> {
    assert!(t.poll().is_none());
    let mut answers = Vec::new();
    for msg in t.take_inbound(conn.id()).unwrap() {
        if let Some(out) = conn.receive(msg).unwrap() {
            answers.push(out);
        }
    }
    answers
}

fn assert_new_address_event(t: &mut NymTransport) {
    match t.poll() {
        Some(TransportEvent::NewAddress { listener_id, listen_addr }) => {
            assert_eq!(listener_id, t.listener_id());
            assert_eq!(listen_addr, t.listen_addr());
        }
        _ => panic!("expected TransportEvent::NewAddress"),
    }
}

fn expect_incoming(t: &mut NymTransport) -> (PeerId, Connection) {
    match t.poll() {
        Some(TransportEvent::Incoming { listener_id, mut upgrade, local_addr, send_back_addr }) => {
            assert_eq!(listener_id, t.listener_id());
            assert_eq!(local_addr, t.listen_addr());
            assert_eq!(send_back_addr, t.listen_addr());
            let pair = upgrade.poll().ok().expect("the upgrade should be ready");
            assert_eq!(upgrade.poll().err(), Some(Error::RecvFailure));
            pair
        }
        _ => panic!("expected TransportEvent::Incoming"),
    }
}

/// Runs the handshake between a dialer and a listener.
fn connect(dialer: &mut NymTransport, listener: &mut NymTransport) -> (Connection, Connection) {
    let dial = dialer.dial(&listener.listen_addr()).unwrap();
    assert!(dialer.is_pending(dial.id));
    assert_eq!(dial.request.destination(), Ok(Destination::Direct(recipient())));
    carry(&dial.request, listener, LISTENER_TAG);
    let (claimed, listener_conn) = expect_incoming(listener);
    assert_eq!(carry_all(listener, dialer, DIALER_TAG), 1);
    assert!(dialer.poll().is_none());
    let (answered, dialer_conn) = dialer.take_dialed(dial.id).expect("the dial should be ready");
    assert!(dialer.take_dialed(dial.id).is_none());
    assert!(!dialer.is_pending(dial.id));
    assert_eq!(dialer_conn.id(), dial.id);
    assert_eq!(listener_conn.id(), dial.id);
    assert_eq!(listener_conn.peer_id(), claimed);
    assert_eq!(dialer_conn.peer_id(), answered);
    assert_eq!(answered, listener.peer_id());
    match &dial.request.message {
        Message::ConnectionRequest(m) => assert_eq!(m.peer_id, claimed),
        _ => panic!("a dial starts with a request"),
    }
    (dialer_conn, listener_conn)
}

fn send_and_receive_substream_message(
    data: Vec<u8>,
    sender_conn: &mut Connection,
    substream: SubstreamId,
    recipient_transport: &mut NymTransport,
    recipient_conn: &mut Connection,
    tag: AnonymousSenderTag,
) {
    let frames = sender_conn.write_data(substream, &data).unwrap();
    for f in &frames {
        carry(f, recipient_transport, tag);
    }
    assert!(pump(recipient_transport, recipient_conn).is_empty());
    let buf = recipient_conn.read(substream, data.len()).unwrap();
    assert_eq!(buf.len(), data.len());
    assert_eq!(buf, data);
}

#[test]
fn test_transport_substream() {
    let mut dialer_transport = transport(1, 0xd);
    let mut listener_transport = transport(2, 0xa);
    assert_new_address_event(&mut dialer_transport);
    assert_new_address_event(&mut listener_transport);

    let (mut dialer_conn, mut listener_conn) = connect(&mut dialer_transport, &mut listener_transport);

    // initiate a new substream from the dialer
    let (substream, open) = dialer_conn.open_outbound().unwrap();
    assert_eq!(dialer_conn.substream_state(substream), Some(SubstreamState::HalfOpen));
    carry(&open, &mut listener_transport, LISTENER_TAG);

    // accept the substream on the listener; this sends a response to the dialer
    let answers = pump(&mut listener_transport, &mut listener_conn);
    assert_eq!(answers.len(), 1);
    assert_eq!(answers[0].destination(), Ok(Destination::Reply(LISTENER_TAG)));
    assert_eq!(listener_conn.poll_inbound(), Some(substream));
    assert_eq!(listener_conn.poll_inbound(), None);
    carry(&answers[0], &mut dialer_transport, DIALER_TAG);

    // the dialer finalizes the substream
    assert_eq!(dialer_conn.poll_outbound(), None);
    assert!(pump(&mut dialer_transport, &mut dialer_conn).is_empty());
    assert_eq!(dialer_conn.poll_outbound(), Some(substream));
    assert_eq!(dialer_conn.substream_state(substream), Some(SubstreamState::Open));

    send_and_receive_substream_message(
        b"hello world".to_vec(),
        &mut dialer_conn,
        substream,
        &mut listener_transport,
        &mut listener_conn,
        LISTENER_TAG,
    );
    send_and_receive_substream_message(
        b"hello back".to_vec(),
        &mut listener_conn,
        substream,
        &mut dialer_transport,
        &mut dialer_conn,
        DIALER_TAG,
    );

    // close the substream from the dialer side
    let close = dialer_conn.close_substream(substream).unwrap();
    carry(&close, &mut listener_transport, LISTENER_TAG);

    // neither side can write any more
    assert_eq!(dialer_conn.write_data(substream, &b"hello".to_vec()), Err(Error::SubstreamClosed));
    assert!(pump(&mut listener_transport, &mut listener_conn).is_empty());
    assert_eq!(listener_conn.write_data(substream, &b"hello".to_vec()), Err(Error::SubstreamClosed));
    // reading finds the end of the stream
    assert!(dialer_conn.is_at_end(substream));
    assert!(listener_conn.is_at_end(substream));
    assert_eq!(dialer_conn.read(substream, 5), Ok(vec![]));
    assert_eq!(listener_conn.read(substream, 5), Ok(vec![]));
    // a substream is closed once
    assert_eq!(dialer_conn.close_substream(substream).err(), Some(Error::SubstreamClosed));
    assert_eq!(listener_conn.close_substream(substream).err(), Some(Error::SubstreamClosed));
}

#[test]
fn test_transport_timeout() {
    let mut dialer_transport = transport(1, 0xd).with_timeout(100);
    assert_new_address_event(&mut dialer_transport);

    // an address that nobody answers on
    let empty_addr = Multiaddr::from_text(&format!("/nym/{}", ADDRESS));
    let dial = dialer_transport.dial(&empty_addr).unwrap();
    assert_eq!(dial.handshake_timeout_ms, 100);
    assert!(dialer_transport.poll().is_none());
    assert!(dialer_transport.take_dialed(dial.id).is_none());

    let err = dialer_transport.expire_dial(dial.id).err().expect("should have timed out");
    assert_eq!(err, Error::DialTimeout);
    assert!(err.message().contains("dial timed out"));
    assert!(!dialer_transport.is_pending(dial.id));

    // a response that comes late finds no dial, and the transport goes on
    let late = ConnectionMessage { peer_id: PeerId::from_bytes(vec![1]), id: dial.id };
    dialer_transport.receive(InboundMessage(Message::ConnectionResponse(late), None));
    match dialer_transport.poll() {
        Some(TransportEvent::ListenerError { listener_id, error }) => {
            assert_eq!(listener_id, dialer_transport.listener_id());
            assert_eq!(error, Error::NoConnectionForResponse);
        }
        _ => panic!("expected TransportEvent::ListenerError"),
    }
    assert!(dialer_transport.dial(&empty_addr).is_ok());
}

#[test]
fn new_peer_id_per_conn() {
    let mut dialer_transport = transport(1, 0xd);
    let mut listener_transport = transport(2, 0xa);
    assert_new_address_event(&mut dialer_transport);
    assert_new_address_event(&mut listener_transport);

    let (dialer_conn, listener_conn) = connect(&mut dialer_transport, &mut listener_transport);
    let conn1_listener_peer_id = listener_conn.peer_id();
    let conn1_id = dialer_conn.id();

    for t in [&mut dialer_transport, &mut listener_transport] {
        let id = t.listener_id();
        assert!(t.remove_listener(id));
        match t.poll() {
            Some(TransportEvent::ListenerClosed { reason: Ok(()), listener_id }) => {
                assert_eq!(listener_id, id)
            }
            _ => panic!("listener not removed, something went wrong"),
        }
    }

    // make another conn between the same peers
    let (dialer_conn, listener_conn) = connect(&mut dialer_transport, &mut listener_transport);
    let conn2_listener_peer_id = listener_conn.peer_id();

    // the dialer presents a fresh identifier with every dial
    assert_ne!(conn1_listener_peer_id, conn2_listener_peer_id);
    assert_ne!(conn1_id, dialer_conn.id());
    assert!(listener_transport.is_connected(conn1_id));
    assert!(listener_transport.is_connected(dialer_conn.id()));
}

fn data_frame(id: ConnectionId, nonce: u64, payload: &[u8]) -> InboundMessage {
    InboundMessage(
        Message::TransportMessage(TransportMessage {
            nonce,
            message: SubstreamMessage {
                substream_id: SubstreamId(1),
                message_type: SubstreamMessageType::Data(payload.to_vec()),
            },
            id,
        }),
        None,
    )
}

fn payloads(msgs: Vec<SubstreamMessage>) -> Vec<Vec<u8>> {
    msgs.into_iter()
        .map(|m| match m.message_type {
            SubstreamMessageType::Data(d) => d,
            _ => panic!("expected data"),
        })
        .collect()
}

fn accept(t: &mut NymTransport, id: ConnectionId) -> Connection {
    let request = ConnectionMessage { peer_id: PeerId::from_bytes(vec![9]), id };
    t.receive(InboundMessage(Message::ConnectionRequest(request), Some(LISTENER_TAG)));
    let (_, conn) = expect_incoming(t);
    conn
}

#[test]
fn payload_before_response_waits_for_the_handshake() {
    let mut t1 = transport(1, 0xd);
    assert_new_address_event(&mut t1);
    let id = ConnectionId(42);
    let addr = nym_address_to_multiaddress(&recipient());
    let dial = t1.dial_with(&addr, id, PeerId::from_bytes(vec![1, 2, 3])).unwrap();
    assert_eq!(dial.id, id);

    t1.receive(data_frame(id, 0, b"A"));
    assert!(t1.poll().is_none());
    assert!(!t1.is_connected(id));
    assert_eq!(t1.queued(id), 1);
    assert!(t1.take_inbound(id).is_none());

    let response = ConnectionMessage { peer_id: PeerId::from_bytes(vec![7]), id };
    t1.receive(InboundMessage(Message::ConnectionResponse(response), Some(DIALER_TAG)));
    t1.receive(data_frame(id, 1, b"B"));
    assert!(t1.poll().is_none());
    assert!(t1.is_connected(id));
    assert_eq!(payloads(t1.take_inbound(id).unwrap()), vec![b"A".to_vec(), b"B".to_vec()]);

    let (peer, mut conn) = t1.take_dialed(id).unwrap();
    assert_eq!(peer, PeerId::from_bytes(vec![7]));
    // the dialer sends to the address it dialed, never along the tag
    let out = conn.write(SubstreamMessage {
        substream_id: SubstreamId(1),
        message_type: SubstreamMessageType::OpenRequest,
    });
    assert_eq!(out.unwrap().destination(), Ok(Destination::Direct(recipient())));
}

#[test]
fn out_of_order_frames_are_delivered_in_order() {
    let mut t = transport(1, 0xa);
    assert_new_address_event(&mut t);
    let id = ConnectionId(5);
    let _conn = accept(&mut t, id);
    for nonce in [2u64, 0, 1] {
        t.receive(data_frame(id, nonce, &[nonce as u8]));
    }
    assert!(t.poll().is_none());
    assert_eq!(payloads(t.take_inbound(id).unwrap()), vec![vec![0], vec![1], vec![2]]);
    assert_eq!(t.queued(id), 0);
    // nothing is delivered twice
    assert_eq!(t.take_inbound(id).unwrap().len(), 0);
    t.receive(data_frame(id, 3, &[3]));
    assert!(t.poll().is_none());
    assert_eq!(payloads(t.take_inbound(id).unwrap()), vec![vec![3]]);
}

#[test]
fn queue_overflow_closes_only_that_connection() {
    let mut t = transport(1, 0xa).with_max_queued(4);
    assert_new_address_event(&mut t);
    let doomed = ConnectionId(1);
    let healthy = ConnectionId(2);
    let _c1 = accept(&mut t, doomed);
    let _c2 = accept(&mut t, healthy);

    for nonce in 1..5u64 {
        t.receive(data_frame(doomed, nonce, &[nonce as u8]));
    }
    assert!(t.poll().is_none());
    assert_eq!(t.queued(doomed), 4);
    t.receive(data_frame(doomed, 5, &[5]));
    t.receive(data_frame(healthy, 0, b"still here"));
    match t.poll() {
        Some(TransportEvent::ListenerError { error, .. }) => assert_eq!(error, Error::QueueOverflow),
        _ => panic!("expected TransportEvent::ListenerError"),
    }
    assert!(!t.is_connected(doomed));
    assert_eq!(t.queued(doomed), 0);
    assert!(t.take_inbound(doomed).is_none());

    assert!(t.is_connected(healthy));
    assert!(t.poll().is_none());
    assert_eq!(payloads(t.take_inbound(healthy).unwrap()), vec![b"still here".to_vec()]);
}

#[test]
fn duplicate_request_is_an_error() {
    let mut t = transport(1, 0xa);
    assert_new_address_event(&mut t);
    let id = ConnectionId(3);
    let _conn = accept(&mut t, id);
    assert_eq!(t.take_outbound().len(), 1);
    let request = ConnectionMessage { peer_id: PeerId::from_bytes(vec![9]), id };
    let r = t.handle_inbound(Message::ConnectionRequest(request), Some(LISTENER_TAG));
    assert_eq!(r.err(), Some(Error::ConnectionIDExists));
    assert_eq!(t.take_outbound().len(), 0);
}

#[test]
fn response_for_an_established_connection_is_an_error() {
    let mut t = transport(1, 0xa);
    let id = ConnectionId(3);
    let _conn = accept_after_address(&mut t, id);
    let response = ConnectionMessage { peer_id: PeerId::from_bytes(vec![9]), id };
    assert_eq!(t.handle_connection_response(&response, None), Err(Error::ConnectionAlreadyEstablished));
    let unknown = ConnectionMessage { peer_id: PeerId::from_bytes(vec![9]), id: ConnectionId(4) };
    assert_eq!(t.handle_connection_response(&unknown, None), Err(Error::NoConnectionForResponse));
}

fn accept_after_address(t: &mut NymTransport, id: ConnectionId) -> Connection {
    assert_new_address_event(t);
    accept(t, id)
}

#[test]
fn request_is_answered_along_the_reply_tag() {
    let mut t = transport(1, 0xa);
    let id = ConnectionId(77);
    let conn = accept_after_address(&mut t, id);
    assert_eq!(conn.peer_id(), PeerId::from_bytes(vec![9]));
    assert!(!conn.is_dialer());
    let out = t.take_outbound();
    assert_eq!(out.len(), 1);
    assert_eq!(
        out[0],
        OutboundMessage {
            message: Message::ConnectionResponse(ConnectionMessage { peer_id: t.peer_id(), id }),
            recipient: None,
            sender_tag: Some(LISTENER_TAG),
        }
    );
    assert_eq!(out[0].destination(), Ok(Destination::Reply(LISTENER_TAG)));
}

#[test]
fn handle_inbound_tells_what_arrived() {
    let mut t = transport(1, 0xa);
    let id = ConnectionId(8);
    let request = ConnectionMessage { peer_id: PeerId::from_bytes(vec![9]), id };
    match t.handle_inbound(Message::ConnectionRequest(request), None) {
        Ok(InboundTransportEvent::ConnectionRequest(mut upgrade)) => {
            assert!(upgrade.poll().is_ok());
        }
        _ => panic!("expected a connection request"),
    }
    let InboundMessage(frame, tag) = data_frame(id, 0, b"x");
    assert!(matches!(t.handle_inbound(frame, tag), Ok(InboundTransportEvent::TransportMessage)));
    let addr = nym_address_to_multiaddress(&recipient());
    t.dial_with(&addr, ConnectionId(9), PeerId::from_bytes(vec![1])).unwrap();
    let response = ConnectionMessage { peer_id: PeerId::from_bytes(vec![2]), id: ConnectionId(9) };
    assert!(matches!(
        t.handle_inbound(Message::ConnectionResponse(response), None),
        Ok(InboundTransportEvent::ConnectionResponse)
    ));
}

#[test]
fn listener_is_implicit() {
    let mut t = transport(5, 0xa);
    assert_eq!(t.listen_addr().as_str(), format!("/nym/{}", ADDRESS));
    assert_eq!(t.handshake_timeout_ms(), 60_000);
    assert_eq!(DEFAULT_HANDSHAKE_TIMEOUT_SECS, 60);
    assert_eq!(t.listen_on(ListenerId(9), Multiaddr::from_text("/nym/x")), Ok(()));
    assert_new_address_event(&mut t);
    assert!(t.poll().is_none());
    assert!(!t.remove_listener(ListenerId(6)));
    assert!(t.poll().is_none());
    assert!(t.remove_listener(ListenerId(5)));
    assert!(matches!(
        t.poll(),
        Some(TransportEvent::ListenerClosed { listener_id: ListenerId(5), reason: Ok(()) })
    ));
}

#[test]
fn dial_refuses_a_malformed_address() {
    let mut t = NymTransport::new_with_timeout(recipient(), PeerId::from_bytes(vec![1]), ListenerId(1), 90_000);
    assert_eq!(t.handshake_timeout_ms(), 90_000);
    let r = t.dial(&Multiaddr::from_text("/ip4/127.0.0.1/tcp/80"));
    assert_eq!(r.err(), Some(Error::InvalidProtocolForMultiaddr));
    let r = t.dial(&Multiaddr::from_text("/nym/nobody"));
    assert_eq!(r.err(), Some(Error::InvalidRecipientBytes));
    assert_eq!(t.take_outbound().len(), 0);
}

#[test]
fn every_dial_mints_a_fresh_identifier() {
    let mut t = transport(1, 0xd);
    let addr = nym_address_to_multiaddress(&recipient());
    let a = t.dial(&addr).unwrap();
    let b = t.dial(&addr).unwrap();
    assert_ne!(a.id, b.id);
    assert_ne!(a.request.message, b.request.message);
    assert!(t.is_pending(a.id) && t.is_pending(b.id));
}

#[test]
fn envelope_must_name_exactly_one_destination() {
    let message = Message::ConnectionResponse(ConnectionMessage {
        peer_id: PeerId::from_bytes(vec![1]),
        id: ConnectionId(1),
    });
    let neither = OutboundMessage { message: message.clone(), recipient: None, sender_tag: None };
    assert_eq!(neither.destination(), Err(Error::InvalidAddressing));
    let both = OutboundMessage {
        message,
        recipient: Some(recipient()),
        sender_tag: Some(DIALER_TAG),
    };
    assert_eq!(both.destination(), Err(Error::InvalidAddressing));
}

#[test]
fn bytes_that_are_no_envelope_are_reported_once() {
    let mut t = transport(1, 0xa);
    assert_new_address_event(&mut t);
    assert_eq!(t.receive_datagram(&[0xff, 1, 2], None), Err(Error::Codec));
    match t.poll() {
        Some(TransportEvent::ListenerError { listener_id, error }) => {
            assert_eq!(listener_id, ListenerId(1));
            assert_eq!(error, Error::Codec);
        }
        _ => panic!("expected TransportEvent::ListenerError"),
    }
    assert!(t.poll().is_none());
    // the transport goes on
    let request = Message::ConnectionRequest(ConnectionMessage {
        peer_id: PeerId::from_bytes(vec![9]),
        id: ConnectionId(1),
    });
    assert_eq!(t.receive_datagram(&encode(&request), Some(LISTENER_TAG)), Ok(()));
    let (peer, conn) = expect_incoming(&mut t);
    assert_eq!(peer, PeerId::from_bytes(vec![9]));
    assert_eq!(conn.id(), ConnectionId(1));
}

#[test]
fn closing_a_connection_drops_its_queue() {
    let mut t = transport(1, 0xa);
    assert_new_address_event(&mut t);
    let id = ConnectionId(1);
    let _conn = accept(&mut t, id);
    t.receive(data_frame(id, 3, b"late"));
    assert!(t.poll().is_none());
    assert_eq!(t.queued(id), 1);
    assert!(t.close_connection(id));
    assert!(!t.close_connection(id));
    assert!(!t.is_connected(id));
    assert_eq!(t.queued(id), 0);
    // the identifier can be used again
    let _conn = accept(&mut t, id);
    assert!(t.is_connected(id));
}

#[test]
fn a_queue_without_a_connection_cannot_release() {
    let mut t = transport(1, 0xa);
    let id = ConnectionId(5);
    assert_eq!(
        t.handle_message_queue_on_connection_initiation(&id),
        Err(Error::NoConnectionForTransportMessage)
    );
    assert_eq!(t.queued(id), 0);
    let _conn = accept_after_address(&mut t, id);
    assert_eq!(t.handle_message_queue_on_connection_initiation(&id), Ok(()));
}

#[test]
fn create_connection_types_makes_a_fresh_connection() {
    let t = transport(1, 0xa);
    let (mut conn, _channel) = t.create_connection_types(
        PeerId::from_bytes(vec![5, 6]),
        Some(recipient()),
        ConnectionId(11),
        None,
    );
    assert_eq!(conn.peer_id(), PeerId::from_bytes(vec![5, 6]));
    assert_eq!(conn.id(), ConnectionId(11));
    assert!(conn.is_dialer());
    assert_eq!(conn.poll_inbound(), None);
    assert_eq!(conn.substream_state(SubstreamId(1)), None);
}

#[test]
fn life_of_a_connection() {
    let mut t = transport(1, 0xd);
    assert_new_address_event(&mut t);
    let addr = nym_address_to_multiaddress(&recipient());
    let id = ConnectionId(1);
    assert_eq!(t.connection_state(id), ConnectionState::Closed);
    t.dial_with(&addr, id, PeerId::from_bytes(vec![1])).unwrap();
    assert_eq!(t.connection_state(id), ConnectionState::PendingOutbound);
    let response = ConnectionMessage { peer_id: PeerId::from_bytes(vec![2]), id };
    assert_eq!(t.handle_connection_response(&response, None), Ok(()));
    assert_eq!(t.connection_state(id), ConnectionState::Established);
    assert!(t.close_connection(id));
    assert_eq!(t.connection_state(id), ConnectionState::Closed);

    let timed_out = ConnectionId(2);
    t.dial_with(&addr, timed_out, PeerId::from_bytes(vec![1])).unwrap();
    assert_eq!(t.expire_dial(timed_out).err(), Some(Error::DialTimeout));
    assert_eq!(t.connection_state(timed_out), ConnectionState::Closed);
}
