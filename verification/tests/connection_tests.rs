use nym_transport::address::Recipient;
use nym_transport::connection::{Connection, DEFAULT_MAX_DATA_FRAME_BYTES};
use nym_transport::error::Error;
use nym_transport::message::{
    AnonymousSenderTag, ConnectionId, Destination, Message, OutboundMessage, PeerId, SubstreamId,
    SubstreamMessage, SubstreamMessageType,
};
use nym_transport::substream::SubstreamState;

const ADDRESS: &str = "Hmer6Ndt3PV13YW53HM8ri4NvqqtfDQUQBhzvKqb1dag.2g478dyxtrQXGWc1Mk2VEqdPcWXpz7EhAcjhdAJtVZdA@AnnYnEtBjB2a5sHmeRCnBq43qxyHDf95Bqd7cwQyKNLR";

fn dialer() -> Connection {
    Connection::new_with_sender_tag(
        PeerId::from_bytes(vec![1]),
        Some(Recipient::from_str(ADDRESS).unwrap()),
        ConnectionId(10),
        Some(AnonymousSenderTag(3)),
    )
}

fn acceptor() -> Connection {
    Connection::new_with_sender_tag(
        PeerId::from_bytes(vec![2]),
        None,
        ConnectionId(10),
        Some(AnonymousSenderTag(4)),
    )
}

fn inner(out: &OutboundMessage) -> (u64, SubstreamMessage) {
    match &out.message {
        Message::TransportMessage(t) => {
            assert_eq!(t.id, ConnectionId(10));
            (t.nonce, t.message.clone())
        }
        _ => panic!("a connection only sends frames"),
    }
}

fn msg(id: u64, kind: SubstreamMessageType) -> SubstreamMessage {
    SubstreamMessage { substream_id: SubstreamId(id), message_type: kind }
}

#[test]
fn outbound_nonces_rise_by_one() {
    let mut c = acceptor();
    for expected in 0..5u64 {
        let out = c.write(msg(0, SubstreamMessageType::Close)).unwrap();
        assert_eq!(inner(&out).0, expected);
        assert_eq!(out.destination(), Ok(Destination::Reply(AnonymousSenderTag(4))));
    }
}

#[test]
fn substream_identifiers_do_not_collide() {
    let mut d = dialer();
    let mut a = acceptor();
    assert!(d.is_dialer());
    let ids: Vec<u64> = (0..3).map(|_| d.open_outbound().unwrap().0 .0).collect();
    assert_eq!(ids, vec![1, 3, 5]);
    let ids: Vec<u64> = (0..3).map(|_| a.open_outbound().unwrap().0 .0).collect();
    assert_eq!(ids, vec![0, 2, 4]);
}

#[test]
fn open_request_is_answered() {
    let mut d = dialer();
    let mut a = acceptor();
    let (id, open) = d.open_outbound().unwrap();
    assert_eq!(inner(&open), (0, msg(id.0, SubstreamMessageType::OpenRequest)));
    let answer = a.receive(inner(&open).1).unwrap().unwrap();
    assert_eq!(inner(&answer), (0, msg(id.0, SubstreamMessageType::OpenResponse)));
    assert_eq!(a.substream_state(id), Some(SubstreamState::Open));
    assert_eq!(d.receive(inner(&answer).1), Ok(None));
    assert_eq!(d.poll_outbound(), Some(id));
    assert_eq!(a.poll_inbound(), Some(id));
}

#[test]
fn protocol_violations_are_reported() {
    let mut a = acceptor();
    // data for a substream that does not exist
    assert_eq!(a.receive(msg(1, SubstreamMessageType::Data(vec![1]))), Err(Error::ProtocolViolation));
    // an answer to nothing
    assert_eq!(a.receive(msg(1, SubstreamMessageType::OpenResponse)), Err(Error::ProtocolViolation));
    // a close of nothing
    assert_eq!(a.receive(msg(1, SubstreamMessageType::Close)), Err(Error::ProtocolViolation));
    // a request under an identifier of this end
    assert_eq!(a.receive(msg(2, SubstreamMessageType::OpenRequest)), Err(Error::ProtocolViolation));
    // a request that comes twice
    assert!(a.receive(msg(1, SubstreamMessageType::OpenRequest)).is_ok());
    assert_eq!(a.receive(msg(1, SubstreamMessageType::OpenRequest)), Err(Error::ProtocolViolation));
    // data after the close
    assert_eq!(a.receive(msg(1, SubstreamMessageType::Close)), Ok(None));
    assert_eq!(a.receive(msg(1, SubstreamMessageType::Data(vec![1]))), Err(Error::ProtocolViolation));
    assert_eq!(a.substream_state(SubstreamId(1)), Some(SubstreamState::Closed));
}

#[test]
fn data_may_follow_the_open_request_at_once() {
    let mut d = dialer();
    let (id, _) = d.open_outbound().unwrap();
    assert_eq!(d.substream_state(id), Some(SubstreamState::HalfOpen));
    let frames = d.write_data(id, &vec![1, 2, 3]).unwrap();
    assert_eq!(frames.len(), 1);
    assert_eq!(inner(&frames[0]), (1, msg(id.0, SubstreamMessageType::Data(vec![1, 2, 3]))));
}

#[test]
fn writes_are_cut_into_frames() {
    assert_eq!(DEFAULT_MAX_DATA_FRAME_BYTES, 65536);
    let mut d = dialer().with_max_data_frame_bytes(4);
    let (id, _) = d.open_outbound().unwrap();
    let data: Vec<u8> = (0..10).collect();
    let frames = d.write_data(id, &data).unwrap();
    let got: Vec<(u64, SubstreamMessage)> = frames.iter().map(inner).collect();
    assert_eq!(
        got,
        vec![
            (1, msg(id.0, SubstreamMessageType::Data(vec![0, 1, 2, 3]))),
            (2, msg(id.0, SubstreamMessageType::Data(vec![4, 5, 6, 7]))),
            (3, msg(id.0, SubstreamMessageType::Data(vec![8, 9]))),
        ]
    );
    assert_eq!(d.write_data(id, &vec![]).unwrap().len(), 0);
    assert_eq!(d.write_data(id, &vec![7; 8]).unwrap().len(), 2);
    let big = dialer().open_and_write(vec![1; 65537]);
    assert_eq!(big, vec![65536, 1]);
}

trait OpenAndWrite {
    fn open_and_write(self, data: Vec<u8>) -> Vec<usize>;
}

impl OpenAndWrite for Connection {
    fn open_and_write(mut self, data: Vec<u8>) -> Vec<usize> {
        let (id, _) = self.open_outbound().unwrap();
        self.write_data(id, &data)
            .unwrap()
            .iter()
            .map(|f| match inner(f).1.message_type {
                SubstreamMessageType::Data(d) => d.len(),
                _ => panic!("expected data"),
            })
            .collect()
    }
}

#[test]
fn reads_return_what_was_written_in_order() {
    let mut d = dialer().with_max_data_frame_bytes(3);
    let mut a = acceptor();
    let (id, open) = d.open_outbound().unwrap();
    a.receive(inner(&open).1).unwrap();
    for part in [b"hello ".to_vec(), b"world".to_vec()] {
        for f in d.write_data(id, &part).unwrap() {
            assert_eq!(a.receive(inner(&f).1), Ok(None));
        }
    }
    // a partial read is allowed
    assert_eq!(a.read(id, 4), Ok(b"hell".to_vec()));
    assert_eq!(a.read(id, 0), Ok(vec![]));
    assert_eq!(a.read(id, 100), Ok(b"o world".to_vec()));
    assert_eq!(a.read(id, 100), Ok(vec![]));
    assert_eq!(a.read(SubstreamId(99), 1), Err(Error::SubstreamClosed));
}

#[test]
fn bytes_before_a_close_can_still_be_read() {
    let mut a = acceptor();
    a.receive(msg(1, SubstreamMessageType::OpenRequest)).unwrap();
    a.receive(msg(1, SubstreamMessageType::Data(b"bye".to_vec()))).unwrap();
    a.receive(msg(1, SubstreamMessageType::Close)).unwrap();
    assert_eq!(a.write_data(SubstreamId(1), &vec![1]), Err(Error::SubstreamClosed));
    assert!(!a.is_at_end(SubstreamId(1)));
    assert_eq!(a.read(SubstreamId(1), 10), Ok(b"bye".to_vec()));
    assert!(a.is_at_end(SubstreamId(1)));
    assert_eq!(a.read(SubstreamId(1), 10), Ok(vec![]));
    assert!(!a.is_at_end(SubstreamId(2)));
}

#[test]
fn close_is_one_shot() {
    let mut d = dialer();
    let (id, _) = d.open_outbound().unwrap();
    let close = d.close_substream(id).unwrap();
    assert_eq!(inner(&close), (1, msg(id.0, SubstreamMessageType::Close)));
    assert_eq!(d.close_substream(id).err(), Some(Error::SubstreamClosed));
    assert_eq!(d.write_data(id, &vec![1]), Err(Error::SubstreamClosed));
    assert_eq!(d.close_substream(SubstreamId(40)).err(), Some(Error::SubstreamClosed));
}

#[test]
fn close_all_closes_what_is_live() {
    let mut d = dialer();
    let (first, _) = d.open_outbound().unwrap();
    let (second, _) = d.open_outbound().unwrap();
    assert_eq!(d.receive(msg(4, SubstreamMessageType::OpenRequest)).unwrap().is_some(), true);
    d.close_substream(second).unwrap();
    // nonces 0 and 1 opened, 2 answered the peer, 3 closed the second substream
    let frames: Vec<(u64, SubstreamMessage)> = d.close_all().iter().map(inner).collect();
    assert_eq!(
        frames,
        vec![
            (4, msg(first.0, SubstreamMessageType::Close)),
            (5, msg(4, SubstreamMessageType::Close)),
        ]
    );
    for id in [first, second, SubstreamId(4)] {
        assert_eq!(d.substream_state(id), Some(SubstreamState::Closed));
        assert!(d.is_at_end(id));
    }
    assert_eq!(d.close_all().len(), 0);
}
