use nym_transport::codec::{decode, encode};
use nym_transport::error::Error;
use nym_transport::message::{
    ConnectionId, ConnectionMessage, Message, PeerId, SubstreamId, SubstreamMessage,
    SubstreamMessageType, TransportMessage,
};

fn frame(kind: SubstreamMessageType) -> Message {
    Message::TransportMessage(TransportMessage {
        nonce: 0x0102030405060708,
        message: SubstreamMessage { substream_id: SubstreamId(0x1112131415161718), message_type: kind },
        id: ConnectionId(0x000102030405060708090a0b0c0d0e0f),
    })
}

fn id_bytes() -> Vec<u8> {
    (0u8..16).collect()
}

#[test]
fn request_has_the_documented_layout() {
    let msg = Message::ConnectionRequest(ConnectionMessage {
        peer_id: PeerId::from_bytes(vec![0xaa, 0xbb, 0xcc]),
        id: ConnectionId(0x000102030405060708090a0b0c0d0e0f),
    });
    let mut expected = vec![0x01, 0, 0, 0, 0, 0, 0, 0, 3, 0xaa, 0xbb, 0xcc];
    expected.extend(id_bytes());
    assert_eq!(encode(&msg), expected);
    assert_eq!(decode(&expected), Ok(msg));
}

#[test]
fn response_has_the_documented_layout() {
    let msg = Message::ConnectionResponse(ConnectionMessage {
        peer_id: PeerId::from_bytes(vec![]),
        id: ConnectionId(0x000102030405060708090a0b0c0d0e0f),
    });
    let mut expected = vec![0x02, 0, 0, 0, 0, 0, 0, 0, 0];
    expected.extend(id_bytes());
    assert_eq!(encode(&msg), expected);
    assert_eq!(decode(&expected), Ok(msg));
}

#[test]
fn transport_message_has_the_documented_layout() {
    let msg = frame(SubstreamMessageType::Data(vec![9, 8, 7]));
    let mut expected = vec![0x03];
    expected.extend(id_bytes());
    expected.extend([1, 2, 3, 4, 5, 6, 7, 8]);
    expected.extend([0x11, 0x12, 0x13, 0x14, 0x15, 0x16, 0x17, 0x18]);
    expected.extend([0x12, 0, 0, 0, 0, 0, 0, 0, 3, 9, 8, 7]);
    assert_eq!(encode(&msg), expected);
    assert_eq!(decode(&expected), Ok(msg));
}

#[test]
fn substream_kinds_have_their_tags() {
    assert_eq!(*encode(&frame(SubstreamMessageType::OpenRequest)).last().unwrap(), 0x10);
    assert_eq!(*encode(&frame(SubstreamMessageType::OpenResponse)).last().unwrap(), 0x11);
    assert_eq!(*encode(&frame(SubstreamMessageType::Close)).last().unwrap(), 0x13);
    assert_eq!(encode(&frame(SubstreamMessageType::Close)).len(), 34);
}

#[test]
fn round_trip_of_every_variant() {
    let msgs = vec![
        Message::ConnectionRequest(ConnectionMessage {
            peer_id: PeerId::from_bytes(vec![1; 38]),
            id: ConnectionId(u128::MAX),
        }),
        Message::ConnectionResponse(ConnectionMessage {
            peer_id: PeerId::from_bytes(vec![2; 38]),
            id: ConnectionId(0),
        }),
        frame(SubstreamMessageType::OpenRequest),
        frame(SubstreamMessageType::OpenResponse),
        frame(SubstreamMessageType::Close),
        frame(SubstreamMessageType::Data(vec![])),
        frame(SubstreamMessageType::Data(vec![0x5a; 65536])),
    ];
    for msg in msgs {
        assert_eq!(decode(&encode(&msg)), Ok(msg));
    }
}

#[test]
fn encoding_is_deterministic() {
    let a = encode(&frame(SubstreamMessageType::Data(vec![1, 2, 3])));
    let b = encode(&frame(SubstreamMessageType::Data(vec![1, 2, 3])));
    assert_eq!(a, b);
}

#[test]
fn unknown_tag_is_refused() {
    let mut bytes = encode(&frame(SubstreamMessageType::Close));
    bytes[0] = 0x04;
    assert_eq!(decode(&bytes), Err(Error::Codec));
    assert_eq!(decode(&[0x00]), Err(Error::Codec));
}

#[test]
fn unknown_kind_is_refused() {
    let mut bytes = encode(&frame(SubstreamMessageType::Close));
    bytes[33] = 0x14;
    assert_eq!(decode(&bytes), Err(Error::Codec));
}

#[test]
fn empty_and_short_input_is_refused() {
    assert_eq!(decode(&[]), Err(Error::Codec));
    let bytes = encode(&frame(SubstreamMessageType::Data(vec![1, 2, 3])));
    for n in 0..bytes.len() {
        assert_eq!(decode(&bytes[..n]), Err(Error::Codec));
    }
    let bytes = encode(&Message::ConnectionRequest(ConnectionMessage {
        peer_id: PeerId::from_bytes(vec![7; 5]),
        id: ConnectionId(1),
    }));
    for n in 0..bytes.len() {
        assert_eq!(decode(&bytes[..n]), Err(Error::Codec));
    }
}

#[test]
fn trailing_bytes_are_refused() {
    let mut bytes = encode(&frame(SubstreamMessageType::OpenRequest));
    bytes.push(0);
    assert_eq!(decode(&bytes), Err(Error::Codec));
    let mut bytes = encode(&frame(SubstreamMessageType::Data(vec![1])));
    bytes.push(0);
    assert_eq!(decode(&bytes), Err(Error::Codec));
}
