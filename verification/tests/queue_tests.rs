use nym_transport::error::Error;
use nym_transport::message::{
    ConnectionId, SubstreamId, SubstreamMessage, SubstreamMessageType, TransportMessage,
};
use nym_transport::queue::{MessageQueue, DEFAULT_MAX_QUEUED};

fn frame(nonce: u64) -> TransportMessage {
    TransportMessage {
        nonce,
        message: SubstreamMessage {
            substream_id: SubstreamId(1),
            message_type: SubstreamMessageType::Data(vec![nonce as u8]),
        },
        id: ConnectionId(7),
    }
}

#[test]
fn default_cap_is_1024() {
    assert_eq!(DEFAULT_MAX_QUEUED, 1024);
    let q = MessageQueue::new();
    assert_eq!(q.len(), 0);
    assert!(!q.is_active());
    assert_eq!(q.next_expected(), Some(0));
}

#[test]
fn armed_queue_holds_even_the_first_nonce() {
    let mut q = MessageQueue::new();
    assert_eq!(q.try_push(frame(0)), Ok(None));
    assert_eq!(q.try_push(frame(1)), Ok(None));
    assert_eq!(q.pop(), None);
    assert_eq!(q.nonces(), vec![0, 1]);
    q.set_connection_message_received();
    assert_eq!(q.pop(), Some(frame(0)));
    assert_eq!(q.pop(), Some(frame(1)));
    assert_eq!(q.pop(), None);
    assert_eq!(q.next_expected(), Some(2));
}

#[test]
fn expected_nonce_is_released_at_once() {
    let mut q = MessageQueue::new();
    q.set_connection_message_received();
    assert_eq!(q.try_push(frame(0)), Ok(Some(frame(0))));
    assert_eq!(q.len(), 0);
    assert_eq!(q.next_expected(), Some(1));
}

#[test]
fn frames_leave_in_nonce_order() {
    let mut q = MessageQueue::new();
    q.set_connection_message_received();
    assert_eq!(q.try_push(frame(2)), Ok(None));
    assert_eq!(q.pop(), None);
    assert_eq!(q.try_push(frame(0)), Ok(Some(frame(0))));
    assert_eq!(q.pop(), None);
    assert_eq!(q.try_push(frame(1)), Ok(Some(frame(1))));
    assert_eq!(q.pop(), Some(frame(2)));
    assert_eq!(q.pop(), None);
    assert_eq!(q.next_expected(), Some(3));
}

#[test]
fn drain_takes_the_consecutive_run() {
    let mut q = MessageQueue::new();
    for n in [3u64, 1, 0, 5, 2] {
        assert_eq!(q.try_push(frame(n)), Ok(None));
    }
    assert_eq!(q.nonces(), vec![0, 1, 2, 3, 5]);
    q.set_connection_message_received();
    assert_eq!(q.drain(), vec![frame(0), frame(1), frame(2), frame(3)]);
    assert_eq!(q.nonces(), vec![5]);
    assert_eq!(q.next_expected(), Some(4));
}

#[test]
fn a_nonce_is_held_once() {
    let mut q = MessageQueue::new();
    let mut other = frame(4);
    other.message.message_type = SubstreamMessageType::Close;
    assert_eq!(q.try_push(frame(4)), Ok(None));
    assert_eq!(q.try_push(other), Ok(None));
    assert_eq!(q.len(), 1);
    q.set_connection_message_received();
    for n in 0..4 {
        assert_eq!(q.try_push(frame(n)), Ok(Some(frame(n))));
    }
    assert_eq!(q.pop(), Some(frame(4)));
}

#[test]
fn overflow_is_reported_and_changes_nothing() {
    let mut q = MessageQueue::with_capacity(4);
    q.set_connection_message_received();
    for n in 1..5 {
        assert_eq!(q.try_push(frame(n)), Ok(None));
    }
    assert_eq!(q.try_push(frame(5)), Err(Error::QueueOverflow));
    assert_eq!(q.nonces(), vec![1, 2, 3, 4]);
    // a frame that is held already needs no room, and the expected one none either
    assert_eq!(q.try_push(frame(3)), Ok(None));
    assert_eq!(q.try_push(frame(0)), Ok(Some(frame(0))));
    assert_eq!(q.drain().len(), 4);
}

#[test]
fn last_nonce_ends_the_sequence() {
    let mut q = MessageQueue::new();
    q.set_connection_message_received();
    assert_eq!(q.try_push(frame(u64::MAX)), Ok(None));
    assert_eq!(q.next_expected(), Some(0));
}
