//! What holds of every transport, whatever arrives and in whatever order.

use vstd::prelude::*;
use crate::connection::ConnectionView;
use crate::error::Error;
use crate::message::{
    ConnectionMessageView, InboundMessageView, MessageView, TransportMessageView,
};
use crate::queue::QueueView;
use crate::transport::{ChannelView, ConnectionState, InboundEventView, TransportView};

verus! {

/// The frames that went into a channel carried the nonces 0, 1, 2, … in that
/// order, up to the one that the queue expects next.
pub open spec fn in_order(c: ChannelView, q: QueueView) -> bool {
    &&& c.delivered.len() == q.next
    &&& forall|i: int| 0 <= i < c.delivered.len() ==> c.delivered[i] == i
}

/// The invariant of the transport. Every established connection has a queue
/// that releases, and its channel got the frames in nonce order from 0. A
/// queue without a connection holds back whatever arrives.
pub open spec fn inv(s: TransportView) -> bool {
    &&& s.wf()
    &&& forall|id: u128| #[trigger]
        s.connections.contains_key(id) ==> s.queues.contains_key(id) && s.queues[id].active
            && in_order(s.connections[id], s.queues[id])
    &&& forall|id: u128|
        s.queues.contains_key(id) && !s.connections.contains_key(id) ==> !(
        #[trigger] s.queues[id]).active && s.queues[id].next == 0
}

/// A new transport satisfies the invariant.
pub proof fn lemma_initial_inv(
    self_address: Seq<char>,
    listener_id: u64,
    peer_id: Seq<u8>,
    handshake_timeout_ms: u64,
)
    ensures
        inv(TransportView::initial(self_address, listener_id, peer_id, handshake_timeout_ms)),
{
}

/// Completing a handshake keeps the invariant.
proof fn lemma_established_inv(s: TransportView, id: u128)
    requires
        s.wf(),
        s.connections.contains_key(id),
        s.connections[id] == ChannelView::empty(),
        !s.queue_of(id).active,
        s.queue_of(id).next == 0,
        forall|k: u128|
            k != id && #[trigger] s.connections.contains_key(k) ==> s.queues.contains_key(k)
                && s.queues[k].active && in_order(s.connections[k], s.queues[k]),
        forall|k: u128|
            k != id && s.queues.contains_key(k) && !s.connections.contains_key(k) ==> !(
            #[trigger] s.queues[k]).active && s.queues[k].next == 0,
    ensures
        inv(s.established(id)),
{
    let q = s.queue_of(id).activate();
    q.lemma_ready_in_order();
    let t = s.established(id);
    assert(in_order(t.connections[id], t.queues[id]));
    assert forall|k: u128| t.queues.contains_key(k) implies (#[trigger] t.queues[k]).wf() by {
        if k != id {
            assert(s.queues.contains_key(k));
        }
    }
    assert forall|k: u128| #[trigger] t.connections.contains_key(k) implies t.queues.contains_key(k)
        && t.queues[k].active && in_order(t.connections[k], t.queues[k]) by {
        if k != id {
            assert(s.connections.contains_key(k));
        }
    }
}

/// Whatever arrives, the invariant holds afterwards.
pub proof fn lemma_dispatch_keeps_inv(s: TransportView, m: InboundMessageView)
    requires
        inv(s),
    ensures
        inv(s.dispatch(m)),
{
    match m.message {
        MessageView::ConnectionRequest(c) => {
            if !s.connections.contains_key(c.id) {
                let s1 = TransportView {
                    connections: s.connections.insert(c.id, ChannelView::empty()),
                    ..s
                };
                lemma_established_inv(s1, c.id);
            }
        },
        MessageView::ConnectionResponse(c) => {
            if s.response_result(c) is Ok {
                let s1 = TransportView {
                    connections: s.connections.insert(c.id, ChannelView::empty()),
                    pending_dials: s.pending_dials.remove(c.id),
                    ..s
                };
                lemma_established_inv(s1, c.id);
            }
        },
        MessageView::TransportMessage(f) => {
            lemma_frame_keeps_inv(s, f);
        },
    }
}

proof fn lemma_frame_keeps_inv(s: TransportView, f: TransportMessageView)
    requires
        inv(s),
    ensures
        inv(s.on_frame(f)),
{
    let q = s.queue_of(f.id);
    let t = s.on_frame(f);
    q.lemma_push_wf(f);
    if q.overflows(f.nonce) {
    } else if q.expects(f.nonce) && s.connections.contains_key(f.id) {
        let p = q.push(f);
        p.lemma_ready_in_order();
        let frames = seq![f] + p.ready();
        assert forall|i: int| 0 <= i < frames.len() implies (#[trigger] frames[i]).nonce == q.next
            + i by {
            if i > 0 {
                assert(frames[i] == p.ready()[i - 1]);
            }
        }
        let c = s.connections[f.id];
        let d = c.deliver(frames);
        assert(in_order(d, p.drained())) by {
            assert forall|i: int| 0 <= i < d.delivered.len() implies d.delivered[i] == i by {
                if i >= c.delivered.len() {
                    assert(d.delivered[i] == frames[i - c.delivered.len()].nonce);
                }
            }
        }
        assert forall|k: u128| t.queues.contains_key(k) implies (#[trigger] t.queues[k]).wf() by {
            if k != f.id {
                assert(s.queues.contains_key(k));
            }
        }
    } else {
        assert forall|k: u128| t.queues.contains_key(k) implies (#[trigger] t.queues[k]).wf() by {
            if k != f.id {
                assert(s.queues.contains_key(k));
            }
        }
        assert forall|k: u128| #[trigger] t.connections.contains_key(k) implies t.queues.contains_key(
            k,
        ) && t.queues[k].active && in_order(t.connections[k], t.queues[k]) by {
            assert(s.connections.contains_key(k));
        }
    }
}

/// Polling keeps the invariant.
pub proof fn lemma_poll_keeps_inv(s: TransportView, inbound: Seq<InboundMessageView>)
    requires
        inv(s),
    ensures
        inv(s.poll(inbound).state),
{
    if s.events.len() == 0 {
        lemma_run_keeps_inv(s, inbound);
    }
}

proof fn lemma_run_keeps_inv(s: TransportView, inbound: Seq<InboundMessageView>)
    requires
        inv(s),
    ensures
        inv(s.run(inbound).state),
    decreases inbound.len(),
{
    if inbound.len() > 0 {
        lemma_dispatch_keeps_inv(s, inbound[0]);
        lemma_run_keeps_inv(s.dispatch(inbound[0]), inbound.drop_first());
    }
}

/// The invariant speaks of the connections and their queues only: whatever
/// leaves both as they are keeps it. That covers dialing, the end of a
/// dial, the outbound sink, the events and the settings.
pub proof fn lemma_inv_looks_at_connections_only(s: TransportView, t: TransportView)
    requires
        inv(s),
        t.connections == s.connections,
        t.queues == s.queues,
    ensures
        inv(t),
{
}

/// Dialing, the end of a dial, closing a connection, bytes that are no
/// envelope, and emptying a channel keep the invariant.
pub proof fn lemma_bookkeeping_keeps_inv(s: TransportView, id: u128, recipient: Seq<char>)
    requires
        inv(s),
    ensures
        inv(s.on_dial(id, recipient)),
        inv(s.on_take_dialed(id)),
        inv(s.on_expire(id)),
        inv(s.on_close(id)),
        inv(s.on_garbage()),
        s.connections.contains_key(id) ==> inv(
            TransportView {
                connections: s.connections.insert(id, s.connections[id].taken()),
                ..s
            },
        ),
{
    if s.connections.contains_key(id) {
        let t = TransportView {
            connections: s.connections.insert(id, s.connections[id].taken()),
            ..s
        };
        assert forall|k: u128| #[trigger] t.connections.contains_key(k) implies t.queues.contains_key(
            k,
        ) && t.queues[k].active && in_order(t.connections[k], t.queues[k]) by {
            assert(s.connections.contains_key(k));
        }
    }
}

/// Letting the queue of an established connection release keeps the invariant.
pub proof fn lemma_release_keeps_inv(s: TransportView, id: u128)
    requires
        inv(s),
        s.connections.contains_key(id),
    ensures
        inv(s.established(id)),
{
    let q = s.queue_of(id).activate();
    assert(q == s.queues[id]);
    q.lemma_ready_in_order();
    let t = s.established(id);
    let c = s.connections[id];
    let d = c.deliver(q.ready());
    assert(in_order(d, q.drained())) by {
        assert forall|i: int| 0 <= i < d.delivered.len() implies d.delivered[i] == i by {
            if i >= c.delivered.len() {
                assert(d.delivered[i] == q.ready()[i - c.delivered.len()].nonce);
            }
        }
    }
    assert forall|k: u128| t.queues.contains_key(k) implies (#[trigger] t.queues[k]).wf() by {
        if k != id {
            assert(s.queues.contains_key(k));
        }
    }
    assert forall|k: u128| #[trigger] t.connections.contains_key(k) implies t.queues.contains_key(k)
        && t.queues[k].active && in_order(t.connections[k], t.queues[k]) by {
        if k != id {
            assert(s.connections.contains_key(k));
        }
    }
}

/// The frames that go into the channel of a connection carry the nonces
/// 0, 1, 2, … in exactly that order: none is missing, none comes twice.
pub proof fn lemma_delivered_in_nonce_order(s: TransportView, id: u128, i: int)
    requires
        inv(s),
        s.connections.contains_key(id),
        0 <= i < s.connections[id].delivered.len(),
    ensures
        s.connections[id].delivered[i] == i,
{
}

/// Where the invariant holds, a frame that its queue releases always finds
/// its connection.
pub proof fn lemma_released_frame_finds_connection(s: TransportView, f: TransportMessageView)
    requires
        inv(s),
    ensures
        s.frame_result(f) != Err::<(), Error>(Error::NoConnectionForTransportMessage),
{
}

/// A handshake only completes under an identifier that no established
/// connection carries, and the connection that it establishes carries that
/// identifier: two connections of one transport never share one.
pub proof fn lemma_connection_ids_are_distinct(s: TransportView, m: InboundMessageView)
    requires
        s.dispatch_result(m) is Ok,
        !(m.message is TransportMessage),
    ensures
        ({
            let id = match m.message {
                MessageView::ConnectionRequest(c) => c.id,
                MessageView::ConnectionResponse(c) => c.id,
                MessageView::TransportMessage(t) => t.id,
            };
            &&& !s.connections.contains_key(id)
            &&& s.dispatch(m).connections.contains_key(id)
            &&& forall|k: u128|
                s.connections.contains_key(k) ==> k != id && s.dispatch(m).connections.contains_key(k)
        }),
{
}

/// The life of a connection. A dial makes it pending; the response to a
/// pending dial, or a request, establishes it; a pending dial that runs out
/// of time is closed, and so is a connection that is closed or whose queue
/// overflows. A frame that is taken in changes nothing of this, and nothing
/// that happens to one connection moves another.
pub proof fn lemma_life_of_a_connection(
    s: TransportView,
    c: ConnectionMessageView,
    tag: Option<u128>,
    recipient: Seq<char>,
    f: TransportMessageView,
    other: u128,
)
    requires
        f.id == c.id,
        other != c.id,
    ensures
        s.state_of(c.id) == ConnectionState::Closed ==> s.on_dial(c.id, recipient).state_of(c.id)
            == ConnectionState::PendingOutbound,
        s.state_of(c.id) == ConnectionState::PendingOutbound ==> s.on_response(c, tag).state_of(c.id)
            == ConnectionState::Established && s.on_expire(c.id).state_of(c.id)
            == ConnectionState::Closed,
        s.state_of(c.id) == ConnectionState::Closed ==> s.on_response(c, tag) == s,
        s.on_request(c, tag).state_of(c.id) == ConnectionState::Established,
        s.on_close(c.id).state_of(c.id) != ConnectionState::Established,
        s.frame_result(f) is Ok ==> s.on_frame(f).state_of(c.id) == s.state_of(c.id),
        s.frame_result(f) == Err::<(), Error>(Error::QueueOverflow) ==> s.on_frame(f).state_of(c.id)
            != ConnectionState::Established,
        s.on_dial(c.id, recipient).state_of(other) == s.state_of(other),
        s.on_response(c, tag).state_of(other) == s.state_of(other),
        s.on_request(c, tag).state_of(other) == s.state_of(other),
        s.on_expire(c.id).state_of(other) == s.state_of(other),
        s.on_close(c.id).state_of(other) == s.state_of(other),
        s.on_frame(f).state_of(other) == s.state_of(other),
{
}

/// The handshake leaves both ends with the same connection identifier and
/// with the peer identifier that the other end claimed. The dialer claims
/// `claimed` in its request; the acceptor answers with its own identifier.
pub proof fn lemma_handshake_agrees(
    dialer: TransportView,
    acceptor: TransportView,
    id: u128,
    claimed: Seq<u8>,
    recipient: Seq<char>,
    request_tag: Option<u128>,
    response_tag: Option<u128>,
)
    requires
        !dialer.connections.contains_key(id),
        !acceptor.connections.contains_key(id),
    ensures
        ({
            let request = InboundMessageView {
                message: TransportView::request_for(id, claimed, recipient).message,
                sender_tag: request_tag,
            };
            let accepted = acceptor.dispatch(request);
            let response = InboundMessageView {
                message: accepted.outbound.last().message,
                sender_tag: response_tag,
            };
            let dialing = dialer.on_dial(id, recipient);
            let dialed = dialing.dispatch(response);
            &&& acceptor.dispatch_result(request) == Ok::<InboundEventView, Error>(
                InboundEventView::ConnectionRequest(
                    Some((claimed, ConnectionView::fresh(claimed, None, id, request_tag))),
                ),
            )
            &&& accepted.connections.contains_key(id)
            &&& accepted.outbound.last() == acceptor.response_to(id, request_tag)
            &&& dialing.dispatch_result(response) == Ok::<InboundEventView, Error>(
                InboundEventView::ConnectionResponse,
            )
            &&& dialed.connections.contains_key(id)
            &&& dialed.dialed[id] == ConnectionView::fresh(
                acceptor.peer_id,
                Some(recipient),
                id,
                response_tag,
            )
            &&& !dialed.pending_dials.contains_key(id)
        }),
{
}

/// A response that arrives after its dial ran out of time finds no dial.
pub proof fn lemma_late_response_finds_no_dial(
    s: TransportView,
    c: ConnectionMessageView,
    tag: Option<u128>,
)
    requires
        !s.connections.contains_key(c.id),
    ensures
        s.on_expire(c.id).response_result(c) == Err::<(), Error>(Error::NoConnectionForResponse),
        s.on_expire(c.id).on_response(c, tag) == s.on_expire(c.id),
{
}

/// A frame that arrives before the response of its handshake is no error.
/// It waits, and goes into the channel of the connection as soon as the
/// response has arrived.
pub proof fn lemma_early_frame_waits(
    s: TransportView,
    f: TransportMessageView,
    c: ConnectionMessageView,
    tag: Option<u128>,
)
    requires
        inv(s),
        s.max_queued >= 1,
        s.pending_dials.contains_key(c.id),
        !s.connections.contains_key(c.id),
        !s.queues.contains_key(c.id),
        f.id == c.id,
        f.nonce == 0,
    ensures
        s.frame_result(f) == Ok::<(), Error>(()),
        s.on_frame(f).connections == s.connections,
        s.on_frame(f).response_result(c) == Ok::<(), Error>(()),
        s.on_frame(f).on_response(c, tag).connections[c.id].pending == seq![f.message],
        s.on_frame(f).on_response(c, tag).connections[c.id].delivered == seq![0u64],
{
    let q = QueueView::empty(s.max_queued);
    assert(!q.holds(f.nonce));
    let held = q.push(f);
    assert(held.buffered =~= seq![f]);
    let a = held.activate();
    let a1 = a.pop();
    assert(a1.buffered =~= Seq::empty());
    assert(a1.ready() =~= Seq::empty());
    assert(a.ready() =~= seq![f]);
    let t = s.on_frame(f).on_response(c, tag);
    assert(t.connections[c.id].pending =~= seq![f.message]);
    assert(t.connections[c.id].delivered =~= seq![0u64]);
}

/// Two frames that arrive in the wrong order go into the channel in the
/// right one: the later frame waits until the earlier one has arrived.
pub proof fn lemma_swapped_frames_are_put_in_order(
    s: TransportView,
    later: TransportMessageView,
    earlier: TransportMessageView,
)
    requires
        inv(s),
        s.connections.contains_key(earlier.id),
        later.id == earlier.id,
        later.nonce == earlier.nonce + 1,
        s.queues[earlier.id].next == earlier.nonce,
        s.queues[earlier.id].buffered.len() == 0,
        s.queues[earlier.id].capacity >= 1,
    ensures
        s.frame_result(later) == Ok::<(), Error>(()),
        s.on_frame(later).connections == s.connections,
        s.on_frame(later).frame_result(earlier) == Ok::<(), Error>(()),
        s.on_frame(later).on_frame(earlier).connections[earlier.id].pending
            == s.connections[earlier.id].pending + seq![earlier.message, later.message],
        s.on_frame(later).on_frame(earlier).queues[earlier.id].buffered.len() == 0,
        s.on_frame(later).on_frame(earlier).queues[earlier.id].next == later.nonce + 1,
{
    let id = earlier.id;
    let q = s.queues[id];
    assert(!q.holds(later.nonce));
    let held = q.push(later);
    assert(held.buffered =~= seq![later]);
    let p = held.push(earlier);
    let p1 = p.pop();
    assert(p1.buffered =~= Seq::empty());
    assert(p1.ready() =~= Seq::empty());
    assert(p.ready() =~= seq![later]);
    assert(p.drained() == p1.drained());
    let t = s.on_frame(later).on_frame(earlier);
    assert((seq![earlier] + p.ready()).map_values(|m: TransportMessageView| m.message) =~= seq![
        earlier.message,
        later.message,
    ]);
    assert(t.connections[id].pending =~= s.connections[id].pending + seq![
        earlier.message,
        later.message,
    ]);
}

/// A frame only ever touches the connection that it names. In particular a
/// queue that overflows closes that connection and leaves every other one
/// as it was.
pub proof fn lemma_frame_touches_one_connection(s: TransportView, f: TransportMessageView, other: u128)
    requires
        other != f.id,
    ensures
        s.on_frame(f).connections.contains_key(other) == s.connections.contains_key(other),
        s.on_frame(f).connections.contains_key(other) ==> s.on_frame(f).connections[other]
            == s.connections[other],
        s.on_frame(f).queues.contains_key(other) == s.queues.contains_key(other),
        s.on_frame(f).queues.contains_key(other) ==> s.on_frame(f).queues[other] == s.queues[other],
        s.frame_result(f) == Err::<(), Error>(Error::QueueOverflow) ==> !s.on_frame(
            f,
        ).connections.contains_key(f.id) && !s.on_frame(f).queues.contains_key(f.id),
{
}

} // verus!
