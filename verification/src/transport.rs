//! The transport state machine.
//!
//! The transport owns every connection record, pending dial and reorder
//! queue. Envelopes that arrive from the mixnet are handed to it, and it
//! decides what they mean: a handshake step, a frame for a connection, or an
//! error for the listener. Whatever it wants sent is put into its outbound
//! sink; whatever it has for a connection is put into that connection's
//! inbound channel.

use vstd::prelude::*;
use std::collections::HashMap;
use crate::address::{
    multiaddress_to_nym_address, nym_address_to_multiaddress, nym_component, is_recipient,
    nym_prefix, Multiaddr, Recipient,
};
use crate::codec::{decode, spec_decode};
use crate::connection::{Connection, ConnectionView, PendingConnection};
use crate::error::Error;
use crate::invariants::{
    inv, lemma_bookkeeping_keeps_inv, lemma_dispatch_keeps_inv, lemma_initial_inv,
    lemma_inv_looks_at_connections_only, lemma_poll_keeps_inv, lemma_release_keeps_inv,
};
use crate::message::{
    tag_view, AnonymousSenderTag, ConnectionId, ConnectionMessage, ConnectionMessageView,
    InboundMessage, InboundMessageView, Message, MessageView, OutboundMessage,
    OutboundMessageView, PeerId, SubstreamMessage, SubstreamMessageView, TransportMessage,
    TransportMessageView,
};
use crate::queue::{MessageQueue, QueueView, DEFAULT_MAX_QUEUED};

verus! {

broadcast use vstd::std_specs::hash::group_hash_axioms;

/// How long a dial waits for its answer unless told otherwise, in seconds.
pub const DEFAULT_HANDSHAKE_TIMEOUT_SECS: u64 = 60;

/// Identifies the listener of a transport.
#[derive(Debug, Clone, Copy, PartialEq, Eq, Hash, Structural)]
pub struct ListenerId(pub u64);

/// Where a connection stands in its life, as the transport sees it.
#[derive(Debug, Clone, Copy, PartialEq, Eq, Structural)]
pub enum ConnectionState {
    /// Dialed; the response is awaited.
    PendingOutbound,
    /// The handshake is complete.
    Established,
    /// Never opened, timed out, or closed.
    Closed,
}

/// What the inbound channel of a connection holds.
#[verifier::ext_equal]
pub struct ChannelView {
    /// The substream messages that the connection has not taken yet.
    pub pending: Seq<SubstreamMessageView>,
    /// The nonces of all frames ever put into the channel, in that order.
    pub delivered: Seq<u64>,
}

impl ChannelView {
    pub open spec fn empty() -> ChannelView {
        ChannelView { pending: Seq::empty(), delivered: Seq::empty() }
    }

    /// The channel after the given frames were put into it, in order.
    pub open spec fn deliver(self, frames: Seq<TransportMessageView>) -> ChannelView {
        ChannelView {
            pending: self.pending + frames.map_values(|m: TransportMessageView| m.message),
            delivered: self.delivered + frames.map_values(|m: TransportMessageView| m.nonce),
        }
    }

    /// The channel after the connection took what was waiting.
    pub open spec fn taken(self) -> ChannelView {
        ChannelView { pending: Seq::empty(), ..self }
    }
}

/// The inbound channel of one connection.
pub struct Channel {
    pending: Vec<SubstreamMessage>,
    delivered: Ghost<Seq<u64>>,
}

impl View for Channel {
    type V = ChannelView;

    closed spec fn view(&self) -> ChannelView {
        ChannelView {
            pending: self.pending@.map_values(|m: SubstreamMessage| m@),
            delivered: self.delivered@,
        }
    }
}

impl Channel {
    fn new() -> (c: Channel)
        ensures
            c@ == ChannelView::empty(),
    {
        let c = Channel { pending: Vec::new(), delivered: Ghost(Seq::empty()) };
        assert(c@.pending =~= Seq::empty());
        c
    }

    fn deliver(&mut self, frames: &Vec<TransportMessage>)
        ensures
            final(self)@ == old(self)@.deliver(frames@.map_values(|m: TransportMessage| m@)),
    {
        let ghost views = frames@.map_values(|m: TransportMessage| m@);
        let mut i: usize = 0;
        while i < frames.len()
            invariant
                i <= frames.len(),
                views == frames@.map_values(|m: TransportMessage| m@),
                self@ == old(self)@.deliver(views.take(i as int)),
            decreases frames.len() - i,
        {
            let ghost before = self@;
            self.pending.push(frames[i].message.duplicate());
            self.delivered = Ghost(self.delivered@.push(frames[i as int].nonce));
            i = i + 1;
            assert(self@ =~= old(self)@.deliver(views.take(i as int))) by {
                assert(views.take(i as int) =~= views.take(i - 1).push(views[i - 1]));
                assert(self@.pending =~= before.pending.push(views[i - 1].message));
            }
        }
        assert(views.take(i as int) =~= views);
    }

    fn take(&mut self) -> (r: Vec<SubstreamMessage>)
        ensures
            final(self)@ == old(self)@.taken(),
            r@.map_values(|m: SubstreamMessage| m@) == old(self)@.pending,
    {
        let mut out: Vec<SubstreamMessage> = Vec::new();
        std::mem::swap(&mut out, &mut self.pending);
        assert(self@.pending =~= Seq::empty());
        out
    }
}

/// The view of an [`Upgrade`]: the peer and the connection that it still holds.
pub type UpgradeView = Option<(Seq<u8>, ConnectionView)>;

/// A transport listener upgrade. An incoming request is turned into a
/// connection at once, so the upgrade holds that connection until it is asked
/// for.
pub struct Upgrade {
    connection: Option<(PeerId, Connection)>,
}

impl View for Upgrade {
    type V = UpgradeView;

    closed spec fn view(&self) -> UpgradeView {
        match self.connection {
            Some((p, c)) => Some((p@, c@)),
            None => None,
        }
    }
}

impl Upgrade {
    fn new(peer_id: PeerId, connection: Connection) -> (u: Upgrade)
        ensures
            u@ == Some((peer_id@, connection@)),
    {
        Upgrade { connection: Some((peer_id, connection)) }
    }

    /// Hands out the connection. It can be had once; after that nothing
    /// will ever come.
    pub fn poll(&mut self) -> (r: Result<(PeerId, Connection), Error>)
        ensures
            final(self)@ is None,
            match r {
                Ok((p, c)) => old(self)@ == Some((p@, c@)),
                Err(e) => old(self)@ is None && e == Error::RecvFailure,
            },
    {
        match self.connection.take() {
            Some(pair) => Ok(pair),
            None => Err(Error::RecvFailure),
        }
    }
}

/// What an envelope from the mixnet turned out to be.
pub enum InboundTransportEvent {
    ConnectionRequest(Upgrade),
    ConnectionResponse,
    TransportMessage,
}

/// The view of an [`InboundTransportEvent`].
pub enum InboundEventView {
    ConnectionRequest(UpgradeView),
    ConnectionResponse,
    TransportMessage,
}

impl View for InboundTransportEvent {
    type V = InboundEventView;

    open spec fn view(&self) -> InboundEventView {
        match self {
            InboundTransportEvent::ConnectionRequest(u) => InboundEventView::ConnectionRequest(u@),
            InboundTransportEvent::ConnectionResponse => InboundEventView::ConnectionResponse,
            InboundTransportEvent::TransportMessage => InboundEventView::TransportMessage,
        }
    }
}

/// What the transport reports to the layer above.
pub enum TransportEvent {
    NewAddress { listener_id: ListenerId, listen_addr: Multiaddr },
    Incoming { listener_id: ListenerId, upgrade: Upgrade, local_addr: Multiaddr, send_back_addr: Multiaddr },
    ListenerClosed { listener_id: ListenerId, reason: Result<(), Error> },
    ListenerError { listener_id: ListenerId, error: Error },
}

/// The view of a [`TransportEvent`].
pub enum TransportEventView {
    NewAddress { listener_id: u64, listen_addr: Seq<char> },
    Incoming { listener_id: u64, upgrade: UpgradeView, local_addr: Seq<char>, send_back_addr: Seq<char> },
    ListenerClosed { listener_id: u64, reason: Result<(), Error> },
    ListenerError { listener_id: u64, error: Error },
}

impl View for TransportEvent {
    type V = TransportEventView;

    open spec fn view(&self) -> TransportEventView {
        match self {
            TransportEvent::NewAddress { listener_id, listen_addr } => TransportEventView::NewAddress {
                listener_id: listener_id.0,
                listen_addr: listen_addr@,
            },
            TransportEvent::Incoming {
                listener_id,
                upgrade,
                local_addr,
                send_back_addr,
            } => TransportEventView::Incoming {
                listener_id: listener_id.0,
                upgrade: upgrade@,
                local_addr: local_addr@,
                send_back_addr: send_back_addr@,
            },
            TransportEvent::ListenerClosed { listener_id, reason } => TransportEventView::ListenerClosed {
                listener_id: listener_id.0,
                reason: *reason,
            },
            TransportEvent::ListenerError { listener_id, error } => TransportEventView::ListenerError {
                listener_id: listener_id.0,
                error: *error,
            },
        }
    }
}

/// What a dial hands back: the connection it is about, the request that
/// opens the handshake, and how long to wait for the answer.
pub struct Dial {
    pub id: ConnectionId,
    pub request: OutboundMessage,
    pub handshake_timeout_ms: u64,
}

/// The state of a transport.
#[verifier::ext_equal]
pub struct TransportView {
    pub self_address: Seq<char>,
    pub listener_id: u64,
    /// The identifier that this transport presents when it accepts.
    pub peer_id: Seq<u8>,
    pub handshake_timeout_ms: u64,
    /// How many frames each reorder queue may hold back.
    pub max_queued: nat,
    /// The established connections, each with its inbound channel.
    pub connections: Map<u128, ChannelView>,
    /// The dials that wait for their answer, each with the address dialed.
    pub pending_dials: Map<u128, Seq<char>>,
    /// The connections that answered dials produced and nobody has taken yet.
    pub dialed: Map<u128, ConnectionView>,
    /// The reorder queues.
    pub queues: Map<u128, QueueView>,
    /// What waits in the outbound sink.
    pub outbound: Seq<OutboundMessageView>,
    /// The events that wait to be reported.
    pub events: Seq<TransportEventView>,
}

/// What polling leads to: the state after it, the envelopes that still wait,
/// and the event to report, if any.
pub struct Polled {
    pub state: TransportView,
    pub rest: Seq<InboundMessageView>,
    pub event: Option<TransportEventView>,
}

impl TransportView {
    /// The address on which the transport listens.
    pub open spec fn listen_addr(self) -> Seq<char> {
        nym_prefix() + self.self_address
    }

    /// Every reorder queue is well-formed.
    pub open spec fn wf(self) -> bool {
        forall|id: u128| self.queues.contains_key(id) ==> (#[trigger] self.queues[id]).wf()
    }

    /// Where the connection `id` stands.
    pub open spec fn state_of(self, id: u128) -> ConnectionState {
        if self.connections.contains_key(id) {
            ConnectionState::Established
        } else if self.pending_dials.contains_key(id) {
            ConnectionState::PendingOutbound
        } else {
            ConnectionState::Closed
        }
    }

    /// The reorder queue of a connection; one that was never touched is empty.
    pub open spec fn queue_of(self, id: u128) -> QueueView {
        if self.queues.contains_key(id) {
            self.queues[id]
        } else {
            QueueView::empty(self.max_queued)
        }
    }

    /// A transport on which nothing has happened but the announcement of its
    /// listen address.
    pub open spec fn initial(
        self_address: Seq<char>,
        listener_id: u64,
        peer_id: Seq<u8>,
        handshake_timeout_ms: u64,
    ) -> TransportView {
        TransportView {
            self_address,
            listener_id,
            peer_id,
            handshake_timeout_ms,
            max_queued: DEFAULT_MAX_QUEUED as nat,
            connections: Map::empty(),
            pending_dials: Map::empty(),
            dialed: Map::empty(),
            queues: Map::empty(),
            outbound: Seq::empty(),
            events: seq![
                TransportEventView::NewAddress {
                    listener_id,
                    listen_addr: nym_prefix() + self_address,
                },
            ],
        }
    }

    /// The handshake for `id` is complete: its queue starts to release, and
    /// whatever it held in order goes into the connection's channel.
    pub open spec fn established(self, id: u128) -> TransportView {
        let q = self.queue_of(id).activate();
        TransportView {
            queues: self.queues.insert(id, q.drained()),
            connections: self.connections.insert(id, self.connections[id].deliver(q.ready())),
            ..self
        }
    }

    /// The response that answers a request.
    pub open spec fn response_to(self, id: u128, tag: Option<u128>) -> OutboundMessageView {
        OutboundMessageView {
            message: MessageView::ConnectionResponse(
                ConnectionMessageView { peer_id: self.peer_id, id },
            ),
            recipient: None,
            sender_tag: tag,
        }
    }

    /// The state after a connection request arrived.
    pub open spec fn on_request(self, m: ConnectionMessageView, tag: Option<u128>) -> TransportView {
        if self.connections.contains_key(m.id) {
            self
        } else {
            let s = (TransportView {
                connections: self.connections.insert(m.id, ChannelView::empty()),
                ..self
            }).established(m.id);
            TransportView { outbound: s.outbound.push(self.response_to(m.id, tag)), ..s }
        }
    }

    /// What a connection request leads to: the connection for the acceptor,
    /// or the reason why there is none.
    pub open spec fn request_result(self, m: ConnectionMessageView, tag: Option<u128>) -> Result<
        ConnectionView,
        Error,
    > {
        if self.connections.contains_key(m.id) {
            Err(Error::ConnectionIDExists)
        } else {
            Ok(ConnectionView::fresh(m.peer_id, None, m.id, tag))
        }
    }

    /// What a connection response leads to.
    pub open spec fn response_result(self, m: ConnectionMessageView) -> Result<(), Error> {
        if self.connections.contains_key(m.id) {
            Err(Error::ConnectionAlreadyEstablished)
        } else if !self.pending_dials.contains_key(m.id) {
            Err(Error::NoConnectionForResponse)
        } else {
            Ok(())
        }
    }

    /// The state after a connection response arrived.
    pub open spec fn on_response(self, m: ConnectionMessageView, tag: Option<u128>) -> TransportView {
        if self.response_result(m) is Err {
            self
        } else {
            let s = (TransportView {
                connections: self.connections.insert(m.id, ChannelView::empty()),
                pending_dials: self.pending_dials.remove(m.id),
                ..self
            }).established(m.id);
            TransportView {
                dialed: s.dialed.insert(
                    m.id,
                    ConnectionView::fresh(m.peer_id, Some(self.pending_dials[m.id]), m.id, tag),
                ),
                ..s
            }
        }
    }

    /// What a frame leads to.
    pub open spec fn frame_result(self, m: TransportMessageView) -> Result<(), Error> {
        let q = self.queue_of(m.id);
        if q.overflows(m.nonce) {
            Err(Error::QueueOverflow)
        } else if q.expects(m.nonce) && !self.connections.contains_key(m.id) {
            Err(Error::NoConnectionForTransportMessage)
        } else {
            Ok(())
        }
    }

    /// The state after a frame arrived. A frame that the queue cannot hold
    /// closes its connection, and only that one. A frame that the queue
    /// expects goes into the connection's channel, followed by those that
    /// were waiting for it. Any other frame waits in the queue.
    pub open spec fn on_frame(self, m: TransportMessageView) -> TransportView {
        let q = self.queue_of(m.id);
        if q.overflows(m.nonce) {
            TransportView {
                connections: self.connections.remove(m.id),
                queues: self.queues.remove(m.id),
                ..self
            }
        } else if q.expects(m.nonce) && self.connections.contains_key(m.id) {
            let p = q.push(m);
            TransportView {
                queues: self.queues.insert(m.id, p.drained()),
                connections: self.connections.insert(
                    m.id,
                    self.connections[m.id].deliver(seq![m] + p.ready()),
                ),
                ..self
            }
        } else {
            TransportView { queues: self.queues.insert(m.id, q.push(m)), ..self }
        }
    }

    /// The state after an envelope arrived.
    pub open spec fn dispatch(self, m: InboundMessageView) -> TransportView {
        match m.message {
            MessageView::ConnectionRequest(c) => self.on_request(c, m.sender_tag),
            MessageView::ConnectionResponse(c) => self.on_response(c, m.sender_tag),
            MessageView::TransportMessage(t) => self.on_frame(t),
        }
    }

    /// What an envelope turns out to be.
    pub open spec fn dispatch_result(self, m: InboundMessageView) -> Result<InboundEventView, Error> {
        match m.message {
            MessageView::ConnectionRequest(c) => match self.request_result(c, m.sender_tag) {
                Ok(conn) => Ok(InboundEventView::ConnectionRequest(Some((c.peer_id, conn)))),
                Err(e) => Err(e),
            },
            MessageView::ConnectionResponse(c) => match self.response_result(c) {
                Ok(_) => Ok(InboundEventView::ConnectionResponse),
                Err(e) => Err(e),
            },
            MessageView::TransportMessage(t) => match self.frame_result(t) {
                Ok(_) => Ok(InboundEventView::TransportMessage),
                Err(e) => Err(e),
            },
        }
    }

    /// Works through the envelopes that wait, oldest first, until one of them
    /// gives something to report: an incoming connection or an error.
    pub open spec fn run(self, inbound: Seq<InboundMessageView>) -> Polled
        decreases inbound.len(),
    {
        if inbound.len() == 0 {
            Polled { state: self, rest: inbound, event: None }
        } else {
            let m = inbound[0];
            let rest = inbound.drop_first();
            let s = self.dispatch(m);
            match self.dispatch_result(m) {
                Ok(InboundEventView::ConnectionRequest(upgrade)) => Polled {
                    state: s,
                    rest,
                    event: Some(
                        TransportEventView::Incoming {
                            listener_id: self.listener_id,
                            upgrade,
                            local_addr: self.listen_addr(),
                            send_back_addr: self.listen_addr(),
                        },
                    ),
                },
                Ok(_) => s.run(rest),
                Err(error) => Polled {
                    state: s,
                    rest,
                    event: Some(
                        TransportEventView::ListenerError { listener_id: self.listener_id, error },
                    ),
                },
            }
        }
    }

    /// One poll: an event that waits is reported first; else the envelopes
    /// that wait are worked through.
    pub open spec fn poll(self, inbound: Seq<InboundMessageView>) -> Polled {
        if self.events.len() > 0 {
            Polled {
                state: TransportView { events: self.events.drop_first(), ..self },
                rest: inbound,
                event: Some(self.events[0]),
            }
        } else {
            self.run(inbound)
        }
    }

    /// The request that opens the handshake of a dial.
    pub open spec fn request_for(id: u128, peer_id: Seq<u8>, recipient: Seq<char>) -> OutboundMessageView {
        OutboundMessageView {
            message: MessageView::ConnectionRequest(ConnectionMessageView { peer_id, id }),
            recipient: Some(recipient),
            sender_tag: None,
        }
    }

    /// The state after a dial to `recipient` under `id`.
    pub open spec fn on_dial(self, id: u128, recipient: Seq<char>) -> TransportView {
        TransportView { pending_dials: self.pending_dials.insert(id, recipient), ..self }
    }

    /// The state after the dial `id` was asked for its connection.
    pub open spec fn on_take_dialed(self, id: u128) -> TransportView {
        TransportView { dialed: self.dialed.remove(id), ..self }
    }

    /// The state after the connection `id` was closed: its channel and its
    /// reorder queue are gone.
    pub open spec fn on_close(self, id: u128) -> TransportView {
        TransportView {
            connections: self.connections.remove(id),
            queues: self.queues.remove(id),
            ..self
        }
    }

    /// The state after bytes arrived that are no envelope.
    pub open spec fn on_garbage(self) -> TransportView {
        TransportView {
            events: self.events.push(
                TransportEventView::ListenerError {
                    listener_id: self.listener_id,
                    error: Error::Codec,
                },
            ),
            ..self
        }
    }

    /// The state after the dial `id` ran out of time.
    pub open spec fn on_expire(self, id: u128) -> TransportView {
        TransportView {
            dialed: self.dialed.remove(id),
            pending_dials: self.pending_dials.remove(id),
            ..self
        }
    }
}


/// Mints a connection identifier: 128 random bits from `rand::random`.
/// Nothing is claimed of the value.
#[verifier::external_body]
fn random_connection_id() -> (id: ConnectionId) {
    ConnectionId(rand::random::<u128>())
}

/// Mints a peer identifier for one dial: the identifier of a fresh key pair
/// from `libp2p_identity::Keypair::generate_ed25519`, turned into bytes by
/// `PublicKey::to_peer_id` and `PeerId::to_bytes`. Nothing is claimed of the
/// value.
#[verifier::external_body]
fn random_peer_id() -> (peer_id: PeerId) {
    let key = libp2p_identity::Keypair::generate_ed25519();
    PeerId { bytes: key.public().to_peer_id().to_bytes() }
}

/// A transport over the mixnet.
pub struct NymTransport {
    self_address: Recipient,
    listen_addr: Multiaddr,
    listener_id: ListenerId,
    peer_id: PeerId,
    connections: HashMap<u128, Channel>,
    pending_dials: HashMap<u128, PendingConnection>,
    dialed: HashMap<u128, Connection>,
    message_queues: HashMap<u128, MessageQueue>,
    inbound_stream: Vec<InboundMessage>,
    outbound: Vec<OutboundMessage>,
    events: Vec<TransportEvent>,
    handshake_timeout_ms: u64,
    max_queued: usize,
}

impl View for NymTransport {
    type V = TransportView;

    closed spec fn view(&self) -> TransportView {
        TransportView {
            self_address: self.self_address@,
            listener_id: self.listener_id.0,
            peer_id: self.peer_id@,
            handshake_timeout_ms: self.handshake_timeout_ms,
            max_queued: self.max_queued as nat,
            connections: self.connections@.map_values(|c: Channel| c@),
            pending_dials: self.pending_dials@.map_values(|p: PendingConnection| p.remote_recipient@),
            dialed: self.dialed@.map_values(|c: Connection| c@),
            queues: self.message_queues@.map_values(|q: MessageQueue| q@),
            outbound: self.outbound@.map_values(|m: OutboundMessage| m@),
            events: self.events@.map_values(|e: TransportEvent| e@),
        }
    }
}

impl NymTransport {
    /// The envelopes that arrived from the mixnet and were not looked at yet.
    pub closed spec fn inbound(&self) -> Seq<InboundMessageView> {
        self.inbound_stream@.map_values(|m: InboundMessage| m@)
    }

    /// The listen address that the transport holds is the one of its own
    /// mixnet address.
    pub closed spec fn listens_on_own_address(&self) -> bool {
        self.listen_addr@ == self@.listen_addr()
    }

    pub open spec fn wf(&self) -> bool {
        self@.wf() && self.listens_on_own_address()
    }

    /// A transport for the given mixnet address, with the default handshake
    /// timeout. Its first event announces the listen address.
    pub fn new(self_address: Recipient, peer_id: PeerId, listener_id: ListenerId) -> (t: NymTransport)
        ensures
            t.wf(),
            inv(t@),
            t.inbound() == Seq::<InboundMessageView>::empty(),
            t@ == TransportView::initial(
                self_address@,
                listener_id.0,
                peer_id@,
                (DEFAULT_HANDSHAKE_TIMEOUT_SECS * 1000) as u64,
            ),
    {
        NymTransport::new_maybe_with_timeout(self_address, peer_id, listener_id, None)
    }

    /// A transport whose dials wait `timeout_ms` milliseconds for their answer.
    pub fn new_with_timeout(
        self_address: Recipient,
        peer_id: PeerId,
        listener_id: ListenerId,
        timeout_ms: u64,
    ) -> (t: NymTransport)
        ensures
            t.wf(),
            inv(t@),
            t.inbound() == Seq::<InboundMessageView>::empty(),
            t@ == TransportView::initial(self_address@, listener_id.0, peer_id@, timeout_ms),
    {
        NymTransport::new_maybe_with_timeout(self_address, peer_id, listener_id, Some(timeout_ms))
    }

    /// The same transport with another handshake timeout.
    pub fn with_timeout(self, timeout_ms: u64) -> (t: NymTransport)
        ensures
            t@ == (TransportView { handshake_timeout_ms: timeout_ms, ..self@ }),
            t.inbound() == self.inbound(),
            self.wf() ==> t.wf(),
            inv(self@) ==> inv(t@),
    {
        let mut t = self;
        t.handshake_timeout_ms = timeout_ms;
        t
    }

    /// A transport with the given handshake timeout, or the default one.
    pub fn new_maybe_with_timeout(
        self_address: Recipient,
        peer_id: PeerId,
        listener_id: ListenerId,
        timeout_ms: Option<u64>,
    ) -> (t: NymTransport)
        ensures
            t.wf(),
            inv(t@),
            t.inbound() == Seq::<InboundMessageView>::empty(),
            t@ == TransportView::initial(
                self_address@,
                listener_id.0,
                peer_id@,
                match timeout_ms {
                    Some(ms) => ms,
                    None => (DEFAULT_HANDSHAKE_TIMEOUT_SECS * 1000) as u64,
                },
            ),
    {
        let listen_addr = nym_address_to_multiaddress(&self_address);
        let mut events: Vec<TransportEvent> = Vec::new();
        events.push(TransportEvent::NewAddress { listener_id, listen_addr: listen_addr.duplicate() });
        let handshake_timeout_ms = match timeout_ms {
            Some(ms) => ms,
            None => DEFAULT_HANDSHAKE_TIMEOUT_SECS * 1000,
        };
        let t = NymTransport {
            self_address,
            listen_addr,
            listener_id,
            peer_id,
            connections: HashMap::new(),
            pending_dials: HashMap::new(),
            dialed: HashMap::new(),
            message_queues: HashMap::new(),
            inbound_stream: Vec::new(),
            outbound: Vec::new(),
            events,
            handshake_timeout_ms,
            max_queued: DEFAULT_MAX_QUEUED,
        };
        assert(t@ =~= TransportView::initial(
            self_address@,
            listener_id.0,
            peer_id@,
            handshake_timeout_ms,
        ));
        assert(t.inbound() =~= Seq::<InboundMessageView>::empty());
        proof {
            lemma_initial_inv(self_address@, listener_id.0, peer_id@, handshake_timeout_ms);
        }
        t
    }

    /// The same transport with another cap on the frames that each reorder
    /// queue holds back. Queues that exist already keep their cap.
    pub fn with_max_queued(self, max_queued: usize) -> (t: NymTransport)
        ensures
            t@ == (TransportView { max_queued: max_queued as nat, ..self@ }),
            t.inbound() == self.inbound(),
            self.wf() ==> t.wf(),
            inv(self@) ==> inv(t@),
    {
        let mut t = self;
        t.max_queued = max_queued;
        t
    }

    /// The identifier that this transport presents when it accepts.
    pub fn peer_id(&self) -> (r: PeerId)
        ensures
            r@ == self@.peer_id,
    {
        self.peer_id.duplicate()
    }

    /// The identifier of the listener.
    pub fn listener_id(&self) -> (r: ListenerId)
        ensures
            r.0 == self@.listener_id,
    {
        self.listener_id
    }

    /// The address on which the transport listens.
    pub fn listen_addr(&self) -> (r: Multiaddr)
        requires
            self.wf(),
        ensures
            r@ == self@.listen_addr(),
    {
        self.listen_addr.duplicate()
    }

    /// How long a dial waits for its answer, in milliseconds.
    pub fn handshake_timeout_ms(&self) -> (r: u64)
        ensures
            r == self@.handshake_timeout_ms,
    {
        self.handshake_timeout_ms
    }

    /// Where a connection stands.
    pub fn connection_state(&self, id: ConnectionId) -> (r: ConnectionState)
        ensures
            r == self@.state_of(id.0),
    {
        if self.connections.contains_key(&id.0) {
            ConnectionState::Established
        } else if self.pending_dials.contains_key(&id.0) {
            ConnectionState::PendingOutbound
        } else {
            ConnectionState::Closed
        }
    }

    /// Whether a connection with this identifier is established.
    pub fn is_connected(&self, id: ConnectionId) -> (r: bool)
        ensures
            r == self@.connections.contains_key(id.0),
    {
        self.connections.contains_key(&id.0)
    }

    /// Whether a dial with this identifier waits for its answer.
    pub fn is_pending(&self, id: ConnectionId) -> (r: bool)
        ensures
            r == self@.pending_dials.contains_key(id.0),
    {
        self.pending_dials.contains_key(&id.0)
    }

    /// How many frames the reorder queue of a connection holds back.
    pub fn queued(&self, id: ConnectionId) -> (r: usize)
        ensures
            r == self@.queue_of(id.0).buffered.len(),
    {
        match self.message_queues.get(&id.0) {
            Some(q) => q.len(),
            None => 0,
        }
    }

    /// Takes in an envelope that arrived from the mixnet. It waits until the
    /// transport is polled.
    pub fn receive(&mut self, msg: InboundMessage)
        ensures
            inv(old(self)@) ==> inv(final(self)@),
            final(self)@ == old(self)@,
            final(self).inbound() == old(self).inbound().push(msg@),
            old(self).wf() ==> final(self).wf(),
    {
        self.inbound_stream.push(msg);
        assert(self.inbound() =~= old(self).inbound().push(msg@));
    }

    /// Takes in a datagram that arrived from the mixnet. Bytes that are the
    /// binary form of an envelope wait, as that envelope, until the transport
    /// is polled. Any other bytes are reported once, as an error of the
    /// listener.
    pub fn receive_datagram(&mut self, bytes: &[u8], sender_tag: Option<AnonymousSenderTag>) -> (r:
        Result<(), Error>)
        ensures
            inv(old(self)@) ==> inv(final(self)@),
            old(self).wf() ==> final(self).wf(),
            match spec_decode(bytes@) {
                Some(m) => {
                    &&& r is Ok
                    &&& final(self)@ == old(self)@
                    &&& final(self).inbound() == old(self).inbound().push(
                        InboundMessageView { message: m, sender_tag: tag_view(sender_tag) },
                    )
                },
                None => {
                    &&& r == Err::<(), Error>(Error::Codec)
                    &&& final(self)@ == old(self)@.on_garbage()
                    &&& final(self).inbound() == old(self).inbound()
                },
            },
    {
        proof {
            if inv(self@) {
                lemma_inv_looks_at_connections_only(self@, self@.on_garbage());
            }
        }
        match decode(bytes) {
            Ok(msg) => {
                self.receive(InboundMessage(msg, sender_tag));
                Ok(())
            },
            Err(e) => {
                self.events.push(
                    TransportEvent::ListenerError { listener_id: self.listener_id, error: e },
                );
                assert(self@ =~= old(self)@.on_garbage());
                Err(e)
            },
        }
    }

    /// Closes a connection: its channel and its reorder queue are dropped,
    /// with whatever they hold. Says whether the connection was established.
    pub fn close_connection(&mut self, id: ConnectionId) -> (r: bool)
        ensures
            inv(old(self)@) ==> inv(final(self)@),
            r == old(self)@.connections.contains_key(id.0),
            final(self)@ == old(self)@.on_close(id.0),
            final(self).inbound() == old(self).inbound(),
            old(self).wf() ==> final(self).wf(),
    {
        proof {
            if inv(self@) {
                lemma_bookkeeping_keeps_inv(self@, id.0, Seq::empty());
            }
        }
        let r = self.connections.remove(&id.0).is_some();
        self.message_queues.remove(&id.0);
        assert(self@ =~= old(self)@.on_close(id.0));
        r
    }

    /// Empties the outbound sink: hands out the envelopes that wait to be
    /// sent, oldest first.
    pub fn take_outbound(&mut self) -> (r: Vec<OutboundMessage>)
        ensures
            inv(old(self)@) ==> inv(final(self)@),
            r@.map_values(|m: OutboundMessage| m@) == old(self)@.outbound,
            final(self)@ == (TransportView { outbound: Seq::empty(), ..old(self)@ }),
            final(self).inbound() == old(self).inbound(),
            old(self).wf() ==> final(self).wf(),
    {
        proof {
            if inv(self@) {
                lemma_inv_looks_at_connections_only(
                    self@,
                    TransportView { outbound: Seq::empty(), ..self@ },
                );
            }
        }
        let mut out: Vec<OutboundMessage> = Vec::new();
        std::mem::swap(&mut out, &mut self.outbound);
        assert(self@ =~= (TransportView { outbound: Seq::empty(), ..old(self)@ }));
        out
    }

    /// Empties the inbound channel of a connection: hands out the substream
    /// messages that wait for it, oldest first. There is no channel where the
    /// connection is not established.
    pub fn take_inbound(&mut self, id: ConnectionId) -> (r: Option<Vec<SubstreamMessage>>)
        ensures
            inv(old(self)@) ==> inv(final(self)@),
            final(self).inbound() == old(self).inbound(),
            old(self).wf() ==> final(self).wf(),
            match r {
                Some(v) => {
                    &&& old(self)@.connections.contains_key(id.0)
                    &&& v@.map_values(|m: SubstreamMessage| m@) == old(self)@.connections[id.0].pending
                    &&& final(self)@ == (TransportView {
                        connections: old(self)@.connections.insert(
                            id.0,
                            old(self)@.connections[id.0].taken(),
                        ),
                        ..old(self)@
                    })
                },
                None => !old(self)@.connections.contains_key(id.0) && final(self)@ == old(self)@,
            },
    {
        proof {
            if inv(self@) {
                lemma_bookkeeping_keeps_inv(self@, id.0, Seq::empty());
            }
        }
        match self.connections.remove(&id.0) {
            Some(channel) => {
                let mut channel = channel;
                let out = channel.take();
                self.connections.insert(id.0, channel);
                assert(self@ =~= (TransportView {
                    connections: old(self)@.connections.insert(
                        id.0,
                        old(self)@.connections[id.0].taken(),
                    ),
                    ..old(self)@
                }));
                Some(out)
            },
            None => {
                assert(self@ =~= old(self)@);
                None
            },
        }
    }

    fn take_queue(&mut self, id: u128) -> (q: MessageQueue)
        requires
            old(self).wf(),
        ensures
            q@ == old(self)@.queue_of(id),
            q@.wf(),
            final(self)@ == (TransportView { queues: old(self)@.queues.remove(id), ..old(self)@ }),
            final(self).inbound() == old(self).inbound(),
            final(self).wf(),
            final(self).message_queues@ == old(self).message_queues@.remove(id),
            final(self).connections == old(self).connections,
    {
        let q = match self.message_queues.remove(&id) {
            Some(q) => {
                assert(old(self)@.queues[id] == q@);
                q
            },
            None => MessageQueue::with_capacity(self.max_queued),
        };
        assert(self@ =~= (TransportView { queues: old(self)@.queues.remove(id), ..old(self)@ }));
        assert forall|k: u128| self@.queues.contains_key(k) implies (#[trigger] self@.queues[k]).wf() by {
            assert(old(self)@.queues.contains_key(k));
            assert(self@.queues[k] == old(self)@.queues[k]);
        }
        q
    }

    /// The handshake of a connection is complete: its reorder queue starts to
    /// release, and the frames that arrived early go into the connection's
    /// channel, in nonce order.
    pub fn handle_message_queue_on_connection_initiation(&mut self, id: &ConnectionId) -> (r: Result<
        (),
        Error,
    >)
        requires
            old(self).wf(),
        ensures
            inv(old(self)@) ==> inv(final(self)@),
            final(self).wf(),
            final(self).inbound() == old(self).inbound(),
            match r {
                Ok(_) => old(self)@.connections.contains_key(id.0) && final(self)@ == old(
                    self,
                )@.established(id.0),
                Err(e) => !old(self)@.connections.contains_key(id.0) && final(self)@ == old(self)@
                    && e == Error::NoConnectionForTransportMessage,
            },
    {
        proof {
            if inv(self@) {
                if self@.connections.contains_key(id.0) {
                    lemma_release_keeps_inv(self@, id.0);
                }
            }
        }
        if !self.connections.contains_key(&id.0) {
            return Err(Error::NoConnectionForTransportMessage);
        }
        let mut queue = self.take_queue(id.0);
        queue.set_connection_message_received();
        proof {
            queue@.lemma_ready_in_order();
        }
        let frames = queue.drain();
        let mut channel = match self.connections.remove(&id.0) {
            Some(c) => c,
            None => Channel::new(),
        };
        channel.deliver(&frames);
        self.connections.insert(id.0, channel);
        self.message_queues.insert(id.0, queue);
        assert(self@ =~= old(self)@.established(id.0));
        assert forall|k: u128| self@.queues.contains_key(k) implies (#[trigger] self@.queues[k]).wf() by {
            if k != id.0 {
                assert(old(self)@.queues.contains_key(k));
            }
        }
        Ok(())
    }

    /// The two ends of a new connection: the connection itself, for whoever
    /// will use it, and the channel through which the transport feeds it.
    pub fn create_connection_types(
        &self,
        remote_peer_id: PeerId,
        remote_recipient: Option<Recipient>,
        id: ConnectionId,
        sender_tag: Option<AnonymousSenderTag>,
    ) -> (r: (Connection, Channel))
        ensures
            r.0@ == ConnectionView::fresh(
                remote_peer_id@,
                crate::message::recipient_view(remote_recipient),
                id.0,
                tag_view(sender_tag),
            ),
            r.1@ == ChannelView::empty(),
    {
        let conn = Connection::new_with_sender_tag(remote_peer_id, remote_recipient, id, sender_tag);
        (conn, Channel::new())
    }

    /// Resolves the pending dial that a response answers into a connection,
    /// which then waits for the dialer to take it.
    pub fn handle_connection_response(
        &mut self,
        msg: &ConnectionMessage,
        sender_tag: Option<AnonymousSenderTag>,
    ) -> (r: Result<(), Error>)
        requires
            old(self).wf(),
        ensures
            inv(old(self)@) ==> inv(final(self)@),
            final(self).wf(),
            final(self).inbound() == old(self).inbound(),
            final(self)@ == old(self)@.on_response(msg@, tag_view(sender_tag)),
            r == old(self)@.response_result(msg@),
    {
        proof {
            if inv(self@) {
                lemma_dispatch_keeps_inv(
                    self@,
                    InboundMessageView {
                        message: MessageView::ConnectionResponse(msg@),
                        sender_tag: tag_view(sender_tag),
                    },
                );
            }
        }
        if self.connections.contains_key(&msg.id.0) {
            return Err(Error::ConnectionAlreadyEstablished);
        }
        match self.pending_dials.remove(&msg.id.0) {
            Some(pending_conn) => {
                let (conn, channel) = self.create_connection_types(
                    msg.peer_id.duplicate(),
                    Some(pending_conn.remote_recipient),
                    msg.id,
                    sender_tag,
                );
                self.connections.insert(msg.id.0, channel);
                let ghost mid = self@;
                assert(mid =~= (TransportView {
                    connections: old(self)@.connections.insert(msg.id.0, ChannelView::empty()),
                    pending_dials: old(self)@.pending_dials.remove(msg.id.0),
                    ..old(self)@
                }));
                assert(self.wf());
                match self.handle_message_queue_on_connection_initiation(&msg.id) {
                    Ok(_) => {},
                    Err(e) => {
                        return Err(e);
                    },
                }
                self.dialed.insert(msg.id.0, conn);
                assert(self@ =~= old(self)@.on_response(msg@, tag_view(sender_tag)));
                Ok(())
            },
            None => {
                assert(self@ =~= old(self)@);
                Err(Error::NoConnectionForResponse)
            },
        }
    }

    /// Accepts an incoming connection request: sets the connection up, sends
    /// the response back along the reply tag, and returns the connection.
    pub fn handle_connection_request(
        &mut self,
        msg: &ConnectionMessage,
        sender_tag: Option<AnonymousSenderTag>,
    ) -> (r: Result<Connection, Error>)
        requires
            old(self).wf(),
        ensures
            inv(old(self)@) ==> inv(final(self)@),
            final(self).wf(),
            final(self).inbound() == old(self).inbound(),
            final(self)@ == old(self)@.on_request(msg@, tag_view(sender_tag)),
            match r {
                Ok(c) => old(self)@.request_result(msg@, tag_view(sender_tag)) == Ok::<
                    ConnectionView,
                    Error,
                >(c@),
                Err(e) => old(self)@.request_result(msg@, tag_view(sender_tag)) == Err::<
                    ConnectionView,
                    Error,
                >(e),
            },
    {
        proof {
            if inv(self@) {
                lemma_dispatch_keeps_inv(
                    self@,
                    InboundMessageView {
                        message: MessageView::ConnectionRequest(msg@),
                        sender_tag: tag_view(sender_tag),
                    },
                );
            }
        }
        if self.connections.contains_key(&msg.id.0) {
            return Err(Error::ConnectionIDExists);
        }
        let (conn, channel) = self.create_connection_types(
            msg.peer_id.duplicate(),
            None,
            msg.id,
            sender_tag,
        );
        self.connections.insert(msg.id.0, channel);
        assert(self@ =~= (TransportView {
            connections: old(self)@.connections.insert(msg.id.0, ChannelView::empty()),
            ..old(self)@
        }));
        assert(self.wf());
        match self.handle_message_queue_on_connection_initiation(&msg.id) {
            Ok(_) => {},
            Err(e) => {
                return Err(e);
            },
        }
        let resp = ConnectionMessage { peer_id: self.peer_id(), id: msg.id };
        let ghost before = self@;
        self.outbound.push(
            OutboundMessage { message: Message::ConnectionResponse(resp), recipient: None, sender_tag },
        );
        assert(self@.outbound =~= before.outbound.push(
            old(self)@.response_to(msg.id.0, tag_view(sender_tag)),
        ));
        assert(self@ =~= old(self)@.on_request(msg@, tag_view(sender_tag)));
        Ok(conn)
    }

    /// Routes a frame through the reorder queue of its connection. The frame
    /// that is next in order goes into the connection's channel, with all
    /// that were waiting for it. A frame that the queue cannot hold closes
    /// the connection.
    pub fn handle_transport_message(&mut self, msg: TransportMessage) -> (r: Result<(), Error>)
        requires
            old(self).wf(),
        ensures
            inv(old(self)@) ==> inv(final(self)@),
            final(self).wf(),
            final(self).inbound() == old(self).inbound(),
            final(self)@ == old(self)@.on_frame(msg@),
            r == old(self)@.frame_result(msg@),
    {
        proof {
            if inv(self@) {
                lemma_dispatch_keeps_inv(
                    self@,
                    InboundMessageView { message: MessageView::TransportMessage(msg@), sender_tag: None },
                );
            }
        }
        let id = msg.id.0;
        let ghost m = msg@;
        let mut queue = self.take_queue(id);
        let ghost q0 = queue@;
        match queue.try_push(msg) {
            Err(e) => {
                self.connections.remove(&id);
                assert(self@ =~= old(self)@.on_frame(m));
                Err(e)
            },
            Ok(None) => {
                self.message_queues.insert(id, queue);
                assert(self@ =~= old(self)@.on_frame(m));
                assert forall|k: u128| self@.queues.contains_key(k) implies (
                #[trigger] self@.queues[k]).wf() by {
                    if k != id {
                        assert(old(self)@.queues.contains_key(k));
                    }
                }
                Ok(())
            },
            Ok(Some(first)) => {
                if !self.connections.contains_key(&id) {
                    self.message_queues.insert(id, queue);
                    assert(self@ =~= old(self)@.on_frame(m));
                    assert forall|k: u128| self@.queues.contains_key(k) implies (
                    #[trigger] self@.queues[k]).wf() by {
                        if k != id {
                            assert(old(self)@.queues.contains_key(k));
                        }
                    }
                    return Err(Error::NoConnectionForTransportMessage);
                }
                proof {
                    queue@.lemma_ready_in_order();
                }
                let ghost pushed = queue@;
                let mut frames: Vec<TransportMessage> = Vec::new();
                frames.push(first);
                let mut rest = queue.drain();
                frames.append(&mut rest);
                assert(frames@.map_values(|x: TransportMessage| x@) =~= seq![m] + pushed.ready());
                let mut channel = match self.connections.remove(&id) {
                    Some(c) => c,
                    None => Channel::new(),
                };
                channel.deliver(&frames);
                self.connections.insert(id, channel);
                self.message_queues.insert(id, queue);
                assert(self@ =~= old(self)@.on_frame(m));
                assert forall|k: u128| self@.queues.contains_key(k) implies (
                #[trigger] self@.queues[k]).wf() by {
                    if k != id {
                        assert(old(self)@.queues.contains_key(k));
                    }
                }
                Ok(())
            },
        }
    }

    /// Handles one envelope from the mixnet, with the reply tag that came
    /// with it.
    pub fn handle_inbound(&mut self, msg: Message, sender_tag: Option<AnonymousSenderTag>) -> (r:
        Result<InboundTransportEvent, Error>)
        requires
            old(self).wf(),
        ensures
            final(self).wf(),
            inv(old(self)@) ==> inv(final(self)@),
            final(self).inbound() == old(self).inbound(),
            final(self)@ == old(self)@.dispatch(
                InboundMessageView { message: msg@, sender_tag: tag_view(sender_tag) },
            ),
            match r {
                Ok(ev) => old(self)@.dispatch_result(
                    InboundMessageView { message: msg@, sender_tag: tag_view(sender_tag) },
                ) == Ok::<InboundEventView, Error>(ev@),
                Err(e) => old(self)@.dispatch_result(
                    InboundMessageView { message: msg@, sender_tag: tag_view(sender_tag) },
                ) == Err::<InboundEventView, Error>(e),
            },
    {
        proof {
            if inv(self@) {
                lemma_dispatch_keeps_inv(
                    self@,
                    InboundMessageView { message: msg@, sender_tag: tag_view(sender_tag) },
                );
            }
        }
        match msg {
            Message::ConnectionRequest(inner) => {
                match self.handle_connection_request(&inner, sender_tag) {
                    Ok(conn) => {
                        let upgrade = Upgrade::new(inner.peer_id, conn);
                        Ok(InboundTransportEvent::ConnectionRequest(upgrade))
                    },
                    Err(e) => Err(e),
                }
            },
            Message::ConnectionResponse(inner) => {
                match self.handle_connection_response(&inner, sender_tag) {
                    Ok(_) => Ok(InboundTransportEvent::ConnectionResponse),
                    Err(e) => Err(e),
                }
            },
            Message::TransportMessage(inner) => {
                match self.handle_transport_message(inner) {
                    Ok(_) => Ok(InboundTransportEvent::TransportMessage),
                    Err(e) => Err(e),
                }
            },
        }
    }

    /// The single listener of a transport exists from the start: to listen
    /// changes nothing and succeeds.
    pub fn listen_on(&mut self, listener_id: ListenerId, multi_addr: Multiaddr) -> (r: Result<(), Error>)
        ensures
            inv(old(self)@) ==> inv(final(self)@),
            r is Ok,
            final(self)@ == old(self)@,
            final(self).inbound() == old(self).inbound(),
            old(self).wf() ==> final(self).wf(),
    {
        Ok(())
    }

    /// Closes the listener, if it is the one that this transport owns: the
    /// closing is then reported as an event.
    pub fn remove_listener(&mut self, id: ListenerId) -> (r: bool)
        ensures
            inv(old(self)@) ==> inv(final(self)@),
            r == (id.0 == old(self)@.listener_id),
            final(self).inbound() == old(self).inbound(),
            old(self).wf() ==> final(self).wf(),
            final(self)@ == if r {
                TransportView {
                    events: old(self)@.events.push(
                        TransportEventView::ListenerClosed { listener_id: id.0, reason: Ok(()) },
                    ),
                    ..old(self)@
                }
            } else {
                old(self)@
            },
    {
        proof {
            if inv(self@) {
                lemma_inv_looks_at_connections_only(
                    self@,
                    TransportView {
                        events: self@.events.push(
                            TransportEventView::ListenerClosed { listener_id: id.0, reason: Ok(()) },
                        ),
                        ..self@
                    },
                );
            }
        }
        if self.listener_id.0 != id.0 {
            return false;
        }
        self.events.push(TransportEvent::ListenerClosed { listener_id: id, reason: Ok(()) });
        assert(self@ =~= (TransportView {
            events: old(self)@.events.push(
                TransportEventView::ListenerClosed { listener_id: id.0, reason: Ok(()) },
            ),
            ..old(self)@
        }));
        true
    }

    /// Starts a dial under a given connection identifier and with a given
    /// peer identifier. The address must end in a `nym` component that holds
    /// a mixnet address. The dial is then pending, and what comes back holds
    /// the request to send.
    pub fn dial_with(&mut self, addr: &Multiaddr, id: ConnectionId, peer_id: PeerId) -> (r: Result<
        Dial,
        Error,
    >)
        ensures
            inv(old(self)@) ==> inv(final(self)@),
            final(self).inbound() == old(self).inbound(),
            old(self).wf() ==> final(self).wf(),
            match r {
                Ok(d) => {
                    &&& nym_component(addr@) is Some
                    &&& is_recipient(nym_component(addr@)->Some_0)
                    &&& d.id == id
                    &&& d.handshake_timeout_ms == old(self)@.handshake_timeout_ms
                    &&& d.request@ == TransportView::request_for(
                        id.0,
                        peer_id@,
                        nym_component(addr@)->Some_0,
                    )
                    &&& final(self)@ == old(self)@.on_dial(id.0, nym_component(addr@)->Some_0)
                },
                Err(e) => {
                    &&& final(self)@ == old(self)@
                    &&& match nym_component(addr@) {
                        None => e == Error::InvalidProtocolForMultiaddr,
                        Some(v) => !is_recipient(v) && e == Error::InvalidRecipientBytes,
                    }
                },
            },
    {
        proof {
            if inv(self@) {
                if nym_component(addr@) is Some {
                    lemma_bookkeeping_keeps_inv(self@, id.0, nym_component(addr@)->Some_0);
                }
            }
        }
        let recipient = match multiaddress_to_nym_address(addr) {
            Ok(r) => r,
            Err(e) => {
                return Err(e);
            },
        };
        let inner_pending_conn = PendingConnection::new(recipient.duplicate());
        self.pending_dials.insert(id.0, inner_pending_conn);
        assert(self@ =~= old(self)@.on_dial(id.0, recipient@));
        let msg = ConnectionMessage { peer_id, id };
        Ok(
            Dial {
                id,
                request: OutboundMessage {
                    message: Message::ConnectionRequest(msg),
                    recipient: Some(recipient),
                    sender_tag: None,
                },
                handshake_timeout_ms: self.handshake_timeout_ms,
            },
        )
    }

    /// Starts a dial under a fresh connection identifier, with a fresh peer
    /// identifier.
    pub fn dial(&mut self, addr: &Multiaddr) -> (r: Result<Dial, Error>)
        ensures
            inv(old(self)@) ==> inv(final(self)@),
            final(self).inbound() == old(self).inbound(),
            old(self).wf() ==> final(self).wf(),
            match r {
                Ok(d) => {
                    &&& nym_component(addr@) is Some
                    &&& is_recipient(nym_component(addr@)->Some_0)
                    &&& d.handshake_timeout_ms == old(self)@.handshake_timeout_ms
                    &&& exists|peer_id: Seq<u8>|
                        d.request@ == TransportView::request_for(
                            d.id.0,
                            peer_id,
                            nym_component(addr@)->Some_0,
                        )
                    &&& final(self)@ == old(self)@.on_dial(d.id.0, nym_component(addr@)->Some_0)
                },
                Err(e) => {
                    &&& final(self)@ == old(self)@
                    &&& match nym_component(addr@) {
                        None => e == Error::InvalidProtocolForMultiaddr,
                        Some(v) => !is_recipient(v) && e == Error::InvalidRecipientBytes,
                    }
                },
            },
    {
        let id = random_connection_id();
        let connection_peer_id = random_peer_id();
        let ghost p = connection_peer_id@;
        let r = self.dial_with(addr, id, connection_peer_id);
        proof {
            if r is Ok {
                let d = r->Ok_0;
                assert(d.request@ == TransportView::request_for(
                    d.id.0,
                    p,
                    nym_component(addr@)->Some_0,
                ));
            }
        }
        r
    }

    /// Asks for the connection of a dial. It is there once the response has
    /// been handled, and can be taken once.
    pub fn take_dialed(&mut self, id: ConnectionId) -> (r: Option<(PeerId, Connection)>)
        ensures
            inv(old(self)@) ==> inv(final(self)@),
            final(self).inbound() == old(self).inbound(),
            old(self).wf() ==> final(self).wf(),
            final(self)@ == old(self)@.on_take_dialed(id.0),
            match r {
                Some((p, c)) => old(self)@.dialed.contains_key(id.0) && c@ == old(self)@.dialed[id.0]
                    && p@ == c@.peer_id,
                None => !old(self)@.dialed.contains_key(id.0),
            },
    {
        proof {
            if inv(self@) {
                lemma_bookkeeping_keeps_inv(self@, id.0, Seq::empty());
            }
        }
        let r = match self.dialed.remove(&id.0) {
            Some(conn) => {
                let p = conn.peer_id();
                Some((p, conn))
            },
            None => None,
        };
        assert(self@ =~= old(self)@.on_take_dialed(id.0));
        r
    }

    /// Ends a dial whose time is up. Where the connection is there after
    /// all, the dial gets it; else the dial fails with a timeout. Either way
    /// the dial is over: a response that arrives later finds no dial.
    pub fn expire_dial(&mut self, id: ConnectionId) -> (r: Result<(PeerId, Connection), Error>)
        ensures
            inv(old(self)@) ==> inv(final(self)@),
            final(self).inbound() == old(self).inbound(),
            old(self).wf() ==> final(self).wf(),
            final(self)@ == old(self)@.on_expire(id.0),
            match r {
                Ok((p, c)) => old(self)@.dialed.contains_key(id.0) && c@ == old(self)@.dialed[id.0]
                    && p@ == c@.peer_id,
                Err(e) => !old(self)@.dialed.contains_key(id.0) && e == Error::DialTimeout,
            },
    {
        proof {
            if inv(self@) {
                lemma_bookkeeping_keeps_inv(self@, id.0, Seq::empty());
            }
        }
        self.pending_dials.remove(&id.0);
        let r = match self.dialed.remove(&id.0) {
            Some(conn) => {
                let p = conn.peer_id();
                Ok((p, conn))
            },
            None => Err(Error::DialTimeout),
        };
        assert(self@ =~= old(self)@.on_expire(id.0));
        r
    }

    /// Polls the transport. An event that waits is reported first. Else the
    /// envelopes that arrived are handled, oldest first, until one gives
    /// something to report: an incoming connection, or an error of the
    /// listener. With nothing to report, every envelope has been handled.
    pub fn poll(&mut self) -> (r: Option<TransportEvent>)
        requires
            old(self).wf(),
        ensures
            final(self).wf(),
            inv(old(self)@) ==> inv(final(self)@),
            final(self)@ == old(self)@.poll(old(self).inbound()).state,
            final(self).inbound() == old(self)@.poll(old(self).inbound()).rest,
            match r {
                Some(e) => old(self)@.poll(old(self).inbound()).event == Some(e@),
                None => old(self)@.poll(old(self).inbound()).event is None,
            },
    {
        proof {
            if inv(self@) {
                lemma_poll_keeps_inv(self@, self.inbound());
            }
        }
        if self.events.len() > 0 {
            let e = self.events.remove(0);
            assert(self@ =~= (TransportView { events: old(self)@.events.drop_first(), ..old(self)@ }));
            return Some(e);
        }
        while self.inbound_stream.len() > 0
            invariant
                self.wf(),
                inv(old(self)@) ==> inv(self@),
                old(self)@.events.len() == 0,
                old(self)@.run(old(self).inbound()) == self@.run(self.inbound()),
            decreases self.inbound_stream.len(),
        {
            let ghost before = self@;
            let ghost waiting = self.inbound();
            let msg = self.inbound_stream.remove(0);
            assert(self.inbound() =~= waiting.drop_first());
            assert(msg@ == waiting[0]);
            assert(self@ =~= before);
            match self.handle_inbound(msg.0, msg.1) {
                Ok(event) => match event {
                    InboundTransportEvent::ConnectionRequest(upgrade) => {
                        return Some(
                            TransportEvent::Incoming {
                                listener_id: self.listener_id,
                                upgrade,
                                local_addr: self.listen_addr.duplicate(),
                                send_back_addr: self.listen_addr.duplicate(),
                            },
                        );
                    },
                    InboundTransportEvent::ConnectionResponse => {},
                    InboundTransportEvent::TransportMessage => {},
                },
                Err(e) => {
                    return Some(TransportEvent::ListenerError { listener_id: self.listener_id, error: e });
                },
            }
        }
        assert(self.inbound() =~= Seq::<InboundMessageView>::empty());
        None
    }
}

} // verus!
