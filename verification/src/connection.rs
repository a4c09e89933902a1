//! One connection: who is at the other end, how to reach them, and the
//! substreams that run over it.

use vstd::prelude::*;
use std::collections::HashMap;
use crate::address::Recipient;
use crate::error::Error;
use crate::message::{
    recipient_view, tag_view, AnonymousSenderTag, ConnectionId, Message, MessageView,
    OutboundMessage, OutboundMessageView, PeerId, SubstreamId, SubstreamKind, SubstreamMessage,
    SubstreamMessageType, SubstreamMessageView, TransportMessage, TransportMessageView,
};
use crate::substream::{Substream, SubstreamState, SubstreamView};

verus! {

broadcast use vstd::std_specs::hash::group_hash_axioms;

/// The largest payload that one data frame carries unless told otherwise.
pub const DEFAULT_MAX_DATA_FRAME_BYTES: usize = 65536;

/// A dial that waits for its answer.
#[derive(Debug, Clone, PartialEq, Eq)]
pub struct PendingConnection {
    pub remote_recipient: Recipient,
}

impl PendingConnection {
    /// A pending dial to the given address.
    pub fn new(remote_recipient: Recipient) -> (p: PendingConnection)
        ensures
            p.remote_recipient@ == remote_recipient@,
    {
        PendingConnection { remote_recipient }
    }
}

/// Cuts a byte string into the payloads of data frames: each holds at most
/// `max` bytes, and all but the last hold exactly that many.
pub open spec fn pieces(data: Seq<u8>, max: nat) -> Seq<Seq<u8>>
    decreases data.len(),
{
    if data.len() == 0 || max == 0 {
        Seq::empty()
    } else if data.len() <= max {
        seq![data]
    } else {
        seq![data.take(max as int)] + pieces(data.skip(max as int), max)
    }
}

/// The data messages that carry the given payloads on one substream.
pub open spec fn data_messages(id: u64, payloads: Seq<Seq<u8>>) -> Seq<SubstreamMessageView> {
    payloads.map_values(
        |p: Seq<u8>| SubstreamMessageView { substream_id: id, kind: SubstreamKind::Data(p) },
    )
}

/// The pieces of a byte string are never longer than allowed, and put
/// together again they are the byte string.
pub proof fn lemma_pieces(data: Seq<u8>, max: nat)
    requires
        max >= 1,
    ensures
        pieces(data, max).flatten() == data,
        pieces(data, max).len() <= data.len(),
        forall|i: int|
            0 <= i < pieces(data, max).len() ==> 1 <= (#[trigger] pieces(data, max)[i]).len() <= max,
    decreases data.len(),
{
    let p = pieces(data, max);
    if data.len() == 0 {
        assert(p.flatten() =~= data);
    } else if data.len() <= max {
        assert(seq![data].drop_first() =~= Seq::<Seq<u8>>::empty());
        assert(seq![data].flatten() =~= data + Seq::<Seq<u8>>::empty().flatten());
        assert(seq![data].flatten() =~= data);
    } else {
        let rest = data.skip(max as int);
        lemma_pieces(rest, max);
        assert(p.drop_first() =~= pieces(rest, max));
        assert(p.flatten() =~= data.take(max as int) + pieces(rest, max).flatten());
        assert(data.take(max as int) + rest =~= data);
        assert forall|i: int| 0 <= i < p.len() implies 1 <= (#[trigger] p[i]).len() <= max by {
            if i > 0 {
                assert(p[i] == pieces(rest, max)[i - 1]);
            }
        }
    }
}

/// Data that arrives on a live substream is appended to what arrived before,
/// payload by payload: nothing is lost, doubled or moved.
pub proof fn lemma_data_arrives(c: ConnectionView, id: u64, payloads: Seq<Seq<u8>>)
    requires
        c.is_live(id),
    ensures
        c.receive_all(data_messages(id, payloads)).is_live(id),
        c.receive_all(data_messages(id, payloads)).substreams[id].received == c.substreams[id].received
            + payloads.flatten(),
        c.receive_all(data_messages(id, payloads)).substreams[id].consumed
            == c.substreams[id].consumed,
    decreases payloads.len(),
{
    let ms = data_messages(id, payloads);
    if payloads.len() == 0 {
        assert(payloads.flatten() =~= Seq::<u8>::empty());
        assert(c.substreams[id].received + payloads.flatten() =~= c.substreams[id].received);
    } else {
        let c1 = c.receive(ms[0]);
        assert(ms.drop_first() =~= data_messages(id, payloads.drop_first()));
        lemma_data_arrives(c1, id, payloads.drop_first());
        assert(payloads.flatten() =~= payloads[0] + payloads.drop_first().flatten());
        assert((c.substreams[id].received + payloads[0]) + payloads.drop_first().flatten()
            =~= c.substreams[id].received + payloads.flatten());
    }
}

/// What one end writes to a substream is, once its frames have arrived in
/// order, exactly what the other end has received on it; and what the other
/// end has read is always the beginning of what it has received.
pub proof fn lemma_written_bytes_arrive(reader: ConnectionView, id: u64, data: Seq<u8>, max: nat)
    requires
        reader.wf(),
        reader.is_live(id),
        max >= 1,
    ensures
        ({
            let after = reader.receive_all(data_messages(id, pieces(data, max)));
            &&& after.substreams[id].received == reader.substreams[id].received + data
            &&& reader.substreams[id].consumed.is_prefix_of(after.substreams[id].received)
        }),
{
    lemma_pieces(data, max);
    lemma_data_arrives(reader, id, pieces(data, max));
    reader.substreams[id].lemma_read_is_prefix();
    let s = reader.substreams[id];
    assert((s.received + data).subrange(0, s.consumed.len() as int) =~= s.consumed) by {
        assert(s.received.subrange(0, s.consumed.len() as int) =~= s.consumed);
    }
}

/// A closed substream stays closed, whatever arrives and whatever this end
/// does: nothing more is received on it, nothing can be written to it, and
/// it cannot be closed again.
pub proof fn lemma_closed_is_final(c: ConnectionView, id: u64, m: SubstreamMessageView, data: Seq<u8>)
    requires
        c.wf(),
        c.substreams.contains_key(id),
        c.substreams[id].state == SubstreamState::Closed,
    ensures
        c.receive(m).substreams.contains_key(id),
        c.receive(m).substreams[id] == c.substreams[id],
        c.can_open() ==> c.after_open().substreams.contains_key(id) && c.after_open().substreams[id]
            == c.substreams[id],
        c.write_result(id, data) == Err::<(), Error>(Error::SubstreamClosed),
        c.close_result(id) == Err::<(), Error>(Error::SubstreamClosed),
{
    if c.can_open() {
        if c.is_local(id) {
            assert(id < c.next_substream_id());
        }
    }
}

/// Closing keeps every closed substream closed and leaves the list of
/// substreams as it is.
pub proof fn lemma_close_each(c: ConnectionView, ids: Seq<u64>, k: u64)
    requires
        c.nonce + ids.len() <= u64::MAX + 1,
    ensures
        c.close_each(ids).created == c.created,
        c.close_each(ids).substreams.dom() == c.substreams.dom(),
        c.nonce <= c.close_each(ids).nonce <= c.nonce + ids.len(),
        !c.is_live(k) ==> !c.close_each(ids).is_live(k),
        ids.contains(k) ==> !c.close_each(ids).is_live(k),
    decreases ids.len(),
{
    if ids.len() > 0 {
        let rest = ids.drop_first();
        let next = if c.close_result(ids[0]) is Ok {
            c.after_close(ids[0])
        } else {
            c
        };
        lemma_close_each(next, rest, k);
        assert(next.substreams.dom() =~= c.substreams.dom());
        if ids.contains(k) {
            let j = choose|j: int| 0 <= j < ids.len() && ids[j] == k;
            if j > 0 {
                assert(rest[j - 1] == k);
            }
        }
    }
}

/// Once everything was closed, no substream is live, as long as there was a
/// nonce left for every envelope that tells the peer.
pub proof fn lemma_close_all_leaves_nothing_live(c: ConnectionView, k: u64)
    requires
        c.wf(),
        c.nonce + c.created.len() <= u64::MAX + 1,
    ensures
        !c.close_each(c.created).is_live(k),
{
    lemma_close_each(c, c.created, k);
}

/// No envelope of a connection names two destinations: the dialer's
/// envelopes go to the address it dialed, the acceptor's back along its
/// reply tag.
pub proof fn lemma_envelope_names_one_destination(c: ConnectionView, m: SubstreamMessageView)
    ensures
        !(c.envelope(m).recipient is Some && c.envelope(m).sender_tag is Some),
        c.is_dialer() ==> c.envelope(m).recipient == c.remote_recipient && c.envelope(m).sender_tag
            is None,
        !c.is_dialer() ==> c.envelope(m).recipient is None && c.envelope(m).sender_tag
            == c.sender_tag,
{
}

/// The view of a [`Connection`].
#[verifier::ext_equal]
pub struct ConnectionView {
    pub peer_id: Seq<u8>,
    pub id: u128,
    pub remote_recipient: Option<Seq<char>>,
    pub sender_tag: Option<u128>,
    /// The nonce that the next outbound frame carries.
    pub nonce: int,
    /// How many substreams were opened from this end.
    pub opened: int,
    pub substreams: Map<u64, SubstreamView>,
    /// The identifiers of all substreams, in the order in which they came to be.
    pub created: Seq<u64>,
    /// The substreams that the peer opened and that nobody has taken yet.
    pub pending_inbound: Seq<u64>,
    /// The substreams opened here that the peer has confirmed and that nobody has taken yet.
    pub pending_outbound: Seq<u64>,
    pub max_frame: nat,
}

/// A connection to one peer.
pub struct Connection {
    peer_id: PeerId,
    id: ConnectionId,
    remote_recipient: Option<Recipient>,
    sender_tag: Option<AnonymousSenderTag>,
    message_nonce: u64,
    nonce_exhausted: bool,
    opened: u64,
    substreams: HashMap<u64, Substream>,
    created: Vec<SubstreamId>,
    pending_inbound: Vec<SubstreamId>,
    pending_outbound: Vec<SubstreamId>,
    max_data_frame_bytes: usize,
}

impl View for Connection {
    type V = ConnectionView;

    closed spec fn view(&self) -> ConnectionView {
        ConnectionView {
            peer_id: self.peer_id@,
            id: self.id.0,
            remote_recipient: recipient_view(self.remote_recipient),
            sender_tag: tag_view(self.sender_tag),
            nonce: if self.nonce_exhausted {
                u64::MAX + 1
            } else {
                self.message_nonce as int
            },
            opened: self.opened as int,
            substreams: self.substreams@.map_values(|s: Substream| s@),
            created: self.created@.map_values(|s: SubstreamId| s.0),
            pending_inbound: self.pending_inbound@.map_values(|s: SubstreamId| s.0),
            pending_outbound: self.pending_outbound@.map_values(|s: SubstreamId| s.0),
            max_frame: self.max_data_frame_bytes as nat,
        }
    }
}

impl ConnectionView {
    /// A connection on which nothing has happened yet.
    pub open spec fn fresh(
        peer_id: Seq<u8>,
        remote_recipient: Option<Seq<char>>,
        id: u128,
        sender_tag: Option<u128>,
    ) -> ConnectionView {
        ConnectionView {
            peer_id,
            id,
            remote_recipient,
            sender_tag,
            nonce: 0,
            opened: 0,
            substreams: Map::empty(),
            created: Seq::empty(),
            pending_inbound: Seq::empty(),
            pending_outbound: Seq::empty(),
            max_frame: DEFAULT_MAX_DATA_FRAME_BYTES as nat,
        }
    }

    pub open spec fn wf(self) -> bool {
        &&& 0 <= self.nonce <= u64::MAX + 1
        &&& 0 <= self.opened <= u64::MAX
        &&& self.max_frame >= 1
        &&& forall|k: u64| self.substreams.contains_key(k) ==> (#[trigger] self.substreams[k]).wf()
        &&& forall|k: u64| #[trigger]
            self.substreams.contains_key(k) && self.is_local(k) ==> k < self.next_substream_id()
        &&& forall|k: u64| #[trigger] self.substreams.contains_key(k) ==> self.created.contains(k)
    }

    /// The last bit of the substream identifiers that this end hands out:
    /// the dialer takes the odd ones, the acceptor the even ones.
    pub open spec fn local_bit(self) -> int {
        if self.is_dialer() {
            1
        } else {
            0
        }
    }

    /// The identifier is one that this end hands out.
    pub open spec fn is_local(self, id: u64) -> bool {
        id % 2 == self.local_bit()
    }

    /// The identifier of the substream that this end opens next.
    pub open spec fn next_substream_id(self) -> int {
        2 * self.opened + self.local_bit()
    }

    /// The substream exists and is not closed.
    pub open spec fn is_live(self, id: u64) -> bool {
        self.substreams.contains_key(id) && self.substreams[id].state != SubstreamState::Closed
    }

    /// This end can open a substream: a nonce and an identifier are left.
    pub open spec fn can_open(self) -> bool {
        self.nonce <= u64::MAX && self.next_substream_id() <= u64::MAX
    }

    /// The connection after this end opened a substream.
    pub open spec fn after_open(self) -> ConnectionView {
        ConnectionView {
            nonce: self.nonce + 1,
            opened: self.opened + 1,
            substreams: self.substreams.insert(
                self.next_substream_id() as u64,
                SubstreamView::fresh(SubstreamState::HalfOpen),
            ),
            created: self.created.push(self.next_substream_id() as u64),
            ..self
        }
    }

    /// The connection after this end closed a substream.
    pub open spec fn after_close(self, id: u64) -> ConnectionView {
        ConnectionView {
            nonce: self.nonce + 1,
            substreams: self.substreams.insert(id, self.substreams[id].close()),
            ..self
        }
    }

    /// The connection after this end tried to close the given substreams,
    /// one after the other. What cannot be closed is passed over.
    pub open spec fn close_each(self, ids: Seq<u64>) -> ConnectionView
        decreases ids.len(),
    {
        if ids.len() == 0 {
            self
        } else if self.close_result(ids[0]) is Ok {
            self.after_close(ids[0]).close_each(ids.drop_first())
        } else {
            self.close_each(ids.drop_first())
        }
    }

    /// The envelopes that tell the peer of the closing of the given
    /// substreams, one for each that could be closed, in that order.
    pub open spec fn close_frames(self, ids: Seq<u64>) -> Seq<OutboundMessageView>
        decreases ids.len(),
    {
        if ids.len() == 0 {
            Seq::empty()
        } else if self.close_result(ids[0]) is Ok {
            seq![
                self.envelope(
                    SubstreamMessageView { substream_id: ids[0], kind: SubstreamKind::Close },
                ),
            ] + self.after_close(ids[0]).close_frames(ids.drop_first())
        } else {
            self.close_frames(ids.drop_first())
        }
    }

    /// What a substream message from the peer leads to.
    pub open spec fn receive_result(self, m: SubstreamMessageView) -> Result<(), Error> {
        let id = m.substream_id;
        match m.kind {
            SubstreamKind::OpenRequest => if self.substreams.contains_key(id) || self.is_local(id) {
                Err(Error::ProtocolViolation)
            } else if self.nonce > u64::MAX {
                Err(Error::NonceExhausted)
            } else {
                Ok(())
            },
            SubstreamKind::OpenResponse => if self.substreams.contains_key(id)
                && self.substreams[id].state == SubstreamState::HalfOpen {
                Ok(())
            } else {
                Err(Error::ProtocolViolation)
            },
            SubstreamKind::Data(_) => if self.is_live(id) {
                Ok(())
            } else {
                Err(Error::ProtocolViolation)
            },
            SubstreamKind::Close => if self.is_live(id) {
                Ok(())
            } else {
                Err(Error::ProtocolViolation)
            },
        }
    }

    /// The connection after a substream message from the peer. A message
    /// that the protocol does not allow changes nothing.
    pub open spec fn receive(self, m: SubstreamMessageView) -> ConnectionView {
        let id = m.substream_id;
        if self.receive_result(m) is Err {
            self
        } else {
            match m.kind {
                SubstreamKind::OpenRequest => ConnectionView {
                    nonce: self.nonce + 1,
                    substreams: self.substreams.insert(id, SubstreamView::fresh(SubstreamState::Open)),
                    created: self.created.push(id),
                    pending_inbound: self.pending_inbound.push(id),
                    ..self
                },
                SubstreamKind::OpenResponse => ConnectionView {
                    substreams: self.substreams.insert(
                        id,
                        SubstreamView { state: SubstreamState::Open, ..self.substreams[id] },
                    ),
                    pending_outbound: self.pending_outbound.push(id),
                    ..self
                },
                SubstreamKind::Data(d) => ConnectionView {
                    substreams: self.substreams.insert(id, self.substreams[id].accept(d)),
                    ..self
                },
                SubstreamKind::Close => ConnectionView {
                    substreams: self.substreams.insert(id, self.substreams[id].close()),
                    ..self
                },
            }
        }
    }

    /// The connection after a run of substream messages from the peer.
    pub open spec fn receive_all(self, ms: Seq<SubstreamMessageView>) -> ConnectionView
        decreases ms.len(),
    {
        if ms.len() == 0 {
            self
        } else {
            self.receive(ms[0]).receive_all(ms.drop_first())
        }
    }

    /// The envelope of the data frame that carries the `i`-th piece of a write.
    pub open spec fn data_frame(self, id: u64, piece: Seq<u8>, i: int) -> OutboundMessageView {
        (ConnectionView { nonce: self.nonce + i, ..self }).envelope(
            SubstreamMessageView { substream_id: id, kind: SubstreamKind::Data(piece) },
        )
    }

    /// This end may write `len` bytes to the substream: the substream is
    /// live, and there is a nonce for every frame.
    pub open spec fn write_result(self, id: u64, data: Seq<u8>) -> Result<(), Error> {
        if !self.is_live(id) {
            Err(Error::SubstreamClosed)
        } else if self.nonce + pieces(data, self.max_frame).len() > u64::MAX + 1 {
            Err(Error::NonceExhausted)
        } else {
            Ok(())
        }
    }

    /// What closing a substream from this end leads to.
    pub open spec fn close_result(self, id: u64) -> Result<(), Error> {
        if !self.is_live(id) {
            Err(Error::SubstreamClosed)
        } else if self.nonce > u64::MAX {
            Err(Error::NonceExhausted)
        } else {
            Ok(())
        }
    }

    /// This end dialed: it knows the address of the other end.
    pub open spec fn is_dialer(self) -> bool {
        self.remote_recipient is Some
    }

    /// The envelope that carries a substream message under the next nonce.
    /// The dialer sends to the address it dialed, the acceptor back along the
    /// reply tag: an envelope never carries both.
    pub open spec fn envelope(self, m: SubstreamMessageView) -> OutboundMessageView {
        OutboundMessageView {
            message: MessageView::TransportMessage(
                TransportMessageView { nonce: self.nonce as u64, message: m, id: self.id },
            ),
            recipient: self.remote_recipient,
            sender_tag: if self.is_dialer() {
                None
            } else {
                self.sender_tag
            },
        }
    }
}

impl Connection {
    /// The identifier that the peer claims.
    pub fn peer_id(&self) -> (r: PeerId)
        ensures
            r@ == self@.peer_id,
    {
        self.peer_id.duplicate()
    }

    /// The identifier of the connection.
    pub fn id(&self) -> (r: ConnectionId)
        ensures
            r.0 == self@.id,
    {
        self.id
    }

    /// A connection on which nothing has happened yet. The dialer knows the
    /// address of the other end; the acceptor only has the reply tag.
    pub fn new_with_sender_tag(
        peer_id: PeerId,
        remote_recipient: Option<Recipient>,
        id: ConnectionId,
        sender_tag: Option<AnonymousSenderTag>,
    ) -> (c: Connection)
        ensures
            c@ == ConnectionView::fresh(
                peer_id@,
                recipient_view(remote_recipient),
                id.0,
                tag_view(sender_tag),
            ),
    {
        let c = Connection {
            peer_id,
            id,
            remote_recipient,
            sender_tag,
            message_nonce: 0,
            nonce_exhausted: false,
            opened: 0,
            substreams: HashMap::new(),
            created: Vec::new(),
            pending_inbound: Vec::new(),
            pending_outbound: Vec::new(),
            max_data_frame_bytes: DEFAULT_MAX_DATA_FRAME_BYTES,
        };
        assert(c@.substreams =~= Map::empty());
        assert(c@.created =~= Seq::empty());
        assert(c@.pending_inbound =~= Seq::empty());
        assert(c@.pending_outbound =~= Seq::empty());
        c
    }

    /// Wraps a substream message into the envelope that carries it to the
    /// peer, under the next nonce. Nonces start at 0 and rise by one with
    /// every envelope; once all are used up, nothing more can be sent.
    pub fn write(&mut self, msg: SubstreamMessage) -> (r: Result<OutboundMessage, Error>)
        ensures
            match r {
                Ok(out) => {
                    &&& old(self)@.nonce <= u64::MAX
                    &&& out@ == old(self)@.envelope(msg@)
                    &&& final(self)@ == (ConnectionView { nonce: old(self)@.nonce + 1, ..old(self)@ })
                },
                Err(e) => {
                    &&& old(self)@.nonce > u64::MAX
                    &&& e == Error::NonceExhausted
                    &&& final(self)@ == old(self)@
                },
            },
    {
        if self.nonce_exhausted {
            return Err(Error::NonceExhausted);
        }
        let nonce = self.message_nonce;
        if self.message_nonce == u64::MAX {
            self.nonce_exhausted = true;
        } else {
            self.message_nonce = self.message_nonce + 1;
        }
        let (recipient, sender_tag) = match &self.remote_recipient {
            Some(r) => (Some(r.duplicate()), None),
            None => (None, self.sender_tag),
        };
        Ok(
            OutboundMessage {
                message: Message::TransportMessage(
                    TransportMessage { nonce, message: msg, id: self.id },
                ),
                recipient,
                sender_tag,
            },
        )
    }

    /// Whether this end dialed.
    pub fn is_dialer(&self) -> (r: bool)
        ensures
            r == self@.is_dialer(),
    {
        self.remote_recipient.is_some()
    }

    /// The same connection with another bound on the payload of a data frame.
    pub fn with_max_data_frame_bytes(self, max: usize) -> (c: Connection)
        requires
            max >= 1,
        ensures
            c@ == (ConnectionView { max_frame: max as nat, ..self@ }),
            self@.wf() ==> c@.wf(),
    {
        let mut c = self;
        c.max_data_frame_bytes = max;
        c
    }

    /// Where a substream stands, if it exists.
    pub fn substream_state(&self, id: SubstreamId) -> (r: Option<SubstreamState>)
        ensures
            match r {
                Some(st) => self@.substreams.contains_key(id.0) && st == self@.substreams[id.0].state,
                None => !self@.substreams.contains_key(id.0),
            },
    {
        match self.substreams.get(&id.0) {
            Some(sub) => Some(sub.state()),
            None => None,
        }
    }

    /// Opens a substream from this end: picks its identifier and returns it
    /// with the envelope that asks the peer to open it. The substream is
    /// half-open until the peer answers; data may be written to it at once.
    pub fn open_outbound(&mut self) -> (r: Result<(SubstreamId, OutboundMessage), Error>)
        requires
            old(self)@.wf(),
        ensures
            final(self)@.wf(),
            match r {
                Ok((id, out)) => {
                    &&& old(self)@.can_open()
                    &&& id.0 == old(self)@.next_substream_id()
                    &&& out@ == old(self)@.envelope(
                        SubstreamMessageView { substream_id: id.0, kind: SubstreamKind::OpenRequest },
                    )
                    &&& final(self)@ == old(self)@.after_open()
                },
                Err(e) => !old(self)@.can_open() && e == Error::NonceExhausted && final(self)@ == old(
                    self,
                )@,
            },
    {
        let bit: u64 = if self.remote_recipient.is_some() {
            1
        } else {
            0
        };
        if self.nonce_exhausted || self.opened > (u64::MAX - 1) / 2 {
            return Err(Error::NonceExhausted);
        }
        let id = SubstreamId(2 * self.opened + bit);
        let msg = SubstreamMessage { substream_id: id, message_type: SubstreamMessageType::OpenRequest };
        let out = match self.write(msg) {
            Ok(out) => out,
            Err(e) => {
                return Err(e);
            },
        };
        self.opened = self.opened + 1;
        self.substreams.insert(id.0, Substream::new(SubstreamState::HalfOpen));
        self.created.push(id);
        assert(self@ =~= old(self)@.after_open());
        assert forall|k: u64| #[trigger] self@.substreams.contains_key(k) implies self@.created.contains(
            k,
        ) by {
            if k != id.0 {
                assert(old(self)@.substreams.contains_key(k));
                let j = choose|j: int| 0 <= j < old(self)@.created.len() && old(self)@.created[j] == k;
                assert(self@.created[j] == k);
            } else {
                assert(self@.created[self@.created.len() - 1] == k);
            }
        }
        assert forall|k: u64| self@.substreams.contains_key(k) implies (
        #[trigger] self@.substreams[k]).wf() by {
            if k != id.0 {
                assert(old(self)@.substreams.contains_key(k));
            }
        }
        assert forall|k: u64| #[trigger]
            self@.substreams.contains_key(k) && self@.is_local(k) implies k
            < self@.next_substream_id() by {
            if k != id.0 {
                assert(old(self)@.substreams.contains_key(k));
            }
        }
        Ok((id, out))
    }

    /// Takes in a substream message from the peer. A request to open a
    /// substream is granted, and the envelope with the answer comes back.
    /// An answer completes a substream that this end opened. Data is added to
    /// what the substream holds for reading. A close ends the substream for
    /// good. Whatever the protocol does not allow at this point is dropped
    /// and reported.
    pub fn receive(&mut self, msg: SubstreamMessage) -> (r: Result<Option<OutboundMessage>, Error>)
        requires
            old(self)@.wf(),
        ensures
            final(self)@.wf(),
            final(self)@ == old(self)@.receive(msg@),
            match r {
                Ok(Some(out)) => {
                    &&& old(self)@.receive_result(msg@) is Ok
                    &&& msg@.kind is OpenRequest
                    &&& out@ == old(self)@.envelope(
                        SubstreamMessageView {
                            substream_id: msg@.substream_id,
                            kind: SubstreamKind::OpenResponse,
                        },
                    )
                },
                Ok(None) => old(self)@.receive_result(msg@) is Ok && !(msg@.kind is OpenRequest),
                Err(e) => old(self)@.receive_result(msg@) == Err::<(), Error>(e),
            },
    {
        let id = msg.substream_id;
        let bit: u64 = if self.remote_recipient.is_some() {
            1
        } else {
            0
        };
        match msg.message_type {
            SubstreamMessageType::OpenRequest => {
                if self.substreams.contains_key(&id.0) || id.0 % 2 == bit {
                    return Err(Error::ProtocolViolation);
                }
                let answer = SubstreamMessage {
                    substream_id: id,
                    message_type: SubstreamMessageType::OpenResponse,
                };
                let out = match self.write(answer) {
                    Ok(out) => out,
                    Err(e) => {
                        return Err(e);
                    },
                };
                self.substreams.insert(id.0, Substream::new(SubstreamState::Open));
                self.created.push(id);
                self.pending_inbound.push(id);
                assert(self@ =~= old(self)@.receive(msg@));
                assert forall|k: u64| #[trigger]
                    self@.substreams.contains_key(k) implies self@.created.contains(k) by {
                    if k != id.0 {
                        assert(old(self)@.substreams.contains_key(k));
                        let j = choose|j: int|
                            0 <= j < old(self)@.created.len() && old(self)@.created[j] == k;
                        assert(self@.created[j] == k);
                    } else {
                        assert(self@.created[self@.created.len() - 1] == k);
                    }
                }
                assert forall|k: u64| self@.substreams.contains_key(k) implies (
                #[trigger] self@.substreams[k]).wf() by {
                    if k != id.0 {
                        assert(old(self)@.substreams.contains_key(k));
                    }
                }
                assert forall|k: u64| #[trigger]
                    self@.substreams.contains_key(k) && self@.is_local(k) implies k
                    < self@.next_substream_id() by {
                    if k != id.0 {
                        assert(old(self)@.substreams.contains_key(k));
                    }
                }
                Ok(Some(out))
            },
            SubstreamMessageType::OpenResponse => {
                let confirmed = match self.substreams.get(&id.0) {
                    Some(sub) => matches!(sub.state(), SubstreamState::HalfOpen),
                    None => false,
                };
                if !confirmed {
                    return Err(Error::ProtocolViolation);
                }
                self.update_substream(id, None, Some(SubstreamState::Open));
                self.pending_outbound.push(id);
                assert(self@ =~= old(self)@.receive(msg@));
                Ok(None)
            },
            SubstreamMessageType::Data(d) => {
                if !self.is_live(id) {
                    return Err(Error::ProtocolViolation);
                }
                self.update_substream(id, Some(&d), None);
                assert(self@ =~= old(self)@.receive(msg@));
                Ok(None)
            },
            SubstreamMessageType::Close => {
                if !self.is_live(id) {
                    return Err(Error::ProtocolViolation);
                }
                self.update_substream(id, None, Some(SubstreamState::Closed));
                assert(self@ =~= old(self)@.receive(msg@));
                Ok(None)
            },
        }
    }

    /// Whether a read from the substream has reached the end of the stream:
    /// the substream is closed, and every byte that arrived has been read.
    pub fn is_at_end(&self, id: SubstreamId) -> (r: bool)
        ensures
            r == (self@.substreams.contains_key(id.0) && self@.substreams[id.0].at_end()),
    {
        match self.substreams.get(&id.0) {
            Some(sub) => matches!(sub.state(), SubstreamState::Closed) && sub.buffered() == 0,
            None => false,
        }
    }

    /// Whether a substream exists and is not closed.
    pub fn is_live(&self, id: SubstreamId) -> (r: bool)
        ensures
            r == self@.is_live(id.0),
    {
        match self.substreams.get(&id.0) {
            Some(sub) => !matches!(sub.state(), SubstreamState::Closed),
            None => false,
        }
    }

    fn update_substream(&mut self, id: SubstreamId, data: Option<&Vec<u8>>, state: Option<SubstreamState>)
        requires
            old(self)@.wf(),
            old(self)@.substreams.contains_key(id.0),
        ensures
            final(self)@.wf(),
            final(self)@ == (ConnectionView {
                substreams: old(self)@.substreams.insert(
                    id.0,
                    ({
                        let s = old(self)@.substreams[id.0];
                        let s1 = match data {
                            Some(d) => s.accept(d@),
                            None => s,
                        };
                        match state {
                            Some(st) => SubstreamView { state: st, ..s1 },
                            None => s1,
                        }
                    }),
                ),
                ..old(self)@
            }),
    {
        let mut sub = match self.substreams.remove(&id.0) {
            Some(sub) => sub,
            None => Substream::new(SubstreamState::Closed),
        };
        let ghost s0 = sub@;
        assert(s0 == old(self)@.substreams[id.0]);
        proof {
            s0.lemma_steps_keep_wf(Seq::empty(), 0);
        }
        match data {
            Some(d) => {
                proof {
                    s0.lemma_steps_keep_wf(d@, 0);
                }
                sub.accept(d);
            },
            None => {},
        }
        match state {
            Some(st) => {
                sub.set_state(st);
            },
            None => {},
        }
        let ghost s2 = sub@;
        self.substreams.insert(id.0, sub);
        assert(self@.substreams =~= old(self)@.substreams.insert(id.0, s2));
        assert forall|k: u64| self@.substreams.contains_key(k) implies (
        #[trigger] self@.substreams[k]).wf() by {
            if k != id.0 {
                assert(old(self)@.substreams.contains_key(k));
            }
        }
        assert forall|k: u64| #[trigger]
            self@.substreams.contains_key(k) && self@.is_local(k) implies k
            < self@.next_substream_id() by {
            assert(old(self)@.substreams.contains_key(k));
        }
        assert forall|k: u64| #[trigger] self@.substreams.contains_key(k) implies self@.created.contains(
            k,
        ) by {
            assert(old(self)@.substreams.contains_key(k));
        }
    }

    /// The next substream that the peer opened, if one waits.
    pub fn poll_inbound(&mut self) -> (r: Option<SubstreamId>)
        ensures
            match r {
                Some(id) => old(self)@.pending_inbound.len() > 0 && id.0 == old(
                    self,
                )@.pending_inbound[0] && final(self)@ == (ConnectionView {
                    pending_inbound: old(self)@.pending_inbound.drop_first(),
                    ..old(self)@
                }),
                None => old(self)@.pending_inbound.len() == 0 && final(self)@ == old(self)@,
            },
    {
        if self.pending_inbound.len() == 0 {
            return None;
        }
        let id = self.pending_inbound.remove(0);
        assert(self@ =~= (ConnectionView {
            pending_inbound: old(self)@.pending_inbound.drop_first(),
            ..old(self)@
        }));
        Some(id)
    }

    /// The next substream opened from this end that the peer has confirmed,
    /// if one waits.
    pub fn poll_outbound(&mut self) -> (r: Option<SubstreamId>)
        ensures
            match r {
                Some(id) => old(self)@.pending_outbound.len() > 0 && id.0 == old(
                    self,
                )@.pending_outbound[0] && final(self)@ == (ConnectionView {
                    pending_outbound: old(self)@.pending_outbound.drop_first(),
                    ..old(self)@
                }),
                None => old(self)@.pending_outbound.len() == 0 && final(self)@ == old(self)@,
            },
    {
        if self.pending_outbound.len() == 0 {
            return None;
        }
        let id = self.pending_outbound.remove(0);
        assert(self@ =~= (ConnectionView {
            pending_outbound: old(self)@.pending_outbound.drop_first(),
            ..old(self)@
        }));
        Some(id)
    }

    /// Reads from a substream: hands out the bytes that wait, at most `max`
    /// of them, oldest first. On a closed substream the bytes that arrived
    /// before the close can still be read; after them nothing comes.
    pub fn read(&mut self, id: SubstreamId, max: usize) -> (r: Result<Vec<u8>, Error>)
        requires
            old(self)@.wf(),
        ensures
            final(self)@.wf(),
            match r {
                Ok(bytes) => {
                    let s = old(self)@.substreams[id.0];
                    &&& old(self)@.substreams.contains_key(id.0)
                    &&& bytes@ == s.buffer.take(s.read_len(max as nat) as int)
                    &&& final(self)@ == (ConnectionView {
                        substreams: old(self)@.substreams.insert(id.0, s.read(max as nat)),
                        ..old(self)@
                    })
                },
                Err(e) => !old(self)@.substreams.contains_key(id.0) && e == Error::SubstreamClosed
                    && final(self)@ == old(self)@,
            },
    {
        let mut sub = match self.substreams.remove(&id.0) {
            Some(sub) => sub,
            None => {
                assert(self@ =~= old(self)@);
                return Err(Error::SubstreamClosed);
            },
        };
        let ghost s0 = sub@;
        assert(s0 == old(self)@.substreams[id.0]);
        proof {
            s0.lemma_steps_keep_wf(Seq::empty(), max as nat);
        }
        let bytes = sub.read(max);
        self.substreams.insert(id.0, sub);
        assert(self@ =~= (ConnectionView {
            substreams: old(self)@.substreams.insert(id.0, s0.read(max as nat)),
            ..old(self)@
        }));
        assert forall|k: u64| self@.substreams.contains_key(k) implies (
        #[trigger] self@.substreams[k]).wf() by {
            if k != id.0 {
                assert(old(self)@.substreams.contains_key(k));
            }
        }
        assert forall|k: u64| #[trigger]
            self@.substreams.contains_key(k) && self@.is_local(k) implies k
            < self@.next_substream_id() by {
            assert(old(self)@.substreams.contains_key(k));
        }
        assert forall|k: u64| #[trigger] self@.substreams.contains_key(k) implies self@.created.contains(
            k,
        ) by {
            assert(old(self)@.substreams.contains_key(k));
        }
        Ok(bytes)
    }

    /// Closes a substream from this end, and returns the envelope that tells
    /// the peer. A substream can be closed once.
    pub fn close_substream(&mut self, id: SubstreamId) -> (r: Result<OutboundMessage, Error>)
        requires
            old(self)@.wf(),
        ensures
            final(self)@.wf(),
            match r {
                Ok(out) => {
                    &&& old(self)@.close_result(id.0) is Ok
                    &&& out@ == old(self)@.envelope(
                        SubstreamMessageView { substream_id: id.0, kind: SubstreamKind::Close },
                    )
                    &&& final(self)@ == old(self)@.after_close(id.0)
                },
                Err(e) => old(self)@.close_result(id.0) == Err::<(), Error>(e) && final(self)@ == old(
                    self,
                )@,
            },
    {
        if !self.is_live(id) {
            return Err(Error::SubstreamClosed);
        }
        let msg = SubstreamMessage { substream_id: id, message_type: SubstreamMessageType::Close };
        let out = match self.write(msg) {
            Ok(out) => out,
            Err(e) => {
                return Err(e);
            },
        };
        self.update_substream(id, None, Some(SubstreamState::Closed));
        Ok(out)
    }

    /// Closes every substream that is still live, oldest first, and returns
    /// the envelopes that tell the peer, in that order.
    pub fn close_all(&mut self) -> (r: Vec<OutboundMessage>)
        requires
            old(self)@.wf(),
        ensures
            final(self)@.wf(),
            final(self)@ == old(self)@.close_each(old(self)@.created),
            r@.map_values(|m: OutboundMessage| m@) == old(self)@.close_frames(old(self)@.created),
    {
        let mut frames: Vec<OutboundMessage> = Vec::new();
        let mut i: usize = 0;
        let ghost ids = self@.created;
        assert(ids.skip(0) =~= ids);
        assert(frames@.map_values(|m: OutboundMessage| m@) =~= Seq::<OutboundMessageView>::empty());
        while i < self.created.len()
            invariant
                self@.wf(),
                self@.created == ids,
                ids == old(self)@.created,
                i <= ids.len(),
                old(self)@.close_each(ids) == self@.close_each(ids.skip(i as int)),
                old(self)@.close_frames(ids) == frames@.map_values(|m: OutboundMessage| m@)
                    + self@.close_frames(ids.skip(i as int)),
            decreases ids.len() - i,
        {
            let id = self.created[i];
            let ghost before = self@;
            let ghost sofar = frames@.map_values(|m: OutboundMessage| m@);
            let ghost rest = ids.skip(i as int);
            assert(rest[0] == id.0);
            assert(rest.drop_first() =~= ids.skip(i + 1));
            match self.close_substream(id) {
                Ok(out) => {
                    frames.push(out);
                    assert(frames@.map_values(|m: OutboundMessage| m@) + self@.close_frames(
                        ids.skip(i + 1),
                    ) =~= sofar + before.close_frames(rest));
                },
                Err(_) => {},
            }
            i = i + 1;
        }
        assert(ids.skip(i as int) =~= Seq::<u64>::empty());
        assert(frames@.map_values(|m: OutboundMessage| m@) + Seq::<OutboundMessageView>::empty()
            =~= frames@.map_values(|m: OutboundMessage| m@));
        frames
    }

    fn count_pieces(&self, data: &Vec<u8>) -> (n: usize)
        requires
            self@.max_frame >= 1,
        ensures
            n == pieces(data@, self@.max_frame).len(),
    {
        let max = self.max_data_frame_bytes;
        let len = data.len();
        let mut offset: usize = 0;
        let mut n: usize = 0;
        assert(data@.skip(0) =~= data@);
        while offset < len
            invariant
                max == self@.max_frame,
                max >= 1,
                len == data@.len(),
                n <= offset <= len,
                pieces(data@, max as nat).len() == n + pieces(data@.skip(offset as int), max as nat).len(),
            decreases len - offset,
        {
            let step = if len - offset <= max {
                len - offset
            } else {
                max
            };
            assert(data@.skip(offset as int).skip(step as int) =~= data@.skip(offset + step));
            offset = offset + step;
            n = n + 1;
        }
        n
    }

    /// Writes bytes to a substream: cuts them into data frames, none with
    /// more than the allowed payload, and returns their envelopes in order,
    /// under consecutive nonces. Nothing is written where the substream is
    /// gone or closed, or where the nonces would not suffice.
    pub fn write_data(&mut self, id: SubstreamId, data: &Vec<u8>) -> (r: Result<
        Vec<OutboundMessage>,
        Error,
    >)
        requires
            old(self)@.wf(),
        ensures
            final(self)@.wf(),
            match r {
                Ok(frames) => {
                    let p = pieces(data@, old(self)@.max_frame);
                    &&& old(self)@.write_result(id.0, data@) is Ok
                    &&& frames@.len() == p.len()
                    &&& forall|i: int|
                        0 <= i < p.len() ==> (#[trigger] frames@[i])@ == old(self)@.data_frame(
                            id.0,
                            p[i],
                            i,
                        )
                    &&& final(self)@ == (ConnectionView {
                        nonce: old(self)@.nonce + p.len(),
                        ..old(self)@
                    })
                },
                Err(e) => old(self)@.write_result(id.0, data@) == Err::<(), Error>(e) && final(self)@
                    == old(self)@,
            },
    {
        if !self.is_live(id) {
            return Err(Error::SubstreamClosed);
        }
        let count = self.count_pieces(data);
        if count > 0 && (self.nonce_exhausted || (count - 1) as u64 > u64::MAX - self.message_nonce) {
            return Err(Error::NonceExhausted);
        }
        let max = self.max_data_frame_bytes;
        let len = data.len();
        let mut frames: Vec<OutboundMessage> = Vec::new();
        let mut offset: usize = 0;
        let ghost p = pieces(data@, max as nat);
        assert(data@.skip(0) =~= data@);
        while offset < len
            invariant
                max == old(self)@.max_frame,
                max >= 1,
                len == data@.len(),
                offset <= len,
                p == pieces(data@, max as nat),
                frames@.len() <= p.len(),
                p =~= p.take(frames@.len() as int) + pieces(data@.skip(offset as int), max as nat),
                old(self)@.nonce + p.len() <= u64::MAX + 1,
                self@ == (ConnectionView { nonce: old(self)@.nonce + frames@.len(), ..old(self)@ }),
                forall|i: int|
                    0 <= i < frames@.len() ==> (#[trigger] frames@[i])@ == old(self)@.data_frame(
                        id.0,
                        p[i],
                        i,
                    ),
            decreases len - offset,
        {
            let step = if len - offset <= max {
                len - offset
            } else {
                max
            };
            let ghost k = frames@.len() as int;
            let ghost tail = pieces(data@.skip(offset as int), max as nat);
            assert(tail.len() > 0);
            assert(p[k] == tail[0]);
            assert(tail[0] =~= data@.subrange(offset as int, offset + step));
            let mut piece: Vec<u8> = Vec::new();
            let mut j: usize = 0;
            while j < step
                invariant
                    offset + step <= len,
                    len == data@.len(),
                    j <= step,
                    piece@ == data@.subrange(offset as int, offset + j),
                decreases step - j,
            {
                piece.push(data[offset + j]);
                j = j + 1;
                assert(piece@ =~= data@.subrange(offset as int, offset + j));
            }
            let msg = SubstreamMessage { substream_id: id, message_type: SubstreamMessageType::Data(piece) };
            let ghost before = frames@;
            match self.write(msg) {
                Ok(out) => {
                    frames.push(out);
                },
                Err(e) => {
                    return Err(e);
                },
            }
            assert(data@.skip(offset as int).skip(step as int) =~= data@.skip(offset + step));
            assert(p.take(k + 1) =~= p.take(k).push(p[k]));
            assert(tail.drop_first() =~= pieces(data@.skip(offset + step), max as nat));
            assert(p =~= p.take(k + 1) + pieces(data@.skip(offset + step), max as nat)) by {
                assert(tail =~= seq![tail[0]] + tail.drop_first());
            }
            assert forall|i: int| 0 <= i < frames@.len() implies (#[trigger] frames@[i])@ == old(
                self,
            )@.data_frame(id.0, p[i], i) by {
                if i < k {
                    assert(frames@[i] == before[i]);
                }
            }
            offset = offset + step;
        }
        assert(pieces(data@.skip(offset as int), max as nat) =~= Seq::<Seq<u8>>::empty());
        assert(p.take(frames@.len() as int).len() == p.len());
        Ok(frames)
    }
}

} // verus!
