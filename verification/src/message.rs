//! The envelopes that travel over the mixnet, and their mathematical views.

use vstd::prelude::*;
use crate::address::Recipient;
use crate::error::Error;

verus! {

/// Identifies one connection. The dialer mints it; both ends key their state by it.
#[derive(Debug, Clone, Copy, PartialEq, Eq, Hash, Structural)]
pub struct ConnectionId(pub u128);

/// Identifies one substream within its connection.
#[derive(Debug, Clone, Copy, PartialEq, Eq, Hash, Structural)]
pub struct SubstreamId(pub u64);

/// The handle by which an anonymous sender can be answered.
#[derive(Debug, Clone, Copy, PartialEq, Eq, Hash, Structural)]
pub struct AnonymousSenderTag(pub u128);

/// The identifier that a peer claims for itself, as raw bytes.
#[derive(Debug, Clone, PartialEq, Eq, Hash)]
pub struct PeerId {
    pub bytes: Vec<u8>,
}

impl View for PeerId {
    type V = Seq<u8>;

    open spec fn view(&self) -> Seq<u8> {
        self.bytes@
    }
}

/// Copies a byte vector.
pub fn copy_bytes(src: &Vec<u8>) -> (r: Vec<u8>)
    ensures
        r@ == src@,
{
    let mut out: Vec<u8> = Vec::new();
    let mut i: usize = 0;
    while i < src.len()
        invariant
            i <= src.len(),
            out@ == src@.subrange(0, i as int),
        decreases src.len() - i,
    {
        out.push(src[i]);
        i = i + 1;
        assert(out@ =~= src@.subrange(0, i as int));
    }
    assert(src@.subrange(0, src.len() as int) =~= src@);
    out
}

impl PeerId {
    /// A peer identifier that holds the given bytes.
    pub fn from_bytes(bytes: Vec<u8>) -> (r: PeerId)
        ensures
            r@ == bytes@,
    {
        PeerId { bytes }
    }

    /// A second value that holds the same bytes.
    pub fn duplicate(&self) -> (r: PeerId)
        ensures
            r@ == self@,
    {
        PeerId { bytes: copy_bytes(&self.bytes) }
    }
}

/// What a substream message asks for or carries.
#[derive(Debug, Clone, PartialEq, Eq)]
pub enum SubstreamMessageType {
    OpenRequest,
    OpenResponse,
    Data(Vec<u8>),
    Close,
}

/// The view of a [`SubstreamMessageType`].
pub enum SubstreamKind {
    OpenRequest,
    OpenResponse,
    Data(Seq<u8>),
    Close,
}

impl View for SubstreamMessageType {
    type V = SubstreamKind;

    open spec fn view(&self) -> SubstreamKind {
        match self {
            SubstreamMessageType::OpenRequest => SubstreamKind::OpenRequest,
            SubstreamMessageType::OpenResponse => SubstreamKind::OpenResponse,
            SubstreamMessageType::Data(d) => SubstreamKind::Data(d@),
            SubstreamMessageType::Close => SubstreamKind::Close,
        }
    }
}

/// A message of the substream protocol.
#[derive(Debug, Clone, PartialEq, Eq)]
pub struct SubstreamMessage {
    pub substream_id: SubstreamId,
    pub message_type: SubstreamMessageType,
}

/// The view of a [`SubstreamMessage`].
pub struct SubstreamMessageView {
    pub substream_id: u64,
    pub kind: SubstreamKind,
}

impl View for SubstreamMessage {
    type V = SubstreamMessageView;

    open spec fn view(&self) -> SubstreamMessageView {
        SubstreamMessageView { substream_id: self.substream_id.0, kind: self.message_type@ }
    }
}

impl SubstreamMessage {
    /// A second value that holds the same message.
    pub fn duplicate(&self) -> (r: SubstreamMessage)
        ensures
            r@ == self@,
    {
        let message_type = match &self.message_type {
            SubstreamMessageType::OpenRequest => SubstreamMessageType::OpenRequest,
            SubstreamMessageType::OpenResponse => SubstreamMessageType::OpenResponse,
            SubstreamMessageType::Data(d) => SubstreamMessageType::Data(copy_bytes(d)),
            SubstreamMessageType::Close => SubstreamMessageType::Close,
        };
        SubstreamMessage { substream_id: self.substream_id, message_type }
    }
}

/// The body of a connection request and of a connection response.
#[derive(Debug, Clone, PartialEq, Eq)]
pub struct ConnectionMessage {
    pub peer_id: PeerId,
    pub id: ConnectionId,
}

/// The view of a [`ConnectionMessage`].
pub struct ConnectionMessageView {
    pub peer_id: Seq<u8>,
    pub id: u128,
}

impl View for ConnectionMessage {
    type V = ConnectionMessageView;

    open spec fn view(&self) -> ConnectionMessageView {
        ConnectionMessageView { peer_id: self.peer_id@, id: self.id.0 }
    }
}

/// One frame of a connection: a substream message under a nonce.
#[derive(Debug, Clone, PartialEq, Eq)]
pub struct TransportMessage {
    pub nonce: u64,
    pub message: SubstreamMessage,
    pub id: ConnectionId,
}

/// The view of a [`TransportMessage`].
pub struct TransportMessageView {
    pub nonce: u64,
    pub message: SubstreamMessageView,
    pub id: u128,
}

impl View for TransportMessage {
    type V = TransportMessageView;

    open spec fn view(&self) -> TransportMessageView {
        TransportMessageView { nonce: self.nonce, message: self.message@, id: self.id.0 }
    }
}

/// The envelope: one of the three messages that go over the wire.
#[derive(Debug, Clone, PartialEq, Eq)]
pub enum Message {
    ConnectionRequest(ConnectionMessage),
    ConnectionResponse(ConnectionMessage),
    TransportMessage(TransportMessage),
}

/// The view of a [`Message`].
pub enum MessageView {
    ConnectionRequest(ConnectionMessageView),
    ConnectionResponse(ConnectionMessageView),
    TransportMessage(TransportMessageView),
}

impl View for Message {
    type V = MessageView;

    open spec fn view(&self) -> MessageView {
        match self {
            Message::ConnectionRequest(m) => MessageView::ConnectionRequest(m@),
            Message::ConnectionResponse(m) => MessageView::ConnectionResponse(m@),
            Message::TransportMessage(m) => MessageView::TransportMessage(m@),
        }
    }
}

/// The view of an `Option<Recipient>`.
pub open spec fn recipient_view(r: Option<Recipient>) -> Option<Seq<char>> {
    match r {
        Some(x) => Some(x@),
        None => None,
    }
}

/// The view of an `Option<AnonymousSenderTag>`.
pub open spec fn tag_view(t: Option<AnonymousSenderTag>) -> Option<u128> {
    match t {
        Some(x) => Some(x.0),
        None => None,
    }
}

/// An envelope on its way out, with where it goes.
#[derive(Debug, Clone, PartialEq, Eq)]
pub struct OutboundMessage {
    pub message: Message,
    pub recipient: Option<Recipient>,
    pub sender_tag: Option<AnonymousSenderTag>,
}

/// The view of an [`OutboundMessage`].
pub struct OutboundMessageView {
    pub message: MessageView,
    pub recipient: Option<Seq<char>>,
    pub sender_tag: Option<u128>,
}

impl View for OutboundMessage {
    type V = OutboundMessageView;

    open spec fn view(&self) -> OutboundMessageView {
        OutboundMessageView {
            message: self.message@,
            recipient: recipient_view(self.recipient),
            sender_tag: tag_view(self.sender_tag),
        }
    }
}

/// Where an outbound envelope goes: to an address, or back along a reply tag.
#[derive(Debug, Clone, PartialEq, Eq)]
pub enum Destination {
    Direct(Recipient),
    Reply(AnonymousSenderTag),
}

/// The view of a [`Destination`].
pub enum DestinationView {
    Direct(Seq<char>),
    Reply(u128),
}

impl View for Destination {
    type V = DestinationView;

    open spec fn view(&self) -> DestinationView {
        match self {
            Destination::Direct(r) => DestinationView::Direct(r@),
            Destination::Reply(t) => DestinationView::Reply(t.0),
        }
    }
}

impl OutboundMessage {
    /// The destination of the envelope. An envelope must name exactly one:
    /// with none, or with both, it is refused.
    pub fn destination(&self) -> (r: Result<Destination, Error>)
        ensures
            match (self@.recipient, self@.sender_tag) {
                (Some(a), None) => r is Ok && r->Ok_0@ == DestinationView::Direct(a),
                (None, Some(t)) => r is Ok && r->Ok_0@ == DestinationView::Reply(t),
                _ => r == Err::<Destination, Error>(Error::InvalidAddressing),
            },
    {
        match (&self.recipient, &self.sender_tag) {
            (Some(a), None) => Ok(Destination::Direct(a.duplicate())),
            (None, Some(t)) => Ok(Destination::Reply(*t)),
            _ => Err(Error::InvalidAddressing),
        }
    }
}

/// An envelope as it arrives, with the reply tag that came with it.
#[derive(Debug, Clone, PartialEq, Eq)]
pub struct InboundMessage(pub Message, pub Option<AnonymousSenderTag>);

/// The view of an [`InboundMessage`].
pub struct InboundMessageView {
    pub message: MessageView,
    pub sender_tag: Option<u128>,
}

impl View for InboundMessage {
    type V = InboundMessageView;

    open spec fn view(&self) -> InboundMessageView {
        InboundMessageView { message: self.0@, sender_tag: tag_view(self.1) }
    }
}

} // verus!
