//! The errors that the transport surfaces.

use vstd::prelude::*;
use vstd::string::*;

verus! {

/// Every way in which an operation of the transport can fail.
#[derive(Debug, Clone, Copy, PartialEq, Eq, Structural)]
pub enum Error {
    /// The address does not end in a `nym` component.
    InvalidProtocolForMultiaddr,
    /// The `nym` component does not hold a well-formed recipient.
    InvalidRecipientBytes,
    /// A connection request names a connection that is already established.
    ConnectionIDExists,
    /// A connection response names a connection that is already established.
    ConnectionAlreadyEstablished,
    /// A connection response names a connection that nobody is dialing.
    NoConnectionForResponse,
    /// The reorder queue released a frame, but its connection is gone.
    NoConnectionForTransportMessage,
    /// The outbound sink is closed.
    OutboundSendFailure,
    /// The inbound channel of a connection is closed.
    InboundSendFailure,
    /// The connection could not be handed to whoever waits for it.
    ConnectionSendFailure,
    /// Nothing will ever arrive on the channel that was polled.
    RecvFailure,
    /// A pending dial saw no response within the handshake timeout.
    DialTimeout,
    /// A connection buffered more out-of-order frames than its cap allows.
    QueueOverflow,
    /// The bytes are not the binary form of any envelope.
    Codec,
    /// An outbound envelope names no destination, or names two.
    InvalidAddressing,
    /// The outbound nonce counter of a connection is used up.
    NonceExhausted,
    /// The substream does not exist, or is closed.
    SubstreamClosed,
    /// The transport is gone: whatever still waits for it fails.
    TransportTerminated,
    /// A frame arrived that the substream protocol does not allow.
    ProtocolViolation,
}

impl Error {
    /// The text that describes each error.
    pub open spec fn text(self) -> Seq<char> {
        match self {
            Error::InvalidProtocolForMultiaddr => "invalid protocol for multiaddress"@,
            Error::InvalidRecipientBytes => "invalid recipient bytes"@,
            Error::ConnectionIDExists => "connection id already exists"@,
            Error::ConnectionAlreadyEstablished => "connection already established"@,
            Error::NoConnectionForResponse => "no connection found for response"@,
            Error::NoConnectionForTransportMessage => "no connection found for transport message"@,
            Error::OutboundSendFailure => "failed to send outbound message"@,
            Error::InboundSendFailure => "failed to send inbound message"@,
            Error::ConnectionSendFailure => "failed to send new connection"@,
            Error::RecvFailure => "failed to receive from channel"@,
            Error::DialTimeout => "dial timed out"@,
            Error::QueueOverflow => "message queue overflow"@,
            Error::Codec => "failed to decode message"@,
            Error::InvalidAddressing => "outbound message must carry exactly one destination"@,
            Error::NonceExhausted => "outbound nonce exhausted"@,
            Error::SubstreamClosed => "substream closed"@,
            Error::TransportTerminated => "transport terminated"@,
            Error::ProtocolViolation => "substream protocol violation"@,
        }
    }

    /// Describes the error in words.
    pub fn message(&self) -> (r: String)
        ensures
            r@ == self.text(),
    {
        match self {
            Error::InvalidProtocolForMultiaddr => "invalid protocol for multiaddress".to_owned(),
            Error::InvalidRecipientBytes => "invalid recipient bytes".to_owned(),
            Error::ConnectionIDExists => "connection id already exists".to_owned(),
            Error::ConnectionAlreadyEstablished => "connection already established".to_owned(),
            Error::NoConnectionForResponse => "no connection found for response".to_owned(),
            Error::NoConnectionForTransportMessage => "no connection found for transport message".to_owned(),
            Error::OutboundSendFailure => "failed to send outbound message".to_owned(),
            Error::InboundSendFailure => "failed to send inbound message".to_owned(),
            Error::ConnectionSendFailure => "failed to send new connection".to_owned(),
            Error::RecvFailure => "failed to receive from channel".to_owned(),
            Error::DialTimeout => "dial timed out".to_owned(),
            Error::QueueOverflow => "message queue overflow".to_owned(),
            Error::Codec => "failed to decode message".to_owned(),
            Error::InvalidAddressing => "outbound message must carry exactly one destination".to_owned(),
            Error::NonceExhausted => "outbound nonce exhausted".to_owned(),
            Error::SubstreamClosed => "substream closed".to_owned(),
            Error::TransportTerminated => "transport terminated".to_owned(),
            Error::ProtocolViolation => "substream protocol violation".to_owned(),
        }
    }
}

} // verus!
