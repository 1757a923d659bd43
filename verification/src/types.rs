//! The plain values that the multiplexer speaks of: peers, connections, requests,
//! and the reasons for which a request fails.

use vstd::prelude::*;
use vstd::slice::slice_to_vec;

verus! {

/// The identity of a peer: the bytes of its identifier.
#[derive(Debug, PartialEq, Eq, Hash)]
pub struct PeerId {
    bytes: Vec<u8>,
}

impl View for PeerId {
    type V = Seq<u8>;

    closed spec fn view(&self) -> Seq<u8> {
        self.bytes@
    }
}

impl Clone for PeerId {
    fn clone(&self) -> (copy: PeerId)
        ensures
            copy@ == self@,
    {
        PeerId { bytes: slice_to_vec(self.bytes.as_slice()) }
    }
}

impl PeerId {
    /// The peer with the given identifier.
    pub fn from_bytes(bytes: Vec<u8>) -> (peer: PeerId)
        ensures
            peer@ == bytes@,
    {
        PeerId { bytes }
    }

    /// The bytes of the identifier.
    pub fn as_bytes(&self) -> (bytes: &Vec<u8>)
        ensures
            bytes@ == self@,
    {
        &self.bytes
    }

    /// Whether two identifiers name the same peer.
    pub fn same(&self, other: &PeerId) -> (r: bool)
        ensures
            r == (self@ == other@),
    {
        let r = self.bytes == other.bytes;
        assert(r == (self.bytes@ =~= other.bytes@));
        r
    }
}

/// The identity of one connection to a peer.
#[derive(Clone, Copy, Debug, PartialEq, Eq, Hash, Structural)]
pub struct ConnectionId(pub u64);

/// The identity of a request. An outbound one is unique within one multiplexer; an
/// inbound one is given by the host and tells the substreams of one peer apart.
#[derive(Clone, Copy, Debug, PartialEq, Eq, Hash, Structural)]
pub struct RequestId(pub u64);

/// The role in which a protocol is advertised.
#[derive(Clone, Copy, Debug, PartialEq, Eq, Structural)]
pub enum ProtocolSupport {
    /// Requests are sent and answered.
    Full,
    /// Requests are sent only: a peer may not send us one.
    Outbound,
}

/// Why an outbound request failed.
#[derive(Clone, Copy, Debug, PartialEq, Eq, Structural)]
pub enum OutboundFailure {
    /// The peer could not be dialled.
    DialFailure,
    /// No response came before the deadline.
    Timeout,
    /// The connection closed before a response came.
    ConnectionClosed,
    /// The peer does not speak the protocol.
    UnsupportedProtocols,
    /// The response is no well-formed message.
    DecodeError,
    /// The response is longer than the protocol admits.
    SizeExceeded,
}

/// Why an inbound request failed on the network.
#[derive(Clone, Copy, Debug, PartialEq, Eq, Structural)]
pub enum InboundFailure {
    /// The request was not read, or not answered, in time.
    Timeout,
    /// We do not speak the protocol that the peer asked for.
    UnsupportedProtocols,
    /// The connection closed before the response was delivered.
    ConnectionClosed,
    /// The request is no well-formed message.
    DecodeError,
    /// The request is longer than the protocol admits.
    SizeExceeded,
}

/// Error when processing a request sent by a remote.
#[derive(Clone, Copy, Debug, PartialEq, Eq, Structural)]
pub enum InboundError {
    /// The response builder was too busy to take the request, or let go of it.
    Busy,
    /// Problem on the network.
    Network(InboundFailure),
}

/// Error when sending a request.
#[derive(Clone, Copy, Debug, PartialEq, Eq, Structural)]
pub enum SendRequestError {
    /// We are not currently connected to the requested peer.
    NotConnected,
    /// Given protocol hasn't been registered.
    UnknownProtocol,
}

/// Error when registering a protocol.
#[derive(Debug, PartialEq, Eq)]
pub enum RegisterError {
    /// A protocol has been specified multiple times.
    DuplicateProtocol(String),
}

/// Where the response to an inbound request goes: the substream on which the request
/// came.
#[derive(Debug, PartialEq, Eq)]
pub struct ResponseChannel {
    pub peer: PeerId,
    pub connection: ConnectionId,
    pub request_id: RequestId,
}

/// A `ResponseChannel` with the peer as its bytes.
pub struct ChannelView {
    pub peer: Seq<u8>,
    pub connection: ConnectionId,
    pub request_id: RequestId,
}

impl View for ResponseChannel {
    type V = ChannelView;

    open spec fn view(&self) -> ChannelView {
        ChannelView { peer: self.peer@, connection: self.connection, request_id: self.request_id }
    }
}

/// Event generated by the multiplexer for its host.
#[derive(Debug, PartialEq, Eq)]
pub enum Event {
    /// A remote sent a request and either we have answered it or an error happened.
    InboundRequest {
        /// Peer which has emitted the request.
        peer: PeerId,
        /// Name of the protocol in question.
        protocol: String,
        /// If `Ok`, the milliseconds between the arrival of the request and the end of
        /// the write of the response. If `Err`, the error that happened.
        outcome: Result<u64, InboundError>,
    },
    /// A request that was sent has succeeded or failed.
    OutboundFinished {
        /// The request in question.
        request_id: RequestId,
        /// Response sent by the remote, or reason for failure.
        outcome: Result<Vec<u8>, OutboundFailure>,
    },
}

/// An `Event` with its byte strings and names as sequences.
pub enum EventView {
    InboundRequest { peer: Seq<u8>, protocol: Seq<char>, outcome: Result<u64, InboundError> },
    OutboundFinished { request_id: RequestId, outcome: Result<Seq<u8>, OutboundFailure> },
}

impl View for Event {
    type V = EventView;

    open spec fn view(&self) -> EventView {
        match *self {
            Event::InboundRequest { peer, protocol, outcome } => EventView::InboundRequest {
                peer: peer@,
                protocol: protocol@,
                outcome,
            },
            Event::OutboundFinished { request_id, outcome } => EventView::OutboundFinished {
                request_id,
                outcome: match outcome {
                    Ok(response) => Ok(response@),
                    Err(e) => Err(e),
                },
            },
        }
    }
}

} // verus!
