//! One registered protocol: who is connected, which requests of ours await a response
//! and until when, and what the multiplexer has yet to hear of.

use crate::codec::{encode_frame, frame, read_frame, CodecError, GenericCodec, ReadStream};
use crate::types::{
    ChannelView, ConnectionId, InboundFailure, OutboundFailure, PeerId, ProtocolSupport,
    RequestId, ResponseChannel,
};
use vstd::prelude::*;

verus! {

/// What the handler of a connection reports of one substream of this protocol.
#[derive(Debug, PartialEq, Eq)]
pub enum HandlerEvent {
    /// The peer opened a substream and sent these bytes on it.
    Request { request_id: RequestId, wire: Vec<u8> },
    /// The peer sent these bytes in answer to a request of ours.
    Response { request_id: RequestId, wire: Vec<u8> },
    /// The response to an inbound request was written out in full.
    ResponseSent(RequestId),
    /// A request of ours failed on the way.
    OutboundFailure { request_id: RequestId, error: OutboundFailure },
    /// An inbound request failed on the way.
    InboundFailure { request_id: RequestId, error: InboundFailure },
}

/// What the handler of a connection is told to write.
#[derive(Debug, PartialEq, Eq)]
pub enum HandlerAction {
    /// Open a substream and write these bytes: a request.
    SendRequest { request_id: RequestId, wire: Vec<u8> },
    /// Write these bytes on the substream of an inbound request: its response.
    SendResponse { request_id: RequestId, wire: Vec<u8> },
}

/// A `HandlerAction` with its bytes as a sequence.
pub enum HandlerActionView {
    SendRequest { request_id: RequestId, wire: Seq<u8> },
    SendResponse { request_id: RequestId, wire: Seq<u8> },
}

impl View for HandlerAction {
    type V = HandlerActionView;

    open spec fn view(&self) -> HandlerActionView {
        match *self {
            HandlerAction::SendRequest { request_id, wire } => HandlerActionView::SendRequest {
                request_id,
                wire: wire@,
            },
            HandlerAction::SendResponse { request_id, wire } => HandlerActionView::SendResponse {
                request_id,
                wire: wire@,
            },
        }
    }
}

/// What an endpoint has to tell the multiplexer.
#[derive(Debug, PartialEq, Eq)]
pub enum EndpointEvent {
    /// A peer sent a request; the response goes to `channel`.
    Request { request: Vec<u8>, channel: ResponseChannel },
    /// A peer answered a request of ours.
    Response { request_id: RequestId, response: Vec<u8> },
    /// A request of ours failed.
    OutboundFailure { request_id: RequestId, error: OutboundFailure },
    /// A request of a peer failed.
    InboundFailure { channel: ResponseChannel, error: InboundFailure },
    /// The handler of a connection has something to write.
    NotifyHandler { peer: PeerId, connection: ConnectionId, event: HandlerAction },
}

/// An `EndpointEvent` with its byte strings as sequences.
pub enum EndpointEventView {
    Request { request: Seq<u8>, channel: ChannelView },
    Response { request_id: RequestId, response: Seq<u8> },
    OutboundFailure { request_id: RequestId, error: OutboundFailure },
    InboundFailure { channel: ChannelView, error: InboundFailure },
    NotifyHandler { peer: Seq<u8>, connection: ConnectionId, event: HandlerActionView },
}

impl View for EndpointEvent {
    type V = EndpointEventView;

    open spec fn view(&self) -> EndpointEventView {
        match *self {
            EndpointEvent::Request { request, channel } => EndpointEventView::Request {
                request: request@,
                channel: channel@,
            },
            EndpointEvent::Response { request_id, response } => EndpointEventView::Response {
                request_id,
                response: response@,
            },
            EndpointEvent::OutboundFailure { request_id, error } => {
                EndpointEventView::OutboundFailure { request_id, error }
            },
            EndpointEvent::InboundFailure { channel, error } => EndpointEventView::InboundFailure {
                channel: channel@,
                error,
            },
            EndpointEvent::NotifyHandler { peer, connection, event } => {
                EndpointEventView::NotifyHandler { peer: peer@, connection, event: event@ }
            },
        }
    }
}

/// A request of ours that awaits its response.
#[derive(Clone, Copy, Debug, PartialEq, Eq, Structural)]
pub struct InFlight {
    pub request_id: RequestId,
    /// The connection on which the request went out.
    pub connection: ConnectionId,
    /// The time, in milliseconds, at which the request is given up.
    pub deadline: u64,
}

/// An established connection.
#[derive(Debug)]
pub struct Connection {
    pub peer: PeerId,
    pub id: ConnectionId,
}

impl View for Connection {
    type V = (Seq<u8>, ConnectionId);

    open spec fn view(&self) -> (Seq<u8>, ConnectionId) {
        (self.peer@, self.id)
    }
}

/// How long a connection is kept open without a request on it, in milliseconds.
pub const CONNECTION_KEEP_ALIVE: u64 = 10_000;

/// The time at which a request sent at `now` is given up.
pub open spec fn deadline(now: u64, timeout: u64) -> u64 {
    if now + timeout > u64::MAX {
        u64::MAX
    } else {
        (now + timeout) as u64
    }
}

/// Why a request that could not be read from `wire` failed: a peer that sent nothing
/// closed the substream on us.
pub open spec fn inbound_reason(wire: Seq<u8>, e: CodecError) -> InboundFailure {
    if wire.len() == 0 {
        InboundFailure::ConnectionClosed
    } else if e is SizeExceeded {
        InboundFailure::SizeExceeded
    } else {
        InboundFailure::DecodeError
    }
}

/// Why a response that could not be read from `wire` failed.
pub open spec fn outbound_reason(wire: Seq<u8>, e: CodecError) -> OutboundFailure {
    if wire.len() == 0 {
        OutboundFailure::ConnectionClosed
    } else if e is SizeExceeded {
        OutboundFailure::SizeExceeded
    } else {
        OutboundFailure::DecodeError
    }
}

/// The position of the first connection to `peer` at or after `from`.
pub open spec fn connection_from(
    connected: Seq<(Seq<u8>, ConnectionId)>,
    peer: Seq<u8>,
    from: int,
) -> Option<int>
    decreases connected.len() - from,
{
    if from < 0 || from >= connected.len() {
        None
    } else if connected[from].0 == peer {
        Some(from)
    } else {
        connection_from(connected, peer, from + 1)
    }
}

/// The position of the first connection `(peer, id)` at or after `from`.
pub open spec fn exact_connection_from(
    connected: Seq<(Seq<u8>, ConnectionId)>,
    peer: Seq<u8>,
    id: ConnectionId,
    from: int,
) -> Option<int>
    decreases connected.len() - from,
{
    if from < 0 || from >= connected.len() {
        None
    } else if connected[from] == (peer, id) {
        Some(from)
    } else {
        exact_connection_from(connected, peer, id, from + 1)
    }
}

/// The connections that are not to `peer`, in order.
pub open spec fn without_peer(connected: Seq<(Seq<u8>, ConnectionId)>, peer: Seq<u8>) -> Seq<
    (Seq<u8>, ConnectionId),
>
    decreases connected.len(),
{
    if connected.len() == 0 {
        connected
    } else if connected.last().0 == peer {
        without_peer(connected.drop_last(), peer)
    } else {
        without_peer(connected.drop_last(), peer).push(connected.last())
    }
}

/// The position of the first request with the given identity at or after `from`.
pub open spec fn request_from(in_flight: Seq<InFlight>, request_id: RequestId, from: int) -> Option<
    int,
>
    decreases in_flight.len() - from,
{
    if from < 0 || from >= in_flight.len() {
        None
    } else if in_flight[from].request_id == request_id {
        Some(from)
    } else {
        request_from(in_flight, request_id, from + 1)
    }
}

/// The position of the first request at or after `from` whose deadline has come.
pub open spec fn expired_from(in_flight: Seq<InFlight>, now: u64, from: int) -> Option<int>
    decreases in_flight.len() - from,
{
    if from < 0 || from >= in_flight.len() {
        None
    } else if in_flight[from].deadline <= now {
        Some(from)
    } else {
        expired_from(in_flight, now, from + 1)
    }
}

/// The requests that did not go out on `connection`, in order.
pub open spec fn on_other_connections(in_flight: Seq<InFlight>, connection: ConnectionId) -> Seq<
    InFlight,
>
    decreases in_flight.len(),
{
    if in_flight.len() == 0 {
        in_flight
    } else if in_flight.last().connection == connection {
        on_other_connections(in_flight.drop_last(), connection)
    } else {
        on_other_connections(in_flight.drop_last(), connection).push(in_flight.last())
    }
}

/// One failure for each request that went out on `connection`, in order.
pub open spec fn closed_failures(in_flight: Seq<InFlight>, connection: ConnectionId) -> Seq<
    EndpointEventView,
>
    decreases in_flight.len(),
{
    if in_flight.len() == 0 {
        Seq::empty()
    } else if in_flight.last().connection == connection {
        closed_failures(in_flight.drop_last(), connection).push(
            EndpointEventView::OutboundFailure {
                request_id: in_flight.last().request_id,
                error: OutboundFailure::ConnectionClosed,
            },
        )
    } else {
        closed_failures(in_flight.drop_last(), connection)
    }
}

/// All that an endpoint holds, as plain sequences.
pub struct EndpointState {
    pub codec: GenericCodec,
    pub support: ProtocolSupport,
    /// How long a request of ours may take, in milliseconds.
    pub request_timeout: u64,
    /// The established connections, oldest first.
    pub connected: Seq<(Seq<u8>, ConnectionId)>,
    /// The requests of ours that await a response, oldest first.
    pub in_flight: Seq<InFlight>,
    /// What the multiplexer has yet to hear of, oldest first.
    pub events: Seq<EndpointEventView>,
}

impl EndpointState {
    /// Whether there is a connection to `peer`.
    pub open spec fn is_connected(self, peer: Seq<u8>) -> bool {
        connection_from(self.connected, peer, 0) is Some
    }

    /// Whether the request awaits its response.
    pub open spec fn is_pending_outbound(self, request_id: RequestId) -> bool {
        request_from(self.in_flight, request_id, 0) is Some
    }

    /// The state with one more event for the multiplexer.
    pub open spec fn with_event(self, event: EndpointEventView) -> EndpointState {
        EndpointState { events: self.events.push(event), ..self }
    }

    /// The state with the request at position `k` no longer awaited.
    pub open spec fn retired(self, k: int) -> EndpointState {
        EndpointState { in_flight: self.in_flight.remove(k), ..self }
    }

    /// A request goes out to a connected peer on its oldest connection, and is
    /// awaited until `deadline(now, request_timeout)`.
    pub open spec fn send_request(
        self,
        request_id: RequestId,
        now: u64,
        peer: Seq<u8>,
        request: Seq<u8>,
    ) -> EndpointState {
        let connection = self.connected[connection_from(self.connected, peer, 0).unwrap()].1;
        EndpointState {
            in_flight: self.in_flight.push(
                InFlight { request_id, connection, deadline: deadline(now, self.request_timeout) },
            ),
            events: self.events.push(
                EndpointEventView::NotifyHandler {
                    peer,
                    connection,
                    event: HandlerActionView::SendRequest { request_id, wire: frame(request) },
                },
            ),
            ..self
        }
    }

    /// The order to write a response on the substream of its request.
    pub open spec fn send_response(channel: ChannelView, response: Seq<u8>) -> EndpointEventView {
        EndpointEventView::NotifyHandler {
            peer: channel.peer,
            connection: channel.connection,
            event: HandlerActionView::SendResponse {
                request_id: channel.request_id,
                wire: frame(response),
            },
        }
    }

    /// A connection was established.
    pub open spec fn connection_established(
        self,
        peer: Seq<u8>,
        connection: ConnectionId,
    ) -> EndpointState {
        EndpointState { connected: self.connected.push((peer, connection)), ..self }
    }

    /// A connection was closed: it is forgotten, and every request that went out on it
    /// fails.
    pub open spec fn connection_closed(self, peer: Seq<u8>, connection: ConnectionId) -> EndpointState {
        EndpointState {
            connected: match exact_connection_from(self.connected, peer, connection, 0) {
                Some(k) => self.connected.remove(k),
                None => self.connected,
            },
            in_flight: on_other_connections(self.in_flight, connection),
            events: self.events + closed_failures(self.in_flight, connection),
            ..self
        }
    }

    /// The last connection to a peer is gone: none to it is kept.
    pub open spec fn disconnected(self, peer: Seq<u8>) -> EndpointState {
        EndpointState { connected: without_peer(self.connected, peer), ..self }
    }

    /// A request of ours is no longer awaited and ends as `event` says. One that is
    /// not awaited, or no longer, changes nothing.
    pub open spec fn resolve(self, request_id: RequestId, event: EndpointEventView) -> EndpointState {
        match request_from(self.in_flight, request_id, 0) {
            Some(k) => self.retired(k).with_event(event),
            None => self,
        }
    }

    /// What a peer's bytes on a new substream come to: a request, or the reason for
    /// which there is none. Nothing where the protocol is not served.
    pub open spec fn inbound(self, channel: ChannelView, wire: Seq<u8>) -> EndpointState {
        if self.support != ProtocolSupport::Full {
            self
        } else {
            match read_frame(self.codec.max_request_size(), wire).0 {
                Ok(request) => self.with_event(EndpointEventView::Request { request, channel }),
                Err(e) => self.with_event(
                    EndpointEventView::InboundFailure { channel, error: inbound_reason(wire, e) },
                ),
            }
        }
    }

    /// An inbound request failed on the way. Nothing comes of it where the protocol
    /// is not served: the peer was turned away, and the host is not told.
    pub open spec fn inbound_failed(self, channel: ChannelView, error: InboundFailure) -> EndpointState {
        if self.support != ProtocolSupport::Full {
            self
        } else {
            self.with_event(EndpointEventView::InboundFailure { channel, error })
        }
    }

    /// What a peer's bytes in answer to a request come to.
    pub open spec fn answered(self, request_id: RequestId, wire: Seq<u8>) -> EndpointState {
        match read_frame(self.codec.max_response_size(), wire).0 {
            Ok(response) => self.resolve(
                request_id,
                EndpointEventView::Response { request_id, response },
            ),
            Err(e) => self.resolve(
                request_id,
                EndpointEventView::OutboundFailure { request_id, error: outbound_reason(wire, e) },
            ),
        }
    }

    /// What the report of a handler changes. That a response was written out is not
    /// the endpoint's business.
    pub open spec fn handler_event(
        self,
        peer: Seq<u8>,
        connection: ConnectionId,
        event: HandlerEvent,
    ) -> EndpointState {
        match event {
            HandlerEvent::Request { request_id, wire } => self.inbound(
                ChannelView { peer, connection, request_id },
                wire@,
            ),
            HandlerEvent::Response { request_id, wire } => self.answered(request_id, wire@),
            HandlerEvent::ResponseSent(_) => self,
            HandlerEvent::OutboundFailure { request_id, error } => self.resolve(
                request_id,
                EndpointEventView::OutboundFailure { request_id, error },
            ),
            HandlerEvent::InboundFailure { request_id, error } => self.inbound_failed(
                ChannelView { peer, connection, request_id },
                error,
            ),
        }
    }

    /// Whether the endpoint has something to tell at time `now`.
    pub open spec fn is_active(self, now: u64) -> bool {
        expired_from(self.in_flight, now, 0) is Some || self.events.len() > 0
    }

    /// The next thing that the endpoint tells at time `now`, and the state after it
    /// was told: first the oldest request whose deadline has come, which times out;
    /// then the oldest event.
    pub open spec fn progress(self, now: u64) -> (EndpointState, Option<EndpointEventView>) {
        match expired_from(self.in_flight, now, 0) {
            Some(k) => (
                self.retired(k),
                Some(
                    EndpointEventView::OutboundFailure {
                        request_id: self.in_flight[k].request_id,
                        error: OutboundFailure::Timeout,
                    },
                ),
            ),
            None => if self.events.len() > 0 {
                (EndpointState { events: self.events.remove(0), ..self }, Some(self.events[0]))
            } else {
                (self, None)
            },
        }
    }
}


/// The connections of a list, each as a pair of plain values.
pub open spec fn connections_view(connected: Seq<Connection>) -> Seq<(Seq<u8>, ConnectionId)> {
    Seq::new(connected.len(), |i: int| connected[i]@)
}

/// The events of a list, each with its byte strings as sequences.
pub open spec fn events_view(events: Seq<EndpointEvent>) -> Seq<EndpointEventView> {
    Seq::new(events.len(), |i: int| events[i]@)
}

/// An event that may be there, with its byte strings as sequences.
pub open spec fn event_view(event: Option<EndpointEvent>) -> Option<EndpointEventView> {
    match event {
        Some(e) => Some(e@),
        None => None,
    }
}

/// One registered protocol.
#[derive(Debug)]
pub struct ProtocolEndpoint {
    codec: GenericCodec,
    support: ProtocolSupport,
    request_timeout: u64,
    connected: Vec<Connection>,
    in_flight: Vec<InFlight>,
    events: Vec<EndpointEvent>,
}

impl View for ProtocolEndpoint {
    type V = EndpointState;

    closed spec fn view(&self) -> EndpointState {
        EndpointState {
            codec: self.codec,
            support: self.support,
            request_timeout: self.request_timeout,
            connected: connections_view(self.connected@),
            in_flight: self.in_flight@,
            events: events_view(self.events@),
        }
    }
}

impl ProtocolEndpoint {
    /// An endpoint to which nobody is connected and which awaits nothing.
    pub fn new(codec: GenericCodec, support: ProtocolSupport, request_timeout: u64) -> (endpoint:
        ProtocolEndpoint)
        ensures
            endpoint@ == (EndpointState {
                codec,
                support,
                request_timeout,
                connected: Seq::empty(),
                in_flight: Seq::empty(),
                events: Seq::empty(),
            }),
    {
        let endpoint = ProtocolEndpoint {
            codec,
            support,
            request_timeout,
            connected: Vec::new(),
            in_flight: Vec::new(),
            events: Vec::new(),
        };
        assert(connections_view(endpoint.connected@) =~= Seq::empty());
        assert(events_view(endpoint.events@) =~= Seq::empty());
        endpoint
    }

    /// The codec of the protocol.
    pub fn codec(&self) -> (codec: GenericCodec)
        ensures
            codec == self@.codec,
    {
        self.codec
    }

    /// The role in which the protocol is advertised.
    pub fn support(&self) -> (support: ProtocolSupport)
        ensures
            support == self@.support,
    {
        self.support
    }

    /// How long a request of ours may take, in milliseconds.
    pub fn request_timeout(&self) -> (timeout: u64)
        ensures
            timeout == self@.request_timeout,
    {
        self.request_timeout
    }

    /// How long a connection is kept open without a request on it, in milliseconds.
    pub fn connection_keep_alive(&self) -> (keep_alive: u64)
        ensures
            keep_alive == CONNECTION_KEEP_ALIVE,
    {
        CONNECTION_KEEP_ALIVE
    }

    /// How many requests of ours await a response.
    pub fn pending_outbound(&self) -> (n: usize)
        ensures
            n == self@.in_flight.len(),
    {
        self.in_flight.len()
    }

    /// The oldest connection to `peer`, if there is one.
    fn connection_to(&self, peer: &PeerId) -> (found: Option<usize>)
        ensures
            match connection_from(self@.connected, peer@, 0) {
                Some(k) => found == Some(k as usize) && 0 <= k < self.connected.len(),
                None => found is None,
            },
    {
        let mut i: usize = 0;
        while i < self.connected.len()
            invariant
                i <= self.connected.len(),
                connection_from(self@.connected, peer@, 0) == connection_from(
                    self@.connected,
                    peer@,
                    i as int,
                ),
            decreases self.connected.len() - i,
        {
            if self.connected[i].peer.same(peer) {
                return Some(i);
            }
            i += 1;
        }
        None
    }

    /// The position of the oldest connection `(peer, connection)`.
    fn find_connection(&self, peer: &PeerId, connection: ConnectionId) -> (found: Option<usize>)
        ensures
            match exact_connection_from(self@.connected, peer@, connection, 0) {
                Some(k) => found == Some(k as usize) && 0 <= k < self.connected.len(),
                None => found is None,
            },
    {
        let mut i: usize = 0;
        while i < self.connected.len()
            invariant
                i <= self.connected.len(),
                exact_connection_from(self@.connected, peer@, connection, 0)
                    == exact_connection_from(self@.connected, peer@, connection, i as int),
            decreases self.connected.len() - i,
        {
            if self.connected[i].id == connection && self.connected[i].peer.same(peer) {
                return Some(i);
            }
            i += 1;
        }
        None
    }

    /// The position of the request in the table of awaited ones.
    fn find_request(&self, request_id: RequestId) -> (found: Option<usize>)
        ensures
            match request_from(self@.in_flight, request_id, 0) {
                Some(k) => found == Some(k as usize) && 0 <= k < self.in_flight.len(),
                None => found is None,
            },
    {
        let mut i: usize = 0;
        while i < self.in_flight.len()
            invariant
                i <= self.in_flight.len(),
                request_from(self@.in_flight, request_id, 0) == request_from(
                    self@.in_flight,
                    request_id,
                    i as int,
                ),
            decreases self.in_flight.len() - i,
        {
            if self.in_flight[i].request_id == request_id {
                return Some(i);
            }
            i += 1;
        }
        None
    }

    /// The position of the oldest request whose deadline has come.
    fn find_expired(&self, now: u64) -> (found: Option<usize>)
        ensures
            match expired_from(self@.in_flight, now, 0) {
                Some(k) => found == Some(k as usize) && 0 <= k < self.in_flight.len(),
                None => found is None,
            },
    {
        let mut i: usize = 0;
        while i < self.in_flight.len()
            invariant
                i <= self.in_flight.len(),
                expired_from(self@.in_flight, now, 0) == expired_from(
                    self@.in_flight,
                    now,
                    i as int,
                ),
            decreases self.in_flight.len() - i,
        {
            if self.in_flight[i].deadline <= now {
                return Some(i);
            }
            i += 1;
        }
        None
    }

    /// Whether there is a connection to `peer`.
    pub fn is_connected(&self, peer: &PeerId) -> (r: bool)
        ensures
            r == self@.is_connected(peer@),
    {
        self.connection_to(peer).is_some()
    }

    /// Whether the request awaits its response.
    pub fn is_pending_outbound(&self, request_id: RequestId) -> (r: bool)
        ensures
            r == self@.is_pending_outbound(request_id),
    {
        self.find_request(request_id).is_some()
    }

    /// Puts one more event in the queue for the multiplexer.
    fn push_event(&mut self, event: EndpointEvent)
        ensures
            final(self)@ == old(self)@.with_event(event@),
    {
        self.events.push(event);
        assert(events_view(self.events@) =~= events_view(old(self).events@).push(event@));
    }

    /// Sends a request to a peer that is connected: the handler of its oldest
    /// connection is told to write it, and its response is awaited until
    /// `now + request_timeout`.
    pub fn send_request(&mut self, request_id: RequestId, now: u64, peer: &PeerId, request: Vec<u8>)
        requires
            old(self)@.is_connected(peer@),
        ensures
            final(self)@ == old(self)@.send_request(request_id, now, peer@, request@),
    {
        let k = self.connection_to(peer).unwrap();
        let connection = self.connected[k].id;
        let deadline = now.saturating_add(self.request_timeout);
        self.in_flight.push(InFlight { request_id, connection, deadline });
        let wire = encode_frame(request.as_slice());
        self.push_event(
            EndpointEvent::NotifyHandler {
                peer: peer.clone(),
                connection,
                event: HandlerAction::SendRequest { request_id, wire },
            },
        );
    }

    /// The order to write a response on the substream of its request.
    pub fn send_response(channel: ResponseChannel, response: Vec<u8>) -> (order: EndpointEvent)
        ensures
            order@ == EndpointState::send_response(channel@, response@),
    {
        let wire = encode_frame(response.as_slice());
        EndpointEvent::NotifyHandler {
            peer: channel.peer,
            connection: channel.connection,
            event: HandlerAction::SendResponse { request_id: channel.request_id, wire },
        }
    }

    /// A connection to `peer` was established.
    pub fn inject_connection_established(&mut self, peer: &PeerId, connection: ConnectionId)
        ensures
            final(self)@ == old(self)@.connection_established(peer@, connection),
    {
        self.connected.push(Connection { peer: peer.clone(), id: connection });
        assert(connections_view(self.connected@) =~= connections_view(old(self).connected@).push(
            (peer@, connection),
        ));
    }

    /// A connection to `peer` was closed.
    pub fn inject_connection_closed(&mut self, peer: &PeerId, connection: ConnectionId)
        ensures
            final(self)@ == old(self)@.connection_closed(peer@, connection),
    {
        let ghost before = self@;
        let found = self.find_connection(peer, connection);
        if let Some(k) = found {
            self.connected.remove(k);
            assert(connections_view(self.connected@) =~= before.connected.remove(k as int));
        }
        let awaited = self.in_flight.len();
        let mut kept: Vec<InFlight> = Vec::new();
        let ghost queued = events_view(self.events@);
        let ghost mid = *self;
        let mut j: usize = 0;
        while j < awaited
            invariant
                j <= awaited,
                self.connected == mid.connected,
                self.codec == mid.codec,
                self.support == mid.support,
                self.request_timeout == mid.request_timeout,
                awaited == self.in_flight.len(),
                self.in_flight@ == before.in_flight,
                queued == before.events,
                kept@ == on_other_connections(before.in_flight.take(j as int), connection),
                events_view(self.events@) == queued + closed_failures(
                    before.in_flight.take(j as int),
                    connection,
                ),
            decreases awaited - j,
        {
            let request = self.in_flight[j];
            let ghost shorter = before.in_flight.take(j as int);
            let ghost longer = before.in_flight.take(j + 1);
            assert(longer.drop_last() =~= shorter);
            assert(longer.last() == request);
            if request.connection == connection {
                let ghost earlier = events_view(self.events@);
                self.events.push(
                    EndpointEvent::OutboundFailure {
                        request_id: request.request_id,
                        error: OutboundFailure::ConnectionClosed,
                    },
                );
                assert(events_view(self.events@) =~= earlier.push(
                    EndpointEventView::OutboundFailure {
                        request_id: request.request_id,
                        error: OutboundFailure::ConnectionClosed,
                    },
                ));
                assert(events_view(self.events@) =~= queued + closed_failures(longer, connection));
            } else {
                kept.push(request);
            }
            j += 1;
        }
        assert(before.in_flight.take(awaited as int) =~= before.in_flight);
        self.in_flight = kept;
    }

    /// The last connection to `peer` is gone.
    pub fn inject_disconnected(&mut self, peer: &PeerId)
        ensures
            final(self)@ == old(self)@.disconnected(peer@),
    {
        let ghost before = self@;
        let total = self.connected.len();
        let mut kept: Vec<Connection> = Vec::new();
        let mut i: usize = 0;
        while i < total
            invariant
                i <= total,
                total == self.connected.len(),
                connections_view(self.connected@) == before.connected,
                connections_view(kept@) == without_peer(before.connected.take(i as int), peer@),
            decreases total - i,
        {
            let ghost shorter = before.connected.take(i as int);
            let ghost longer = before.connected.take(i + 1);
            assert(longer.drop_last() =~= shorter);
            assert(longer.last() == self.connected[i as int]@);
            if !self.connected[i].peer.same(peer) {
                let ghost earlier = connections_view(kept@);
                kept.push(Connection { peer: self.connected[i].peer.clone(), id: self.connected[i].id });
                assert(connections_view(kept@) =~= earlier.push(longer.last()));
            }
            i += 1;
        }
        assert(before.connected.take(total as int) =~= before.connected);
        self.connected = kept;
    }

    /// Retires a request of ours, which ends as `event` says. One that is not
    /// awaited changes nothing.
    fn resolve(&mut self, request_id: RequestId, event: EndpointEvent)
        ensures
            final(self)@ == old(self)@.resolve(request_id, event@),
    {
        match self.find_request(request_id) {
            Some(k) => {
                self.in_flight.remove(k);
                self.push_event(event);
            },
            None => {},
        }
    }

    /// Takes the report of the handler of a connection to `peer`.
    pub fn inject_event(&mut self, peer: PeerId, connection: ConnectionId, event: HandlerEvent)
        ensures
            final(self)@ == old(self)@.handler_event(peer@, connection, event),
    {
        match event {
            HandlerEvent::Request { request_id, wire } => {
                if self.support == ProtocolSupport::Full {
                    let channel = ResponseChannel { peer, connection, request_id };
                    let empty = wire.len() == 0;
                    let mut io = ReadStream::new(wire);
                    assert(io.unread() =~= wire@);
                    match self.codec.read_request(&mut io) {
                        Ok(request) => {
                            self.push_event(EndpointEvent::Request { request, channel });
                        },
                        Err(e) => {
                            let error = if empty {
                                InboundFailure::ConnectionClosed
                            } else {
                                match e {
                                    CodecError::SizeExceeded { .. } => InboundFailure::SizeExceeded,
                                    _ => InboundFailure::DecodeError,
                                }
                            };
                            self.push_event(EndpointEvent::InboundFailure { channel, error });
                        },
                    }
                }
            },
            HandlerEvent::Response { request_id, wire } => {
                let empty = wire.len() == 0;
                let mut io = ReadStream::new(wire);
                assert(io.unread() =~= wire@);
                match self.codec.read_response(&mut io) {
                    Ok(response) => {
                        self.resolve(request_id, EndpointEvent::Response { request_id, response });
                    },
                    Err(e) => {
                        let error = if empty {
                            OutboundFailure::ConnectionClosed
                        } else {
                            match e {
                                CodecError::SizeExceeded { .. } => OutboundFailure::SizeExceeded,
                                _ => OutboundFailure::DecodeError,
                            }
                        };
                        self.resolve(request_id, EndpointEvent::OutboundFailure { request_id, error });
                    },
                }
            },
            HandlerEvent::ResponseSent(_) => {},
            HandlerEvent::OutboundFailure { request_id, error } => {
                self.resolve(request_id, EndpointEvent::OutboundFailure { request_id, error });
            },
            HandlerEvent::InboundFailure { request_id, error } => {
                if self.support == ProtocolSupport::Full {
                    self.push_event(
                        EndpointEvent::InboundFailure {
                            channel: ResponseChannel { peer, connection, request_id },
                            error,
                        },
                    );
                }
            },
        }
    }

    /// Whether the endpoint has something to tell at time `now`.
    pub fn is_active(&self, now: u64) -> (r: bool)
        ensures
            r == self@.is_active(now),
    {
        self.find_expired(now).is_some() || self.events.len() > 0
    }

    /// Tells the next thing that the endpoint has to tell at time `now`, if any: first
    /// the requests whose deadline has come, which time out, then the events in the
    /// order in which they came about.
    pub fn poll(&mut self, now: u64) -> (event: Option<EndpointEvent>)
        ensures
            (final(self)@, event_view(event)) == old(self)@.progress(now),
    {
        match self.find_expired(now) {
            Some(k) => {
                let request = self.in_flight.remove(k);
                Some(
                    EndpointEvent::OutboundFailure {
                        request_id: request.request_id,
                        error: OutboundFailure::Timeout,
                    },
                )
            },
            None => {
                if self.events.len() > 0 {
                    let event = self.events.remove(0);
                    assert(events_view(self.events@) =~= events_view(old(self).events@).remove(0));
                    Some(event)
                } else {
                    None
                }
            },
        }
    }
}

} // verus!
