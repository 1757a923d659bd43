//! The multiplexer: a set of protocols by name, the inbound requests whose response is
//! being built, and the one step that the host takes again and again.

use crate::codec::GenericCodec;
use crate::endpoint::{
    EndpointEvent, EndpointEventView, EndpointState, HandlerAction, HandlerActionView,
    HandlerEvent, ProtocolEndpoint, CONNECTION_KEEP_ALIVE,
};
use crate::types::{
    ChannelView, ConnectionId, Event, EventView, InboundError, PeerId, ProtocolSupport,
    RegisterError, RequestId, ResponseChannel, SendRequestError,
};
use vstd::prelude::*;

verus! {

/// `futures::channel::mpsc::Sender`: the sending end of a bounded channel. Nothing is
/// known of what is in it.
#[verifier::external_type_specification]
#[verifier::external_body]
#[verifier::reject_recursive_types(T)]
pub struct ExSubmissionSender<T>(futures::channel::mpsc::Sender<T>);

/// `futures::channel::oneshot::Sender`: the sending end of a channel for one value.
/// Nothing is known of what is in it.
#[verifier::external_type_specification]
#[verifier::external_body]
#[verifier::reject_recursive_types(T)]
pub struct ExReplySender<T>(futures::channel::oneshot::Sender<T>);

/// `futures::channel::oneshot::Receiver`: the receiving end of a channel for one
/// value. Nothing is known of what is in it.
#[verifier::external_type_specification]
#[verifier::external_body]
#[verifier::reject_recursive_types(T)]
pub struct ExReplyReceiver<T>(futures::channel::oneshot::Receiver<T>);

/// `futures::channel::oneshot::Canceled`: what the receiving end of a channel for one
/// value gives where the sending end was let go of. Declared because the receiving
/// end names it.
#[verifier::external_type_specification]
#[verifier::external_body]
pub struct ExReplyCanceled(futures::channel::oneshot::Canceled);

/// A single request received by a peer on a request-response protocol.
#[derive(Debug)]
pub struct IncomingRequest {
    /// Who sent the request.
    pub origin: PeerId,
    /// Request sent by the remote. Never longer than the protocol admits.
    pub request_bytes: Vec<u8>,
    /// Channel to send back the response to. Letting go of it without sending tells
    /// the remote that we are busy.
    pub answer: futures::channel::oneshot::Sender<Vec<u8>>,
}

/// Configuration for a single request-response protocol.
#[derive(Debug, Clone)]
pub struct ProtocolConfig {
    /// Name of the protocol on the wire. Should be something like `/foo/bar`.
    pub name: String,
    /// Maximum allowed size, in bytes, of a request.
    pub max_request_size: usize,
    /// Maximum allowed size, in bytes, of a response.
    pub max_response_size: usize,
    /// Milliseconds after which emitted requests are considered timed out.
    pub request_timeout: u64,
    /// Channel on which incoming requests are handed to whoever builds the
    /// responses. Its capacity is the one knob of admission: when it is full, an
    /// incoming request fails as busy.
    ///
    /// `None` if the local node does not answer requests of this protocol, which is
    /// then not advertised to peers.
    pub requests_processing: Option<futures::channel::mpsc::Sender<IncomingRequest>>,
}

/// How far the response to an inbound request has come.
#[derive(Debug, PartialEq, Eq)]
pub enum ResponseState {
    /// The response is being built.
    Waiting,
    /// The response was built and is yet to be handed to the connection.
    Answered(Vec<u8>),
    /// Whoever was to build the response let go of it.
    Dropped,
    /// The response is being written out.
    Sending,
    /// The response was written out in full.
    Completed,
}

/// A `ResponseState` with the response as a sequence.
pub enum ResponseStateView {
    Waiting,
    Answered(Seq<u8>),
    Dropped,
    Sending,
    Completed,
}

impl View for ResponseState {
    type V = ResponseStateView;

    open spec fn view(&self) -> ResponseStateView {
        match *self {
            ResponseState::Waiting => ResponseStateView::Waiting,
            ResponseState::Answered(response) => ResponseStateView::Answered(response@),
            ResponseState::Dropped => ResponseStateView::Dropped,
            ResponseState::Sending => ResponseStateView::Sending,
            ResponseState::Completed => ResponseStateView::Completed,
        }
    }
}

/// An inbound request that was taken in and of which the host has not been told
/// the end yet.
#[derive(Debug)]
pub struct PendingResponse {
    /// By what the host names this request when it brings the response.
    pub slot: u64,
    /// The name of the protocol.
    pub protocol: String,
    /// Where the response goes.
    pub channel: ResponseChannel,
    /// When the request was taken in, in milliseconds.
    pub received_at: u64,
    pub state: ResponseState,
}

/// A `PendingResponse` as plain values.
pub struct PendingView {
    pub slot: u64,
    pub protocol: Seq<char>,
    pub channel: ChannelView,
    pub received_at: u64,
    pub state: ResponseStateView,
}

impl View for PendingResponse {
    type V = PendingView;

    open spec fn view(&self) -> PendingView {
        PendingView {
            slot: self.slot,
            protocol: self.protocol@,
            channel: self.channel@,
            received_at: self.received_at,
            state: self.state@,
        }
    }
}

/// What one step of the multiplexer asks of the host.
#[derive(Debug)]
pub enum Progress {
    /// Nothing, until something new is brought in.
    Pending,
    /// To take note of an event.
    GenerateEvent(Event),
    /// To pass an order to the handler of a connection. The order is tagged with the
    /// name of the protocol that gave it.
    NotifyHandler { peer: PeerId, connection: ConnectionId, protocol: String, event: HandlerAction },
    /// To await the response to an inbound request on `receiver`, and to bring what
    /// comes of it under the name `slot`.
    AwaitResponse { slot: u64, receiver: futures::channel::oneshot::Receiver<Vec<u8>> },
}

/// A `Progress` as plain values. The receiver of a response has none.
pub enum ProgressView {
    Pending,
    GenerateEvent(EventView),
    NotifyHandler {
        peer: Seq<u8>,
        connection: ConnectionId,
        protocol: Seq<char>,
        event: HandlerActionView,
    },
    AwaitResponse { slot: u64 },
}

impl View for Progress {
    type V = ProgressView;

    open spec fn view(&self) -> ProgressView {
        match *self {
            Progress::Pending => ProgressView::Pending,
            Progress::GenerateEvent(event) => ProgressView::GenerateEvent(event@),
            Progress::NotifyHandler { peer, connection, protocol, event } => {
                ProgressView::NotifyHandler {
                    peer: peer@,
                    connection,
                    protocol: protocol@,
                    event: event@,
                }
            },
            Progress::AwaitResponse { slot, receiver } => ProgressView::AwaitResponse { slot },
        }
    }
}

/// What the handler of a connection is set up with for one protocol.
#[derive(Debug, PartialEq, Eq)]
pub struct HandlerConfig {
    /// The name of the protocol, by which the reports of the handler are tagged.
    pub protocol: String,
    /// Whether substreams that a peer opens for the protocol are taken.
    pub inbound: bool,
    pub codec: GenericCodec,
    /// How long a connection is kept open without a request on it, in milliseconds.
    pub connection_keep_alive: u64,
    /// How long a request may take, in milliseconds.
    pub request_timeout: u64,
}

/// What happened to the connections of a peer.
#[derive(Clone, Copy, Debug, PartialEq, Eq, Structural)]
pub enum ConnectionChange {
    /// A connection was established.
    Established(ConnectionId),
    /// A connection was closed.
    Closed(ConnectionId),
    /// The last connection was closed.
    Disconnected,
}

/// One registered protocol as plain values.
pub struct ProtocolState {
    pub name: Seq<char>,
    /// Whether incoming requests have somewhere to go.
    pub has_channel: bool,
    pub endpoint: EndpointState,
}

/// All that a multiplexer holds, as plain values.
pub struct State {
    /// The protocols in the order in which they were registered.
    pub protocols: Seq<ProtocolState>,
    /// The inbound requests that were taken in, oldest first.
    pub tasks: Seq<PendingView>,
    /// The identity of the next request of ours.
    pub next_request_id: u64,
    /// The name under which the host brings the response to the next inbound request.
    pub next_slot: u64,
}

/// The role of a protocol: one that has somewhere to put incoming requests is
/// served, another is only spoken.
pub open spec fn support_of(has_channel: bool) -> ProtocolSupport {
    if has_channel {
        ProtocolSupport::Full
    } else {
        ProtocolSupport::Outbound
    }
}

/// A protocol as it is registered from its configuration.
pub open spec fn registered(config: ProtocolConfig) -> ProtocolState {
    ProtocolState {
        name: config.name@,
        has_channel: config.requests_processing is Some,
        endpoint: EndpointState {
            codec: GenericCodec::new(config.max_request_size, config.max_response_size),
            support: support_of(config.requests_processing is Some),
            request_timeout: config.request_timeout,
            connected: Seq::empty(),
            in_flight: Seq::empty(),
            events: Seq::empty(),
        },
    }
}

/// The multiplexer right after the given protocols were registered.
pub open spec fn initial(list: Seq<ProtocolConfig>) -> State {
    State {
        protocols: Seq::new(list.len(), |i: int| registered(list[i])),
        tasks: Seq::empty(),
        next_request_id: 1,
        next_slot: 1,
    }
}

/// Whether no two of the configurations share a name.
pub open spec fn names_distinct(list: Seq<ProtocolConfig>) -> bool {
    forall|i: int, j: int| 0 <= i < j < list.len() ==> list[i].name@ != list[j].name@
}

/// Whether the name at position `j` stands at an earlier position too.
pub open spec fn repeats_earlier(list: Seq<ProtocolConfig>, j: int) -> bool {
    exists|i: int| 0 <= i < j && list[i].name@ == list[j].name@
}

/// The first position at or after `from` whose name stands at an earlier position.
pub open spec fn first_repeat(list: Seq<ProtocolConfig>, from: int) -> Option<int>
    decreases list.len() - from,
{
    if from < 0 || from >= list.len() {
        None
    } else if repeats_earlier(list, from) {
        Some(from)
    } else {
        first_repeat(list, from + 1)
    }
}

/// The position of the first protocol called `name` at or after `from`.
pub open spec fn protocol_from(protocols: Seq<ProtocolState>, name: Seq<char>, from: int) -> Option<
    int,
>
    decreases protocols.len() - from,
{
    if from < 0 || from >= protocols.len() {
        None
    } else if protocols[from].name == name {
        Some(from)
    } else {
        protocol_from(protocols, name, from + 1)
    }
}

/// Whether the host is to be told of an inbound request at once: its response was
/// built, or given up, or written out.
pub open spec fn is_ready(state: ResponseStateView) -> bool {
    !(state is Waiting) && !(state is Sending)
}

/// The position of the first inbound request at or after `from` of which the host is
/// to be told at once.
pub open spec fn ready_from(tasks: Seq<PendingView>, from: int) -> Option<int>
    decreases tasks.len() - from,
{
    if from < 0 || from >= tasks.len() {
        None
    } else if is_ready(tasks[from].state) {
        Some(from)
    } else {
        ready_from(tasks, from + 1)
    }
}

/// The position of the first inbound request at or after `from` that came for the
/// given protocol on the given substream.
pub open spec fn task_from(
    tasks: Seq<PendingView>,
    protocol: Seq<char>,
    channel: ChannelView,
    from: int,
) -> Option<int>
    decreases tasks.len() - from,
{
    if from < 0 || from >= tasks.len() {
        None
    } else if tasks[from].protocol == protocol && tasks[from].channel == channel {
        Some(from)
    } else {
        task_from(tasks, protocol, channel, from + 1)
    }
}

/// The position of the first inbound request at or after `from` that came for the
/// given protocol on the given substream and whose response is being written out.
pub open spec fn sending_from(
    tasks: Seq<PendingView>,
    protocol: Seq<char>,
    channel: ChannelView,
    from: int,
) -> Option<int>
    decreases tasks.len() - from,
{
    if from < 0 || from >= tasks.len() {
        None
    } else if tasks[from].protocol == protocol && tasks[from].channel == channel
        && tasks[from].state is Sending {
        Some(from)
    } else {
        sending_from(tasks, protocol, channel, from + 1)
    }
}

/// The position of the first inbound request at or after `from` that goes by the name
/// `slot` and whose response is being built.
pub open spec fn waiting_from(tasks: Seq<PendingView>, slot: u64, from: int) -> Option<int>
    decreases tasks.len() - from,
{
    if from < 0 || from >= tasks.len() {
        None
    } else if tasks[from].slot == slot && tasks[from].state is Waiting {
        Some(from)
    } else {
        waiting_from(tasks, slot, from + 1)
    }
}

/// The position of the first protocol at or after `from` that has something to tell
/// at time `now`.
pub open spec fn active_from(protocols: Seq<ProtocolState>, now: u64, from: int) -> Option<int>
    decreases protocols.len() - from,
{
    if from < 0 || from >= protocols.len() {
        None
    } else if protocols[from].endpoint.is_active(now) {
        Some(from)
    } else {
        active_from(protocols, now, from + 1)
    }
}

/// The milliseconds from `since` to `now`; none where the clock went back.
pub open spec fn elapsed(now: u64, since: u64) -> u64 {
    if now >= since {
        (now - since) as u64
    } else {
        0
    }
}

/// What the change to the connections of `peer` does to one endpoint.
pub open spec fn endpoint_change(endpoint: EndpointState, peer: Seq<u8>, change: ConnectionChange)
    -> EndpointState {
    match change {
        ConnectionChange::Established(connection) => endpoint.connection_established(
            peer,
            connection,
        ),
        ConnectionChange::Closed(connection) => endpoint.connection_closed(peer, connection),
        ConnectionChange::Disconnected => endpoint.disconnected(peer),
    }
}

/// The order of an endpoint to a handler, tagged with the name of the protocol.
pub open spec fn tagged(name: Seq<char>, order: EndpointEventView) -> ProgressView {
    match order {
        EndpointEventView::NotifyHandler { peer, connection, event } => ProgressView::NotifyHandler {
            peer,
            connection,
            protocol: name,
            event,
        },
        _ => ProgressView::Pending,
    }
}

/// The event that tells how an inbound request ended.
pub open spec fn inbound_event(peer: Seq<u8>, protocol: Seq<char>, outcome: Result<u64, InboundError>)
    -> ProgressView {
    ProgressView::GenerateEvent(EventView::InboundRequest { peer, protocol, outcome })
}

impl State {
    /// The position of the protocol called `name`.
    pub open spec fn find_protocol(self, name: Seq<char>) -> Option<int> {
        protocol_from(self.protocols, name, 0)
    }

    /// The state with another endpoint at position `i`.
    pub open spec fn with_endpoint(self, i: int, endpoint: EndpointState) -> State {
        State {
            protocols: self.protocols.update(i, ProtocolState { endpoint, ..self.protocols[i] }),
            ..self
        }
    }

    /// Sending a request: it fails where the protocol is not registered or the peer is
    /// not connected on it; else the request gets the next identity and goes out.
    pub open spec fn send_request(
        self,
        now: u64,
        target: Seq<u8>,
        protocol: Seq<char>,
        request: Seq<u8>,
    ) -> (State, Result<RequestId, SendRequestError>) {
        match self.find_protocol(protocol) {
            None => (self, Err(SendRequestError::UnknownProtocol)),
            Some(i) => {
                let endpoint = self.protocols[i].endpoint;
                if !endpoint.is_connected(target) {
                    (self, Err(SendRequestError::NotConnected))
                } else {
                    let request_id = RequestId(self.next_request_id);
                    (
                        State {
                            next_request_id: (self.next_request_id + 1) as u64,
                            ..self.with_endpoint(
                                i,
                                endpoint.send_request(request_id, now, target, request),
                            )
                        },
                        Ok(request_id),
                    )
                }
            },
        }
    }

    /// A change to the connections of `peer` is told to every endpoint.
    pub open spec fn connection_change(self, peer: Seq<u8>, change: ConnectionChange) -> State {
        State {
            protocols: Seq::new(
                self.protocols.len(),
                |i: int|
                    ProtocolState {
                        endpoint: endpoint_change(self.protocols[i].endpoint, peer, change),
                        ..self.protocols[i]
                    },
            ),
            ..self
        }
    }

    /// The report of a handler goes to the endpoint of the protocol that it is tagged
    /// with; one tagged with an unknown name is dropped. That a response was written
    /// out completes the inbound request that it answers.
    pub open spec fn handler_event(
        self,
        peer: Seq<u8>,
        connection: ConnectionId,
        protocol: Seq<char>,
        event: HandlerEvent,
    ) -> State {
        match self.find_protocol(protocol) {
            None => self,
            Some(i) => match event {
                HandlerEvent::ResponseSent(request_id) => match sending_from(
                    self.tasks,
                    protocol,
                    ChannelView { peer, connection, request_id },
                    0,
                ) {
                    Some(k) => State {
                        tasks: self.tasks.update(
                            k,
                            PendingView { state: ResponseStateView::Completed, ..self.tasks[k] },
                        ),
                        ..self
                    },
                    None => self,
                },
                _ => self.with_endpoint(
                    i,
                    self.protocols[i].endpoint.handler_event(peer, connection, event),
                ),
            },
        }
    }

    /// What was to come on the channel of the inbound request called `slot` came:
    /// the response, or nothing. Only a request whose response is being built takes
    /// it, and only once.
    pub open spec fn answer(self, slot: u64, answer: Option<Seq<u8>>) -> (State, bool) {
        match waiting_from(self.tasks, slot, 0) {
            Some(k) => (
                State {
                    tasks: self.tasks.update(
                        k,
                        PendingView {
                            state: match answer {
                                Some(response) => ResponseStateView::Answered(response),
                                None => ResponseStateView::Dropped,
                            },
                            ..self.tasks[k]
                        },
                    ),
                    ..self
                },
                true,
            ),
            None => (self, false),
        }
    }

    /// The host is told of the inbound request at position `k`: a response that was
    /// built goes to the connection, and the request stays until it is written out.
    /// A request that was given up, or whose response was written out, leaves with
    /// the event that says so.
    pub open spec fn finish(self, k: int, now: u64) -> (State, ProgressView) {
        let task = self.tasks[k];
        let name = task.protocol;
        match task.state {
            ResponseStateView::Answered(response) => (
                State {
                    tasks: self.tasks.update(
                        k,
                        PendingView { state: ResponseStateView::Sending, ..task },
                    ),
                    ..self
                },
                tagged(name, EndpointState::send_response(task.channel, response)),
            ),
            ResponseStateView::Dropped => (
                State { tasks: self.tasks.remove(k), ..self },
                inbound_event(task.channel.peer, name, Err(InboundError::Busy)),
            ),
            _ => (
                State { tasks: self.tasks.remove(k), ..self },
                inbound_event(task.channel.peer, name, Ok(elapsed(now, task.received_at))),
            ),
        }
    }

    /// An inbound request came for the protocol at position `i`. Where it was handed
    /// on, it is taken in under the next name. Where it was not, or no name is left,
    /// it fails as busy and leaves no trace.
    pub open spec fn take_in(self, i: int, channel: ChannelView, now: u64, accepted: bool) -> (
        State,
        ProgressView,
    ) {
        if accepted && self.protocols[i].has_channel && self.next_slot < u64::MAX {
            (
                State {
                    tasks: self.tasks.push(
                        PendingView {
                            slot: self.next_slot,
                            protocol: self.protocols[i].name,
                            channel,
                            received_at: now,
                            state: ResponseStateView::Waiting,
                        },
                    ),
                    next_slot: (self.next_slot + 1) as u64,
                    ..self
                },
                ProgressView::AwaitResponse { slot: self.next_slot },
            )
        } else {
            (self, inbound_event(channel.peer, self.protocols[i].name, Err(InboundError::Busy)))
        }
    }

    /// The state without the first inbound request that came for the protocol called
    /// `name` on the given substream, if there is one.
    pub open spec fn without_task(self, name: Seq<char>, channel: ChannelView) -> State {
        match task_from(self.tasks, name, channel, 0) {
            Some(k) => State { tasks: self.tasks.remove(k), ..self },
            None => self,
        }
    }

    /// The endpoint at position `i` tells the next thing that it has to tell.
    pub open spec fn surface(self, i: int, now: u64, accepted: bool) -> (State, ProgressView) {
        let (endpoint, event) = self.protocols[i].endpoint.progress(now);
        let next = self.with_endpoint(i, endpoint);
        let name = self.protocols[i].name;
        match event {
            None => (next, ProgressView::Pending),
            Some(EndpointEventView::Request { request, channel }) => next.take_in(
                i,
                channel,
                now,
                accepted,
            ),
            Some(EndpointEventView::Response { request_id, response }) => (
                next,
                ProgressView::GenerateEvent(
                    EventView::OutboundFinished { request_id, outcome: Ok(response) },
                ),
            ),
            Some(EndpointEventView::OutboundFailure { request_id, error }) => (
                next,
                ProgressView::GenerateEvent(
                    EventView::OutboundFinished { request_id, outcome: Err(error) },
                ),
            ),
            Some(EndpointEventView::InboundFailure { channel, error }) => (
                next.without_task(name, channel),
                inbound_event(channel.peer, name, Err(InboundError::Network(error))),
            ),
            Some(EndpointEventView::NotifyHandler { peer, connection, event }) => (
                next,
                ProgressView::NotifyHandler { peer, connection, protocol: name, event },
            ),
        }
    }

    /// One step at time `now`. First come the inbound requests of which the host is
    /// to be told, oldest first. Then come the endpoints in the order in which they
    /// were registered, each with the next thing that it has to tell. `accepted` says
    /// whether an inbound request that the step takes from an endpoint was handed on.
    pub open spec fn poll(self, now: u64, accepted: bool) -> (State, ProgressView) {
        match ready_from(self.tasks, 0) {
            Some(k) => self.finish(k, now),
            None => match active_from(self.protocols, now, 0) {
                Some(i) => self.surface(i, now, accepted),
                None => (self, ProgressView::Pending),
            },
        }
    }
}


/// One registered protocol: its name, its endpoint, and where its incoming requests
/// go.
struct ProtocolEntry {
    name: String,
    endpoint: ProtocolEndpoint,
    requests_processing: Option<futures::channel::mpsc::Sender<IncomingRequest>>,
}

impl View for ProtocolEntry {
    type V = ProtocolState;

    closed spec fn view(&self) -> ProtocolState {
        ProtocolState {
            name: self.name@,
            has_channel: self.requests_processing is Some,
            endpoint: self.endpoint@,
        }
    }
}

/// Calls `futures::channel::oneshot::channel`, which makes the two ends of a channel
/// for one response.
///
/// Trusted: nothing is claimed of the two ends.
#[verifier::external_body]
fn reply_channel() -> (ends: (
    futures::channel::oneshot::Sender<Vec<u8>>,
    futures::channel::oneshot::Receiver<Vec<u8>>,
)) {
    futures::channel::oneshot::channel()
}

/// Calls `futures::channel::mpsc::Sender::try_send`, which hands the request on
/// without waiting, and says whether the channel took it. Where the channel is full or
/// closed the request is let go of, and its `answer` with it.
///
/// Trusted: nothing is claimed of the outcome, which is up to whoever empties the
/// channel.
#[verifier::external_body]
fn try_submit(
    channel: &mut futures::channel::mpsc::Sender<IncomingRequest>,
    request: IncomingRequest,
) -> (accepted: bool) {
    channel.try_send(request).is_ok()
}

/// The request as it is handed to whoever builds the responses: who sent it, what was
/// sent, and where the response is to go.
fn incoming_request(
    channel: &ResponseChannel,
    request: Vec<u8>,
    answer: futures::channel::oneshot::Sender<Vec<u8>>,
) -> (incoming: IncomingRequest)
    ensures
        incoming.origin@ == channel@.peer,
        incoming.request_bytes == request,
        incoming.answer == answer,
{
    IncomingRequest { origin: channel.peer.clone(), request_bytes: request, answer }
}

impl ProtocolEntry {
    /// Hands an incoming request on to whoever builds the responses, if there is
    /// anybody, and says whether it was taken.
    fn submit(&mut self, request: IncomingRequest) -> (accepted: bool)
        ensures
            final(self)@ == old(self)@,
            accepted ==> old(self)@.has_channel,
    {
        match &mut self.requests_processing {
            Some(channel) => try_submit(channel, request),
            None => false,
        }
    }
}

/// The protocols of a list as plain values.
closed spec fn protocols_view(protocols: Seq<ProtocolEntry>) -> Seq<ProtocolState> {
    Seq::new(protocols.len(), |i: int| protocols[i]@)
}

/// The inbound requests of a list as plain values.
pub open spec fn tasks_view(tasks: Seq<PendingResponse>) -> Seq<PendingView> {
    Seq::new(tasks.len(), |i: int| tasks[i]@)
}

/// What searching for a name from `from` on finds: the first position that has it.
pub proof fn lemma_protocol_from(protocols: Seq<ProtocolState>, name: Seq<char>, from: int)
    requires
        0 <= from,
    ensures
        match protocol_from(protocols, name, from) {
            Some(k) => from <= k < protocols.len() && protocols[k].name == name && forall|j: int|
                from <= j < k ==> protocols[j].name != name,
            None => forall|j: int| from <= j < protocols.len() ==> protocols[j].name != name,
        },
    decreases protocols.len() - from,
{
    if from < protocols.len() && protocols[from].name != name {
        lemma_protocol_from(protocols, name, from + 1);
    }
}

/// What searching for a repeated name from `from` on finds: the first position whose
/// name stands at an earlier position too.
pub proof fn lemma_first_repeat(list: Seq<ProtocolConfig>, from: int)
    requires
        0 <= from,
    ensures
        match first_repeat(list, from) {
            Some(k) => from <= k < list.len() && repeats_earlier(list, k) && forall|j: int|
                from <= j < k ==> !repeats_earlier(list, j),
            None => forall|j: int| from <= j < list.len() ==> !repeats_earlier(list, j),
        },
    decreases list.len() - from,
{
    if from < list.len() && !repeats_earlier(list, from) {
        lemma_first_repeat(list, from + 1);
    }
}

/// No position repeats an earlier name exactly when no two positions share a name.
pub proof fn lemma_names_distinct(list: Seq<ProtocolConfig>)
    ensures
        first_repeat(list, 0) is None <==> names_distinct(list),
{
    lemma_first_repeat(list, 0);
    if first_repeat(list, 0) is None {
        assert forall|i: int, j: int| 0 <= i < j < list.len() implies list[i].name@
            != list[j].name@ by {
            assert(!repeats_earlier(list, j));
        }
    } else {
        let k = first_repeat(list, 0).unwrap();
        assert(repeats_earlier(list, k));
    }
}

/// The position of the protocol called `name`.
fn find_name(protocols: &Vec<ProtocolEntry>, name: &String) -> (found: Option<usize>)
    ensures
        match protocol_from(protocols_view(protocols@), name@, 0) {
            Some(k) => found == Some(k as usize) && 0 <= k < protocols.len(),
            None => found is None,
        },
{
    let mut i: usize = 0;
    while i < protocols.len()
        invariant
            i <= protocols.len(),
            protocol_from(protocols_view(protocols@), name@, 0) == protocol_from(
                protocols_view(protocols@),
                name@,
                i as int,
            ),
        decreases protocols.len() - i,
    {
        if protocols[i].name == *name {
            return Some(i);
        }
        i += 1;
    }
    None
}

/// The multiplexer of request-response protocols.
pub struct RequestResponsesBehaviour {
    /// The protocols, in the order in which they were registered.
    protocols: Vec<ProtocolEntry>,
    /// The inbound requests that were taken in and of which the host has not been
    /// told the end yet.
    pending_responses: Vec<PendingResponse>,
    /// The identity of the next request of ours.
    next_request_id: u64,
    /// The name of the next inbound request.
    next_slot: u64,
}

impl View for RequestResponsesBehaviour {
    type V = State;

    closed spec fn view(&self) -> State {
        State {
            protocols: protocols_view(self.protocols@),
            tasks: tasks_view(self.pending_responses@),
            next_request_id: self.next_request_id,
            next_slot: self.next_slot,
        }
    }
}

impl RequestResponsesBehaviour {
    /// Creates a new behaviour. Must be passed a list of supported protocols. Returns
    /// an error if the same protocol is passed twice: the error names the first
    /// protocol of the list that was passed before.
    pub fn new(list: Vec<ProtocolConfig>) -> (r: Result<RequestResponsesBehaviour, RegisterError>)
        ensures
            r is Ok <==> names_distinct(list@),
            match first_repeat(list@, 0) {
                None => r matches Ok(behaviour) && behaviour@ == initial(list@),
                Some(j) => r matches Err(RegisterError::DuplicateProtocol(name)) && name@
                    == list@[j].name@,
            },
    {
        let ghost given = list@;
        proof {
            lemma_names_distinct(given);
        }
        let mut rest = list;
        let total = rest.len();
        assert(given.len() == total);
        let mut protocols: Vec<ProtocolEntry> = Vec::new();
        let mut n: usize = 0;
        assert(protocols_view(protocols@) =~= Seq::new(0, |i: int| registered(given[i])));
        while rest.len() > 0
            invariant
                n + rest.len() == given.len(),
                rest@ == given.skip(n as int),
                protocols.len() == n,
                protocols_view(protocols@) == Seq::new(n as nat, |i: int| registered(given[i])),
                first_repeat(given, 0) == first_repeat(given, n as int),
                first_repeat(given, 0) is None <==> names_distinct(given),
                given.len() <= usize::MAX,
                given == list@,
            decreases rest.len(),
        {
            let config = rest.remove(0);
            assert(config == given[n as int]);
            assert(rest@ =~= given.skip(n + 1));
            let found = find_name(&protocols, &config.name);
            proof {
                lemma_protocol_from(protocols_view(protocols@), config.name@, 0);
            }
            match found {
                Some(earlier) => {
                    assert(protocols_view(protocols@)[earlier as int].name == config.name@);
                    assert(given[earlier as int].name@ == given[n as int].name@);
                    assert(repeats_earlier(given, n as int));
                    assert(first_repeat(given, n as int) == Some(n as int));
                    return Err(RegisterError::DuplicateProtocol(config.name));
                },
                None => {
                    assert(!repeats_earlier(given, n as int)) by {
                        if repeats_earlier(given, n as int) {
                            let i = choose|i: int|
                                0 <= i < n && given[i].name@ == given[n as int].name@;
                            assert(protocols_view(protocols@)[i].name == config.name@);
                        }
                    }
                },
            }
            let support = if config.requests_processing.is_some() {
                ProtocolSupport::Full
            } else {
                ProtocolSupport::Outbound
            };
            let endpoint = ProtocolEndpoint::new(
                GenericCodec::new(config.max_request_size, config.max_response_size),
                support,
                config.request_timeout,
            );
            let ghost before = protocols_view(protocols@);
            let ghost before_entries = protocols@;
            let entry = ProtocolEntry {
                name: config.name,
                endpoint,
                requests_processing: config.requests_processing,
            };
            assert(entry@ == registered(config));
            protocols.push(entry);
            n += 1;
            assert forall|i: int| 0 <= i < n implies #[trigger] protocols_view(protocols@)[i]
                == registered(given[i]) by {
                if i < n - 1 {
                    assert(protocols@[i] == before_entries[i]);
                    assert(before[i] == registered(given[i]));
                }
            }
            assert(protocols_view(protocols@) =~= Seq::new(
                n as nat,
                |i: int| registered(given[i]),
            ));
        }
        let behaviour = RequestResponsesBehaviour {
            protocols,
            pending_responses: Vec::new(),
            next_request_id: 1,
            next_slot: 1,
        };
        assert(tasks_view(behaviour.pending_responses@) =~= Seq::empty());
        assert(given.skip(n as int).len() == 0);
        assert(behaviour@.protocols =~= initial(given).protocols);
        Ok(behaviour)
    }

    /// What the handler of a new connection is set up with: one entry for each
    /// protocol, in the order in which they were registered.
    pub fn new_handler(&self) -> (handlers: Vec<HandlerConfig>)
        ensures
            handlers.len() == self@.protocols.len(),
            forall|i: int|
                0 <= i < handlers.len() ==> {
                    let handler = #[trigger] handlers[i];
                    let registered = self@.protocols[i];
                    &&& handler.protocol@ == registered.name
                    &&& handler.inbound == (registered.endpoint.support == ProtocolSupport::Full)
                    &&& handler.codec == registered.endpoint.codec
                    &&& handler.connection_keep_alive == CONNECTION_KEEP_ALIVE
                    &&& handler.request_timeout == registered.endpoint.request_timeout
                },
    {
        let mut handlers: Vec<HandlerConfig> = Vec::new();
        let mut i: usize = 0;
        while i < self.protocols.len()
            invariant
                i <= self.protocols.len(),
                handlers.len() == i,
                forall|j: int|
                    0 <= j < i ==> {
                        let handler = #[trigger] handlers[j];
                        let registered = self@.protocols[j];
                        &&& handler.protocol@ == registered.name
                        &&& handler.inbound == (registered.endpoint.support
                            == ProtocolSupport::Full)
                        &&& handler.codec == registered.endpoint.codec
                        &&& handler.connection_keep_alive == CONNECTION_KEEP_ALIVE
                        &&& handler.request_timeout == registered.endpoint.request_timeout
                    },
            decreases self.protocols.len() - i,
        {
            let entry = &self.protocols[i];
            handlers.push(
                HandlerConfig {
                    protocol: entry.name.clone(),
                    inbound: entry.endpoint.support() == ProtocolSupport::Full,
                    codec: entry.endpoint.codec(),
                    connection_keep_alive: entry.endpoint.connection_keep_alive(),
                    request_timeout: entry.endpoint.request_timeout(),
                },
            );
            i += 1;
        }
        handlers
    }

    /// How many protocols are registered.
    pub fn protocol_count(&self) -> (n: usize)
        ensures
            n == self@.protocols.len(),
    {
        self.protocols.len()
    }

    /// How many inbound requests were taken in and have not ended yet.
    pub fn pending_response_count(&self) -> (n: usize)
        ensures
            n == self@.tasks.len(),
    {
        self.pending_responses.len()
    }

    /// The identity that the next request of ours gets.
    pub fn next_request_id(&self) -> (id: RequestId)
        ensures
            id == RequestId(self@.next_request_id),
    {
        RequestId(self.next_request_id)
    }

    /// Whether `peer` is connected on the protocol called `protocol`.
    pub fn is_connected(&self, peer: &PeerId, protocol: &str) -> (r: bool)
        ensures
            r == match self@.find_protocol(protocol@) {
                Some(i) => self@.protocols[i].endpoint.is_connected(peer@),
                None => false,
            },
    {
        let name = protocol.to_owned();
        match find_name(&self.protocols, &name) {
            Some(i) => self.protocols[i].endpoint.is_connected(peer),
            None => false,
        }
    }

    /// Initiates sending a request at time `now`.
    ///
    /// An error is returned if we are not connected to the target peer or if the
    /// protocol doesn't match one that has been registered.
    pub fn send_request(&mut self, target: &PeerId, protocol: &str, request: Vec<u8>, now: u64) -> (r:
        Result<RequestId, SendRequestError>)
        requires
            old(self)@.next_request_id < u64::MAX,
        ensures
            (final(self)@, r) == old(self)@.send_request(now, target@, protocol@, request@),
    {
        let name = protocol.to_owned();
        match find_name(&self.protocols, &name) {
            None => Err(SendRequestError::UnknownProtocol),
            Some(i) => {
                if !self.protocols[i].endpoint.is_connected(target) {
                    Err(SendRequestError::NotConnected)
                } else {
                    let request_id = RequestId(self.next_request_id);
                    let entry = &mut self.protocols[i];
                    entry.endpoint.send_request(request_id, now, target, request);
                    self.next_request_id = self.next_request_id + 1;
                    assert(protocols_view(self.protocols@) =~= protocols_view(
                        old(self).protocols@,
                    ).update(
                        i as int,
                        ProtocolState {
                            endpoint: self.protocols[i as int].endpoint@,
                            ..old(self).protocols[i as int]@
                        },
                    ));
                    Ok(request_id)
                }
            },
        }
    }

    /// Tells every endpoint of a change to the connections of `peer`.
    fn change_connections(&mut self, peer: &PeerId, change: ConnectionChange)
        ensures
            final(self)@ == old(self)@.connection_change(peer@, change),
    {
        let ghost before = self@;
        let n = self.protocols.len();
        let mut i: usize = 0;
        while i < n
            invariant
                i <= n,
                n == self.protocols.len(),
                n == before.protocols.len(),
                self@.tasks == before.tasks,
                self@.next_request_id == before.next_request_id,
                self@.next_slot == before.next_slot,
                forall|j: int|
                    0 <= j < i ==> (#[trigger] self@.protocols[j]) == (ProtocolState {
                        endpoint: endpoint_change(before.protocols[j].endpoint, peer@, change),
                        ..before.protocols[j]
                    }),
                forall|j: int| i <= j < n ==> (#[trigger] self@.protocols[j]) == before.protocols[j],
            decreases n - i,
        {
            let ghost earlier = self@;
            let entry = &mut self.protocols[i];
            match change {
                ConnectionChange::Established(connection) => {
                    entry.endpoint.inject_connection_established(peer, connection);
                },
                ConnectionChange::Closed(connection) => {
                    entry.endpoint.inject_connection_closed(peer, connection);
                },
                ConnectionChange::Disconnected => {
                    entry.endpoint.inject_disconnected(peer);
                },
            }
            assert(forall|j: int|
                0 <= j < n && j != i ==> (#[trigger] self@.protocols[j]) == earlier.protocols[j]);
            assert(self@.protocols[i as int] == (ProtocolState {
                endpoint: endpoint_change(earlier.protocols[i as int].endpoint, peer@, change),
                ..earlier.protocols[i as int]
            }));
            i += 1;
        }
        assert(self@.protocols =~= before.connection_change(peer@, change).protocols);
    }

    /// A connection to `peer` was established.
    pub fn inject_connection_established(&mut self, peer: &PeerId, connection: ConnectionId)
        ensures
            final(self)@ == old(self)@.connection_change(
                peer@,
                ConnectionChange::Established(connection),
            ),
    {
        self.change_connections(peer, ConnectionChange::Established(connection))
    }

    /// A connection to `peer` was closed. The requests of ours that went out on it
    /// fail.
    pub fn inject_connection_closed(&mut self, peer: &PeerId, connection: ConnectionId)
        ensures
            final(self)@ == old(self)@.connection_change(peer@, ConnectionChange::Closed(connection)),
    {
        self.change_connections(peer, ConnectionChange::Closed(connection))
    }

    /// The last connection to `peer` was closed.
    pub fn inject_disconnected(&mut self, peer: &PeerId)
        ensures
            final(self)@ == old(self)@.connection_change(peer@, ConnectionChange::Disconnected),
    {
        self.change_connections(peer, ConnectionChange::Disconnected)
    }

    /// The position of the oldest inbound request of the protocol called `name` that
    /// came on the given substream and whose response is being written out.
    fn find_sending(
        &self,
        name: &String,
        peer: &PeerId,
        connection: ConnectionId,
        request_id: RequestId,
    ) -> (found: Option<usize>)
        ensures
            match sending_from(
                self@.tasks,
                name@,
                ChannelView { peer: peer@, connection, request_id },
                0,
            ) {
                Some(k) => found == Some(k as usize) && 0 <= k < self.pending_responses.len(),
                None => found is None,
            },
    {
        let ghost channel = ChannelView { peer: peer@, connection, request_id };
        let mut k: usize = 0;
        while k < self.pending_responses.len()
            invariant
                k <= self.pending_responses.len(),
                channel == (ChannelView { peer: peer@, connection, request_id }),
                sending_from(self@.tasks, name@, channel, 0) == sending_from(
                    self@.tasks,
                    name@,
                    channel,
                    k as int,
                ),
            decreases self.pending_responses.len() - k,
        {
            let task = &self.pending_responses[k];
            let sending = match task.state {
                ResponseState::Sending => true,
                _ => false,
            };
            assert(self@.tasks[k as int] == task@);
            if sending && task.protocol == *name && task.channel.connection == connection
                && task.channel.request_id == request_id && task.channel.peer.same(peer) {
                return Some(k);
            }
            k += 1;
        }
        None
    }

    /// The position of the oldest inbound request of the protocol called `name` that
    /// came on the given substream.
    fn find_task(&self, name: &String, channel: &ResponseChannel) -> (found: Option<usize>)
        ensures
            match task_from(self@.tasks, name@, channel@, 0) {
                Some(k) => found == Some(k as usize) && 0 <= k < self.pending_responses.len(),
                None => found is None,
            },
    {
        let mut k: usize = 0;
        while k < self.pending_responses.len()
            invariant
                k <= self.pending_responses.len(),
                task_from(self@.tasks, name@, channel@, 0) == task_from(
                    self@.tasks,
                    name@,
                    channel@,
                    k as int,
                ),
            decreases self.pending_responses.len() - k,
        {
            let task = &self.pending_responses[k];
            assert(self@.tasks[k as int] == task@);
            if task.protocol == *name && task.channel.connection == channel.connection
                && task.channel.request_id == channel.request_id && task.channel.peer.same(
                &channel.peer,
            ) {
                return Some(k);
            }
            k += 1;
        }
        None
    }

    /// The position of the oldest inbound request called `slot` whose response is
    /// being built.
    fn find_waiting(&self, slot: u64) -> (found: Option<usize>)
        ensures
            match waiting_from(self@.tasks, slot, 0) {
                Some(k) => found == Some(k as usize) && 0 <= k < self.pending_responses.len(),
                None => found is None,
            },
    {
        let mut k: usize = 0;
        while k < self.pending_responses.len()
            invariant
                k <= self.pending_responses.len(),
                waiting_from(self@.tasks, slot, 0) == waiting_from(self@.tasks, slot, k as int),
            decreases self.pending_responses.len() - k,
        {
            let task = &self.pending_responses[k];
            let waiting = match task.state {
                ResponseState::Waiting => true,
                _ => false,
            };
            assert(self@.tasks[k as int] == task@);
            if waiting && task.slot == slot {
                return Some(k);
            }
            k += 1;
        }
        None
    }

    /// The position of the oldest inbound request of which the host is to be told.
    fn find_ready(&self) -> (found: Option<usize>)
        ensures
            match ready_from(self@.tasks, 0) {
                Some(k) => found == Some(k as usize) && 0 <= k < self.pending_responses.len(),
                None => found is None,
            },
    {
        let mut k: usize = 0;
        while k < self.pending_responses.len()
            invariant
                k <= self.pending_responses.len(),
                ready_from(self@.tasks, 0) == ready_from(self@.tasks, k as int),
            decreases self.pending_responses.len() - k,
        {
            let task = &self.pending_responses[k];
            let ready = match task.state {
                ResponseState::Waiting => false,
                ResponseState::Sending => false,
                _ => true,
            };
            assert(self@.tasks[k as int] == task@);
            if ready {
                return Some(k);
            }
            k += 1;
        }
        None
    }

    /// The position of the first protocol that has something to tell at time `now`.
    fn find_active(&self, now: u64) -> (found: Option<usize>)
        ensures
            match active_from(self@.protocols, now, 0) {
                Some(i) => found == Some(i as usize) && 0 <= i < self.protocols.len(),
                None => found is None,
            },
    {
        let mut i: usize = 0;
        while i < self.protocols.len()
            invariant
                i <= self.protocols.len(),
                active_from(self@.protocols, now, 0) == active_from(self@.protocols, now, i as int),
            decreases self.protocols.len() - i,
        {
            if self.protocols[i].endpoint.is_active(now) {
                return Some(i);
            }
            i += 1;
        }
        None
    }

    /// Puts the inbound request at position `k` into another state.
    fn set_state(&mut self, k: usize, state: ResponseState)
        requires
            k < old(self)@.tasks.len(),
        ensures
            final(self)@ == (State {
                tasks: old(self)@.tasks.update(
                    k as int,
                    PendingView { state: state@, ..old(self)@.tasks[k as int] },
                ),
                ..old(self)@
            }),
    {
        let task = &mut self.pending_responses[k];
        task.state = state;
        assert(tasks_view(self.pending_responses@) =~= tasks_view(old(self).pending_responses@).update(
            k as int,
            PendingView { state: state@, ..old(self).pending_responses@[k as int]@ },
        ));
    }

    /// Takes the report of the handler of a connection to `peer`, tagged with the
    /// name of the protocol that it is about.
    pub fn inject_event(
        &mut self,
        peer: PeerId,
        connection: ConnectionId,
        protocol: &str,
        event: HandlerEvent,
    )
        ensures
            final(self)@ == old(self)@.handler_event(peer@, connection, protocol@, event),
    {
        let name = protocol.to_owned();
        match find_name(&self.protocols, &name) {
            None => {},
            Some(i) => {
                match event {
                    HandlerEvent::ResponseSent(request_id) => {
                        match self.find_sending(&name, &peer, connection, request_id) {
                            Some(k) => {
                                self.set_state(k, ResponseState::Completed);
                            },
                            None => {},
                        }
                    },
                    _ => {
                        let entry = &mut self.protocols[i];
                        entry.endpoint.inject_event(peer, connection, event);
                        assert(self@.protocols =~= old(self)@.protocols.update(
                            i as int,
                            ProtocolState {
                                endpoint: self@.protocols[i as int].endpoint,
                                ..old(self)@.protocols[i as int]
                            },
                        ));
                    },
                }
            },
        }
    }

    /// Takes what came on the channel of the inbound request called `slot`: the
    /// response, or nothing where the channel was let go of. Says whether a request
    /// was waiting for it.
    pub fn inject_response(&mut self, slot: u64, answer: Option<Vec<u8>>) -> (taken: bool)
        ensures
            (final(self)@, taken) == old(self)@.answer(
                slot,
                match answer {
                    Some(response) => Some(response@),
                    None => None,
                },
            ),
    {
        match self.find_waiting(slot) {
            Some(k) => {
                match answer {
                    Some(response) => self.set_state(k, ResponseState::Answered(response)),
                    None => self.set_state(k, ResponseState::Dropped),
                }
                true
            },
            None => false,
        }
    }

    /// Tells the host of the inbound request at position `k`.
    fn finish(&mut self, k: usize, now: u64) -> (progress: Progress)
        requires
            k < old(self).pending_responses.len(),
        ensures
            (final(self)@, progress@) == old(self)@.finish(k as int, now),
    {
        let task = self.pending_responses.remove(k);
        assert(task@ == old(self)@.tasks[k as int]);
        assert(self@.tasks =~= old(self)@.tasks.remove(k as int));
        let PendingResponse { slot, protocol, channel, received_at, state } = task;
        match state {
            ResponseState::Answered(response) => {
                let copy = ResponseChannel {
                    peer: channel.peer.clone(),
                    connection: channel.connection,
                    request_id: channel.request_id,
                };
                let name = protocol.clone();
                self.pending_responses.insert(
                    k,
                    PendingResponse {
                        slot,
                        protocol,
                        channel,
                        received_at,
                        state: ResponseState::Sending,
                    },
                );
                assert(self@.tasks =~= old(self)@.tasks.update(
                    k as int,
                    PendingView { state: ResponseStateView::Sending, ..old(self)@.tasks[k as int] },
                ));
                match ProtocolEndpoint::send_response(copy, response) {
                    EndpointEvent::NotifyHandler { peer, connection, event } => {
                        Progress::NotifyHandler { peer, connection, protocol: name, event }
                    },
                    _ => Progress::Pending,
                }
            },
            ResponseState::Dropped => Progress::GenerateEvent(
                Event::InboundRequest {
                    peer: channel.peer,
                    protocol,
                    outcome: Err(InboundError::Busy),
                },
            ),
            _ => {
                let took = if now >= received_at {
                    now - received_at
                } else {
                    0
                };
                Progress::GenerateEvent(
                    Event::InboundRequest { peer: channel.peer, protocol, outcome: Ok(took) },
                )
            },
        }
    }

    /// Ends the work on an inbound request of the protocol at position `i`. One that
    /// was handed on comes with the channel on which its response is awaited, and is
    /// held from now on; one that was not fails as busy.
    fn settle(
        &mut self,
        i: usize,
        name: String,
        channel: ResponseChannel,
        now: u64,
        handed_on: Option<futures::channel::oneshot::Receiver<Vec<u8>>>,
    ) -> (progress: Progress)
        requires
            i < old(self).protocols.len(),
            name@ == old(self)@.protocols[i as int].name,
            handed_on is Some ==> old(self)@.protocols[i as int].has_channel && old(self)@.next_slot
                < u64::MAX,
        ensures
            (final(self)@, progress@) == old(self)@.take_in(
                i as int,
                channel@,
                now,
                handed_on is Some,
            ),
    {
        match handed_on {
            Some(receiver) => {
                let slot = self.next_slot;
                self.pending_responses.push(
                    PendingResponse {
                        slot,
                        protocol: name,
                        channel,
                        received_at: now,
                        state: ResponseState::Waiting,
                    },
                );
                self.next_slot = slot + 1;
                assert(self@.tasks =~= old(self)@.tasks.push(
                    PendingView {
                        slot,
                        protocol: name@,
                        channel: channel@,
                        received_at: now,
                        state: ResponseStateView::Waiting,
                    },
                ));
                Progress::AwaitResponse { slot, receiver }
            },
            None => Progress::GenerateEvent(
                Event::InboundRequest {
                    peer: channel.peer,
                    protocol: name,
                    outcome: Err(InboundError::Busy),
                },
            ),
        }
    }

    /// Takes an inbound request of the protocol at position `i` from its endpoint.
    /// Where the protocol has somebody to build responses, and a name is left for
    /// the request, it is handed on with the sending end of a new channel for the
    /// response. What comes of it is as `settle` says.
    fn take_in(&mut self, i: usize, name: String, request: Vec<u8>, channel: ResponseChannel, now: u64)
        -> (progress: Progress)
        requires
            i < old(self).protocols.len(),
            name@ == old(self)@.protocols[i as int].name,
        ensures
            (final(self)@, progress@) == old(self)@.take_in(i as int, channel@, now, true) || (
                final(self)@,
                progress@,
            ) == old(self)@.take_in(i as int, channel@, now, false),
    {
        if self.next_slot == u64::MAX || self.protocols[i].requests_processing.is_none() {
            return self.settle(i, name, channel, now, None);
        }
        let (answer, receiver) = reply_channel();
        let incoming = incoming_request(&channel, request, answer);
        let entry = &mut self.protocols[i];
        let accepted = entry.submit(incoming);
        assert(self@.protocols =~= old(self)@.protocols);
        if accepted {
            self.settle(i, name, channel, now, Some(receiver))
        } else {
            self.settle(i, name, channel, now, None)
        }
    }

    /// Lets the endpoint at position `i` tell the next thing that it has to tell.
    fn surface(&mut self, i: usize, now: u64) -> (progress: Progress)
        requires
            i < old(self).protocols.len(),
        ensures
            (final(self)@, progress@) == old(self)@.surface(i as int, now, true) || (
                final(self)@,
                progress@,
            ) == old(self)@.surface(i as int, now, false),
    {
        let entry = &mut self.protocols[i];
        let event = entry.endpoint.poll(now);
        let name = self.protocols[i].name.clone();
        assert(self@ == old(self)@.with_endpoint(
            i as int,
            old(self)@.protocols[i as int].endpoint.progress(now).0,
        )) by {
            assert(self@.protocols =~= old(self)@.with_endpoint(
                i as int,
                old(self)@.protocols[i as int].endpoint.progress(now).0,
            ).protocols);
        }
        match event {
            None => Progress::Pending,
            Some(EndpointEvent::Request { request, channel }) => self.take_in(
                i,
                name,
                request,
                channel,
                now,
            ),
            Some(EndpointEvent::Response { request_id, response }) => Progress::GenerateEvent(
                Event::OutboundFinished { request_id, outcome: Ok(response) },
            ),
            Some(EndpointEvent::OutboundFailure { request_id, error }) => Progress::GenerateEvent(
                Event::OutboundFinished { request_id, outcome: Err(error) },
            ),
            Some(EndpointEvent::InboundFailure { channel, error }) => {
                let ghost next = self@;
                match self.find_task(&name, &channel) {
                    Some(k) => {
                        self.pending_responses.remove(k);
                        assert(self@.tasks =~= next.tasks.remove(k as int));
                    },
                    None => {},
                }
                Progress::GenerateEvent(
                    Event::InboundRequest {
                        peer: channel.peer,
                        protocol: name,
                        outcome: Err(InboundError::Network(error)),
                    },
                )
            },
            Some(EndpointEvent::NotifyHandler { peer, connection, event }) => {
                Progress::NotifyHandler { peer, connection, protocol: name, event }
            },
        }
    }

    /// Takes one step at time `now`, and says what the host is to do.
    ///
    /// The inbound requests of which the host is to be told come first, oldest first:
    /// a response that was built goes to its connection; a request that was given up
    /// ends as busy; one whose response was written out ends well. Then the endpoints
    /// are asked in the order in which they were registered, and the first that has
    /// something to tell tells one thing. An inbound request that comes up is handed
    /// on to whoever builds the responses: if it is taken, the host is to await the
    /// response; if not, the request ends as busy at once. Whether it is taken is
    /// not up to this function, so that either of the two may be what happened.
    pub fn poll(&mut self, now: u64) -> (progress: Progress)
        ensures
            (final(self)@, progress@) == old(self)@.poll(now, true) || (final(self)@, progress@)
                == old(self)@.poll(now, false),
    {
        match self.find_ready() {
            Some(k) => self.finish(k, now),
            None => match self.find_active(now) {
                Some(i) => self.surface(i, now),
                None => Progress::Pending,
            },
        }
    }
}

} // verus!
