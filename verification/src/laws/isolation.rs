//! What a failure leaves alone: the other protocols, the other requests, and the
//! configuration of every protocol.

use crate::behaviour::{
    active_from, inbound_event, initial, lemma_protocol_from, names_distinct, ready_from,
    registered, PendingView, ProtocolConfig, ProtocolState, ResponseStateView, State,
};
use crate::codec::{frame, lemma_read_over_limit};
use crate::endpoint::{on_other_connections, EndpointEventView, HandlerEvent, InFlight};
use crate::laws::run::{run, step, Input};
use crate::laws::search::{
    lemma_active_from, lemma_expired_from, lemma_request_from, lemma_sending_from,
};
use crate::types::{
    ChannelView, ConnectionId, InboundError, InboundFailure, ProtocolSupport, RequestId,
};
use crate::varint::lemma_varint_shape;
use vstd::prelude::*;

verus! {

/// A request whose length prefix is over the limit of its protocol comes to nothing
/// but one failure for the multiplexer to tell: size exceeded, for that substream.
pub proof fn lemma_over_limit_rejected(
    state: State,
    peer: Seq<u8>,
    connection: ConnectionId,
    protocol: Seq<char>,
    event: HandlerEvent,
    payload: Seq<u8>,
    rest: Seq<u8>,
)
    requires
        event matches HandlerEvent::Request { wire, .. } && wire@ == frame(payload) + rest,
        state.find_protocol(protocol) is Some,
        state.protocols[state.find_protocol(protocol).unwrap()].endpoint.support
            == ProtocolSupport::Full,
        state.protocols[state.find_protocol(protocol).unwrap()].endpoint.codec.max_request_size()
            < payload.len() <= usize::MAX,
    ensures
        ({
            let i = state.find_protocol(protocol).unwrap();
            state.handler_event(peer, connection, protocol, event) == state.with_endpoint(
                i,
                state.protocols[i].endpoint.with_event(
                    EndpointEventView::InboundFailure {
                        channel: ChannelView {
                            peer,
                            connection,
                            request_id: event->Request_request_id,
                        },
                        error: InboundFailure::SizeExceeded,
                    },
                ),
            )
        }),
{
    let i = state.find_protocol(protocol).unwrap();
    let limit = state.protocols[i].endpoint.codec.max_request_size();
    lemma_read_over_limit(limit, payload, rest);
    lemma_varint_shape(payload.len());
}

/// The failure of an inbound request that an endpoint tells comes to one event for
/// the host, which names the peer, the protocol and the failure.
pub proof fn lemma_inbound_failure_told(
    state: State,
    now: u64,
    accepted: bool,
    i: int,
    channel: ChannelView,
    error: InboundFailure,
)
    requires
        ready_from(state.tasks, 0) is None,
        active_from(state.protocols, now, 0) == Some(i),
        state.protocols[i].endpoint.progress(now).1 == Some(
            EndpointEventView::InboundFailure { channel, error },
        ),
    ensures
        state.poll(now, accepted).1 == inbound_event(
            channel.peer,
            state.protocols[i].name,
            Err(InboundError::Network(error)),
        ),
        state.poll(now, accepted).0.protocols == state.with_endpoint(
            i,
            state.protocols[i].endpoint.progress(now).0,
        ).protocols,
{
    lemma_active_from(state.protocols, now, 0);
}

/// The request of ours that the report of a handler is about, if it is about one.
pub open spec fn request_of(event: HandlerEvent) -> Option<RequestId> {
    match event {
        HandlerEvent::Response { request_id, .. } => Some(request_id),
        HandlerEvent::OutboundFailure { request_id, .. } => Some(request_id),
        _ => None,
    }
}

/// What the report of a handler on one substream of one protocol leaves alone: every
/// other protocol; the connections of its own; every request of ours but the one
/// that it is about; and every inbound request but the one whose response, as it
/// says, was written out on that substream.
pub proof fn lemma_isolation(
    state: State,
    peer: Seq<u8>,
    connection: ConnectionId,
    protocol: Seq<char>,
    event: HandlerEvent,
)
    ensures
        ({
            let after = state.handler_event(peer, connection, protocol, event);
            &&& after.protocols.len() == state.protocols.len()
            &&& forall|j: int|
                0 <= j < state.protocols.len() && state.find_protocol(protocol) != Some(j) ==> (
                #[trigger] after.protocols[j]) == state.protocols[j]
            &&& forall|j: int|
                0 <= j < state.protocols.len() ==> {
                    let before = (#[trigger] state.protocols[j]).endpoint;
                    let then = after.protocols[j].endpoint;
                    &&& after.protocols[j].name == state.protocols[j].name
                    &&& then.connected == before.connected
                    &&& (then.in_flight == before.in_flight || exists|k: int|
                        0 <= k < before.in_flight.len() && Some(
                            (#[trigger] before.in_flight[k]).request_id,
                        ) == request_of(event) && then.in_flight == before.in_flight.remove(k))
                }
            &&& after.tasks.len() == state.tasks.len()
            &&& forall|k: int|
                0 <= k < state.tasks.len() ==> (#[trigger] after.tasks[k]) == state.tasks[k] || (
                event matches HandlerEvent::ResponseSent(request_id) && state.tasks[k].protocol
                    == protocol && state.tasks[k].channel == (ChannelView {
                    peer,
                    connection,
                    request_id,
                }) && after.tasks[k] == (PendingView {
                    state: ResponseStateView::Completed,
                    ..state.tasks[k]
                }))
        }),
{
    lemma_protocol_from(state.protocols, protocol, 0);
    let after = state.handler_event(peer, connection, protocol, event);
    match state.find_protocol(protocol) {
        Some(i) => {
            let before = state.protocols[i].endpoint;
            match event {
                HandlerEvent::ResponseSent(request_id) => {
                    lemma_sending_from(
                        state.tasks,
                        protocol,
                        ChannelView { peer, connection, request_id },
                        0,
                    );
                },
                HandlerEvent::Response { request_id, wire } => {
                    lemma_request_from(before.in_flight, request_id, 0);
                },
                HandlerEvent::OutboundFailure { request_id, error } => {
                    lemma_request_from(before.in_flight, request_id, 0);
                },
                _ => {},
            }
        },
        None => {},
    }
}

/// Where a connection closes, every request of ours that went out on another
/// connection is awaited as before, and in the same order.
pub proof fn lemma_other_connections_kept(in_flight: Seq<InFlight>, connection: ConnectionId)
    ensures
        forall|k: int|
            0 <= k < on_other_connections(in_flight, connection).len() ==> (
            #[trigger] on_other_connections(in_flight, connection)[k]).connection != connection,
        forall|k: int|
            0 <= k < in_flight.len() && (#[trigger] in_flight[k]).connection != connection
                ==> on_other_connections(in_flight, connection).contains(in_flight[k]),
    decreases in_flight.len(),
{
    if in_flight.len() > 0 {
        let shorter = in_flight.drop_last();
        lemma_other_connections_kept(shorter, connection);
        let kept = on_other_connections(in_flight, connection);
        let before = on_other_connections(shorter, connection);
        assert forall|k: int|
            0 <= k < in_flight.len() && (#[trigger] in_flight[k]).connection
                != connection implies kept.contains(in_flight[k]) by {
            if k < shorter.len() {
                assert(shorter[k] == in_flight[k]);
                let at = choose|at: int| 0 <= at < before.len() && before[at] == shorter[k];
                assert(kept[at] == in_flight[k]);
            } else {
                assert(kept[kept.len() - 1] == in_flight[k]);
            }
        }
    }
}

/// Whether two protocols are configured alike: by name, by role, by codec and by
/// timeout.
pub open spec fn same_configuration(a: ProtocolState, b: ProtocolState) -> bool {
    &&& a.name == b.name
    &&& a.has_channel == b.has_channel
    &&& a.endpoint.codec == b.endpoint.codec
    &&& a.endpoint.support == b.endpoint.support
    &&& a.endpoint.request_timeout == b.endpoint.request_timeout
}

/// Whether no two protocols of the multiplexer share a name.
pub open spec fn names_unique(state: State) -> bool {
    forall|i: int, j: int|
        0 <= i < j < state.protocols.len() ==> state.protocols[i].name != state.protocols[j].name
}

/// Nothing that is brought in changes which protocols are registered, nor how one is
/// configured.
pub proof fn lemma_step_configuration(state: State, input: Input)
    ensures
        step(state, input).0.protocols.len() == state.protocols.len(),
        forall|i: int|
            0 <= i < state.protocols.len() ==> same_configuration(
                #[trigger] step(state, input).0.protocols[i],
                state.protocols[i],
            ),
{
    match input {
        Input::SendRequest { target, protocol, request, now } => {
            lemma_protocol_from(state.protocols, protocol, 0);
        },
        Input::HandlerEvent { peer, connection, protocol, event } => {
            lemma_protocol_from(state.protocols, protocol, 0);
            match event {
                HandlerEvent::Response { request_id, wire } => {
                    assert forall|i: int| 0 <= i < state.protocols.len() implies same_configuration(
                        #[trigger] step(state, input).0.protocols[i],
                        state.protocols[i],
                    ) by {
                        lemma_request_from(state.protocols[i].endpoint.in_flight, request_id, 0);
                    }
                },
                HandlerEvent::OutboundFailure { request_id, error } => {
                    assert forall|i: int| 0 <= i < state.protocols.len() implies same_configuration(
                        #[trigger] step(state, input).0.protocols[i],
                        state.protocols[i],
                    ) by {
                        lemma_request_from(state.protocols[i].endpoint.in_flight, request_id, 0);
                    }
                },
                _ => {},
            }
        },
        Input::Poll { now, accepted } => {
            lemma_active_from(state.protocols, now, 0);
            assert forall|i: int| 0 <= i < state.protocols.len() implies same_configuration(
                #[trigger] step(state, input).0.protocols[i],
                state.protocols[i],
            ) by {
                lemma_expired_from(state.protocols[i].endpoint.in_flight, now, 0);
            }
        },
        _ => {},
    }
}

/// The protocols of a multiplexer stay as they were registered: after any run there
/// are as many as were registered, each configured as it was, and where no two were
/// registered under one name, no two share a name.
pub proof fn lemma_run_configuration(list: Seq<ProtocolConfig>, inputs: Seq<Input>)
    ensures
        run(initial(list), inputs).0.protocols.len() == list.len(),
        forall|i: int|
            0 <= i < list.len() ==> same_configuration(
                #[trigger] run(initial(list), inputs).0.protocols[i],
                registered(list[i]),
            ),
        names_distinct(list) ==> names_unique(run(initial(list), inputs).0),
    decreases inputs.len(),
{
    if inputs.len() > 0 {
        lemma_run_configuration(list, inputs.drop_last());
        lemma_step_configuration(run(initial(list), inputs.drop_last()).0, inputs.last());
    }
    let end = run(initial(list), inputs).0;
    if names_distinct(list) {
        assert forall|i: int, j: int| 0 <= i < j < end.protocols.len() implies end.protocols[i].name
            != end.protocols[j].name by {
            assert(same_configuration(end.protocols[i], registered(list[i])));
            assert(same_configuration(end.protocols[j], registered(list[j])));
        }
    }
}

} // verus!
