//! The books of the requests of ours: the end of each is told to the host at most once,
//! and not before the request went out.

use crate::behaviour::{
    active_from, endpoint_change, initial, lemma_protocol_from, ready_from, ConnectionChange,
    ProgressView, ProtocolConfig, ProtocolState, State,
};
use crate::counting::{
    lemma_total_add, lemma_total_pointwise, lemma_total_push, lemma_total_remove,
    lemma_total_update, lemma_total_zero, total,
};
use crate::endpoint::{
    closed_failures, expired_from, on_other_connections, request_from, EndpointEventView,
    EndpointState, HandlerEvent, InFlight,
};
use crate::laws::run::{run, runs, step, takes, Input, Output};
use crate::laws::search::{lemma_active_from, lemma_expired_from, lemma_request_from};
use crate::types::{ConnectionId, EventView, RequestId};
use vstd::prelude::*;

verus! {

/// One for a request that is awaited under the identity `id`, nothing for another.
pub open spec fn awaits(id: RequestId) -> spec_fn(InFlight) -> nat {
    |r: InFlight|
        if r.request_id == id {
            1nat
        } else {
            0nat
        }
}

/// The request of ours whose end an event of an endpoint tells, if it tells one.
pub open spec fn ended_by(event: EndpointEventView) -> Option<RequestId> {
    match event {
        EndpointEventView::Response { request_id, .. } => Some(request_id),
        EndpointEventView::OutboundFailure { request_id, .. } => Some(request_id),
        _ => None,
    }
}

/// One for an event that tells the end of the request `id`, nothing for another.
pub open spec fn tells(id: RequestId) -> spec_fn(EndpointEventView) -> nat {
    |e: EndpointEventView|
        if ended_by(e) == Some(id) {
            1nat
        } else {
            0nat
        }
}

/// How often the request `id` is outstanding at an endpoint: awaited, or ended with
/// the multiplexer yet to hear of it.
pub open spec fn outstanding_at(endpoint: EndpointState, id: RequestId) -> nat {
    total(endpoint.in_flight, awaits(id)) + total(endpoint.events, tells(id))
}

/// How often the request `id` is outstanding at a protocol.
pub open spec fn holds(id: RequestId) -> spec_fn(ProtocolState) -> nat {
    |p: ProtocolState| outstanding_at(p.endpoint, id)
}

/// How often the request `id` is outstanding: sent, and its end not yet told to the
/// host.
pub open spec fn outstanding(state: State, id: RequestId) -> nat {
    total(state.protocols, holds(id))
}

/// One where a step tells the host the end of the request `id`, nothing else.
pub open spec fn finishes(progress: ProgressView, id: RequestId) -> nat {
    match progress {
        ProgressView::GenerateEvent(EventView::OutboundFinished { request_id, .. }) => if request_id
            == id {
            1
        } else {
            0
        },
        _ => 0,
    }
}

/// One where an endpoint tells the end of the request `id`, nothing else.
pub open spec fn told(event: Option<EndpointEventView>, id: RequestId) -> nat {
    match event {
        Some(e) => tells(id)(e),
        None => 0,
    }
}

/// No request of ours is outstanding twice, and every one that is outstanding was
/// given its identity before.
pub open spec fn requests_in_order(state: State) -> bool {
    forall|id: RequestId| #[trigger]
        outstanding(state, id) <= 1 && (outstanding(state, id) > 0 ==> id.0
            < state.next_request_id)
}

/// A request that fails with its connection is counted as before: no longer awaited,
/// and ended once.
pub proof fn lemma_closed_keeps_count(
    in_flight: Seq<InFlight>,
    connection: ConnectionId,
    id: RequestId,
)
    ensures
        total(on_other_connections(in_flight, connection), awaits(id)) + total(
            closed_failures(in_flight, connection),
            tells(id),
        ) == total(in_flight, awaits(id)),
    decreases in_flight.len(),
{
    if in_flight.len() > 0 {
        let shorter = in_flight.drop_last();
        lemma_closed_keeps_count(shorter, connection, id);
        if in_flight.last().connection == connection {
            lemma_total_push(
                closed_failures(shorter, connection),
                closed_failures(in_flight, connection).last(),
                tells(id),
            );
        } else {
            lemma_total_push(
                on_other_connections(shorter, connection),
                in_flight.last(),
                awaits(id),
            );
        }
    }
}

/// One more event for the multiplexer adds what it tells.
pub proof fn lemma_with_event(endpoint: EndpointState, event: EndpointEventView, id: RequestId)
    ensures
        outstanding_at(endpoint.with_event(event), id) == outstanding_at(endpoint, id) + tells(id)(
            event,
        ),
{
    lemma_total_push(endpoint.events, event, tells(id));
}

/// The end of a request of ours leaves the count as it is, whether or not the request
/// was awaited.
pub proof fn lemma_resolve(
    endpoint: EndpointState,
    request_id: RequestId,
    event: EndpointEventView,
    id: RequestId,
)
    requires
        ended_by(event) == Some(request_id),
    ensures
        outstanding_at(endpoint.resolve(request_id, event), id) == outstanding_at(endpoint, id),
{
    lemma_request_from(endpoint.in_flight, request_id, 0);
    match request_from(endpoint.in_flight, request_id, 0) {
        Some(k) => {
            lemma_total_remove(endpoint.in_flight, k, awaits(id));
            lemma_with_event(endpoint.retired(k), event, id);
        },
        None => {},
    }
}

/// Sending a request makes it outstanding once more, and no other.
pub proof fn lemma_endpoint_send(
    endpoint: EndpointState,
    request_id: RequestId,
    now: u64,
    peer: Seq<u8>,
    request: Seq<u8>,
    id: RequestId,
)
    ensures
        outstanding_at(endpoint.send_request(request_id, now, peer, request), id) == outstanding_at(
            endpoint,
            id,
        ) + awaits(id)(
            InFlight { request_id, connection: ConnectionId(0), deadline: 0 },
        ),
{
    let after = endpoint.send_request(request_id, now, peer, request);
    lemma_total_push(endpoint.in_flight, after.in_flight.last(), awaits(id));
    lemma_total_push(endpoint.events, after.events.last(), tells(id));
}

/// A change to the connections of a peer leaves every request as often outstanding
/// as it was.
pub proof fn lemma_endpoint_change(
    endpoint: EndpointState,
    peer: Seq<u8>,
    change: ConnectionChange,
    id: RequestId,
)
    ensures
        outstanding_at(endpoint_change(endpoint, peer, change), id) == outstanding_at(endpoint, id),
{
    match change {
        ConnectionChange::Closed(connection) => {
            lemma_closed_keeps_count(endpoint.in_flight, connection, id);
            lemma_total_add(
                endpoint.events,
                closed_failures(endpoint.in_flight, connection),
                tells(id),
            );
        },
        _ => {},
    }
}

/// The report of a handler leaves every request as often outstanding as it was.
pub proof fn lemma_endpoint_handler_event(
    endpoint: EndpointState,
    peer: Seq<u8>,
    connection: ConnectionId,
    event: HandlerEvent,
    id: RequestId,
)
    ensures
        outstanding_at(endpoint.handler_event(peer, connection, event), id) == outstanding_at(
            endpoint,
            id,
        ),
{
    let after = endpoint.handler_event(peer, connection, event);
    match event {
        HandlerEvent::Request { request_id, wire } => {
            if after != endpoint {
                lemma_with_event(endpoint, after.events.last(), id);
            }
        },
        HandlerEvent::Response { request_id, wire } => {
            lemma_request_from(endpoint.in_flight, request_id, 0);
            if after != endpoint {
                lemma_resolve(endpoint, request_id, after.events.last(), id);
            }
        },
        HandlerEvent::ResponseSent(_) => {},
        HandlerEvent::OutboundFailure { request_id, error } => {
            lemma_request_from(endpoint.in_flight, request_id, 0);
            if after != endpoint {
                lemma_resolve(endpoint, request_id, after.events.last(), id);
            }
        },
        HandlerEvent::InboundFailure { request_id, error } => {
            if after != endpoint {
                lemma_with_event(endpoint, after.events.last(), id);
            }
        },
    }
}

/// What an endpoint tells leaves the count of the request that it tells the end of
/// lower by one, and every other as it was.
pub proof fn lemma_endpoint_progress(endpoint: EndpointState, now: u64, id: RequestId)
    ensures
        outstanding_at(endpoint.progress(now).0, id) + told(endpoint.progress(now).1, id)
            == outstanding_at(endpoint, id),
{
    lemma_expired_from(endpoint.in_flight, now, 0);
    match expired_from(endpoint.in_flight, now, 0) {
        Some(k) => {
            lemma_total_remove(endpoint.in_flight, k, awaits(id));
        },
        None => {
            if endpoint.events.len() > 0 {
                lemma_total_remove(endpoint.events, 0, tells(id));
            }
        },
    }
}

/// Another endpoint at position `i` changes the count by the difference of the two.
pub proof fn lemma_with_endpoint(state: State, i: int, endpoint: EndpointState, id: RequestId)
    requires
        0 <= i < state.protocols.len(),
    ensures
        outstanding(state.with_endpoint(i, endpoint), id) + outstanding_at(
            state.protocols[i].endpoint,
            id,
        ) == outstanding(state, id) + outstanding_at(endpoint, id),
{
    lemma_total_update(
        state.protocols,
        i,
        ProtocolState { endpoint, ..state.protocols[i] },
        holds(id),
    );
}

/// Right after the protocols were registered no request is outstanding.
pub proof fn lemma_initial_outstanding(list: Seq<ProtocolConfig>, id: RequestId)
    ensures
        outstanding(initial(list), id) == 0,
{
    lemma_total_zero(initial(list).protocols, holds(id));
}

/// Sending a request: one that goes out gets the next identity and is outstanding
/// once more than before; one that does not changes nothing.
pub proof fn lemma_send_request(
    state: State,
    now: u64,
    target: Seq<u8>,
    protocol: Seq<char>,
    request: Seq<u8>,
    id: RequestId,
)
    requires
        state.next_request_id < u64::MAX,
    ensures
        match state.send_request(now, target, protocol, request).1 {
            Ok(request_id) => {
                let after = state.send_request(now, target, protocol, request).0;
                &&& request_id == RequestId(state.next_request_id)
                &&& after.next_request_id == state.next_request_id + 1
                &&& after.tasks == state.tasks
                &&& after.next_slot == state.next_slot
                &&& outstanding(after, id) == outstanding(state, id) + if request_id == id {
                    1nat
                } else {
                    0nat
                }
            },
            Err(_) => state.send_request(now, target, protocol, request).0 == state,
        },
{
    lemma_protocol_from(state.protocols, protocol, 0);
    match state.find_protocol(protocol) {
        Some(i) => {
            let endpoint = state.protocols[i].endpoint;
            if endpoint.is_connected(target) {
                let request_id = RequestId(state.next_request_id);
                let sent = endpoint.send_request(request_id, now, target, request);
                lemma_endpoint_send(endpoint, request_id, now, target, request, id);
                lemma_with_endpoint(state, i, sent, id);
                assert(outstanding(state.send_request(now, target, protocol, request).0, id)
                    == outstanding(state.with_endpoint(i, sent), id));
            }
        },
        None => {},
    }
}

/// A change to the connections of a peer leaves every request as often outstanding
/// as it was, and the inbound requests as they were.
pub proof fn lemma_connection_change(
    state: State,
    peer: Seq<u8>,
    change: ConnectionChange,
    id: RequestId,
)
    ensures
        outstanding(state.connection_change(peer, change), id) == outstanding(state, id),
        state.connection_change(peer, change).tasks == state.tasks,
        state.connection_change(peer, change).next_request_id == state.next_request_id,
        state.connection_change(peer, change).next_slot == state.next_slot,
{
    let after = state.connection_change(peer, change);
    assert forall|i: int| 0 <= i < state.protocols.len() implies holds(id)(after.protocols[i])
        == holds(id)(state.protocols[i]) by {
        lemma_endpoint_change(state.protocols[i].endpoint, peer, change, id);
    }
    lemma_total_pointwise(after.protocols, holds(id), state.protocols, holds(id));
}

/// The report of a handler leaves every request as often outstanding as it was.
pub proof fn lemma_handler_event(
    state: State,
    peer: Seq<u8>,
    connection: ConnectionId,
    protocol: Seq<char>,
    event: HandlerEvent,
    id: RequestId,
)
    ensures
        outstanding(state.handler_event(peer, connection, protocol, event), id) == outstanding(
            state,
            id,
        ),
        state.handler_event(peer, connection, protocol, event).next_request_id
            == state.next_request_id,
        state.handler_event(peer, connection, protocol, event).next_slot == state.next_slot,
{
    lemma_protocol_from(state.protocols, protocol, 0);
    match state.find_protocol(protocol) {
        Some(i) => {
            let endpoint = state.protocols[i].endpoint;
            lemma_endpoint_handler_event(endpoint, peer, connection, event, id);
            lemma_with_endpoint(state, i, endpoint.handler_event(peer, connection, event), id);
        },
        None => {},
    }
}

/// One step leaves the count of the request whose end it tells the host lower by one,
/// and every other as it was.
pub proof fn lemma_poll(state: State, now: u64, accepted: bool, id: RequestId)
    ensures
        outstanding(state.poll(now, accepted).0, id) + finishes(state.poll(now, accepted).1, id)
            == outstanding(state, id),
        state.poll(now, accepted).0.next_request_id == state.next_request_id,
{
    lemma_active_from(state.protocols, now, 0);
    if ready_from(state.tasks, 0) is None {
        match active_from(state.protocols, now, 0) {
            Some(i) => {
                let endpoint = state.protocols[i].endpoint;
                lemma_endpoint_progress(endpoint, now, id);
                lemma_with_endpoint(state, i, endpoint.progress(now).0, id);
            },
            None => {},
        }
    }
}

/// One for the output that says that the request `id` went out, nothing for another.
pub open spec fn sends(id: RequestId) -> spec_fn(Output) -> nat {
    |o: Output|
        if o == Output::Sent(Ok(id)) {
            1nat
        } else {
            0nat
        }
}

/// One for the output that tells the host the end of the request `id`, nothing for
/// another.
pub open spec fn ends(id: RequestId) -> spec_fn(Output) -> nat {
    |o: Output|
        match o {
            Output::Progress { progress, .. } => finishes(progress, id),
            _ => 0nat,
        }
}

/// What one thing that is brought in does to the books of the request `id`.
pub proof fn lemma_step(state: State, input: Input, id: RequestId)
    requires
        takes(state, input),
    ensures
        outstanding(step(state, input).0, id) + ends(id)(step(state, input).1) == outstanding(
            state,
            id,
        ) + sends(id)(step(state, input).1),
        step(state, input).0.next_request_id >= state.next_request_id,
        sends(id)(step(state, input).1) > 0 ==> id.0 == state.next_request_id && step(
            state,
            input,
        ).0.next_request_id == state.next_request_id + 1,
{
    match input {
        Input::SendRequest { target, protocol, request, now } => {
            lemma_send_request(state, now, target, protocol, request, id);
        },
        Input::ConnectionChange { peer, change } => {
            lemma_connection_change(state, peer, change, id);
        },
        Input::HandlerEvent { peer, connection, protocol, event } => {
            lemma_handler_event(state, peer, connection, protocol, event, id);
        },
        Input::Response { slot, answer } => {},
        Input::Poll { now, accepted } => {
            lemma_poll(state, now, accepted, id);
        },
    }
}

/// The books of the request `id` over a whole run: what is outstanding at the end is
/// what was at the start, and what went out, less what the host was told the end of.
/// A request goes out at most once, and only under an identity that was not given
/// before the run.
pub proof fn lemma_run(state: State, inputs: Seq<Input>, id: RequestId)
    requires
        runs(state, inputs),
    ensures
        outstanding(run(state, inputs).0, id) + total(run(state, inputs).1, ends(id))
            == outstanding(state, id) + total(run(state, inputs).1, sends(id)),
        run(state, inputs).0.next_request_id >= state.next_request_id,
        total(run(state, inputs).1, sends(id)) <= 1,
        total(run(state, inputs).1, sends(id)) > 0 ==> state.next_request_id <= id.0 < run(
            state,
            inputs,
        ).0.next_request_id,
    decreases inputs.len(),
{
    if inputs.len() > 0 {
        lemma_run(state, inputs.drop_last(), id);
        let (before, outputs) = run(state, inputs.drop_last());
        lemma_step(before, inputs.last(), id);
        let output = step(before, inputs.last()).1;
        lemma_total_push(outputs, output, ends(id));
        lemma_total_push(outputs, output, sends(id));
    }
}

/// For every request that `send_request` gave an identity, the host is told the end
/// at most once, and not before the request went out: of all that comes out of a
/// multiplexer from its start, no more outputs tell the end of the request than say
/// that it went out, and at most one says that.
pub proof fn lemma_at_most_one_outbound_finished(
    list: Seq<ProtocolConfig>,
    inputs: Seq<Input>,
    id: RequestId,
)
    requires
        runs(initial(list), inputs),
    ensures
        total(run(initial(list), inputs).1, ends(id)) <= total(
            run(initial(list), inputs).1,
            sends(id),
        ) <= 1,
        outstanding(run(initial(list), inputs).0, id) == total(
            run(initial(list), inputs).1,
            sends(id),
        ) - total(run(initial(list), inputs).1, ends(id)),
{
    lemma_initial_outstanding(list, id);
    lemma_run(initial(list), inputs, id);
}

} // verus!
