//! The books of the inbound requests: each that is taken in leaves with the one event
//! that tells how it ended; a request that nobody takes ends as busy; a response is
//! written only where one was built.

use crate::behaviour::{
    active_from, endpoint_change, inbound_event, initial, lemma_protocol_from, ready_from,
    sending_from, task_from, waiting_from, ConnectionChange, PendingView, ProgressView,
    ProtocolConfig, ResponseStateView, State,
};
use crate::codec::frame;
use crate::counting::{lemma_total_push, lemma_total_remove, lemma_total_update, total};
use crate::endpoint::{
    closed_failures, EndpointEventView, EndpointState, HandlerActionView, HandlerEvent, InFlight,
};
use crate::laws::outbound::{
    lemma_handler_event, lemma_initial_outstanding, lemma_run, outstanding, requests_in_order,
};
use crate::laws::run::{departing, run, runs, step, Input, Output};
use crate::laws::search::{
    lemma_active_from, lemma_expired_from, lemma_ready_from, lemma_request_from,
    lemma_sending_from, lemma_task_from, lemma_waiting_from,
};
use crate::types::{ChannelView, ConnectionId, EventView, InboundError, RequestId};
use vstd::prelude::*;

verus! {

/// One for an inbound request that goes by the name `slot`, nothing for another.
pub open spec fn named(slot: u64) -> spec_fn(PendingView) -> nat {
    |t: PendingView|
        if t.slot == slot {
            1nat
        } else {
            0nat
        }
}

/// How many inbound requests that were taken in, and of which the host has not been
/// told the end, go by the name `slot`.
pub open spec fn live(state: State, slot: u64) -> nat {
    total(state.tasks, named(slot))
}

/// Whether a step tells the host how the inbound request `task` ended.
pub open spec fn tells_end_of(progress: ProgressView, task: PendingView) -> bool {
    progress matches ProgressView::GenerateEvent(EventView::InboundRequest { peer, protocol, .. })
        && peer == task.channel.peer && protocol == task.protocol
}

/// One where a step asks the host to await the response to the inbound request
/// called `slot`, nothing else.
pub open spec fn takes_in(progress: ProgressView, slot: u64) -> nat {
    if progress == (ProgressView::AwaitResponse { slot }) {
        1
    } else {
        0
    }
}

/// The report of a handler takes no inbound request from the multiplexer and gives
/// it none.
pub proof fn lemma_handler_event_tasks(
    state: State,
    peer: Seq<u8>,
    connection: ConnectionId,
    protocol: Seq<char>,
    event: HandlerEvent,
    slot: u64,
)
    ensures
        live(state.handler_event(peer, connection, protocol, event), slot) == live(state, slot),
{
    let after = state.handler_event(peer, connection, protocol, event);
    if after.tasks != state.tasks {
        let request_id = event->ResponseSent_0;
        let channel = ChannelView { peer, connection, request_id };
        lemma_sending_from(state.tasks, protocol, channel, 0);
        let k = sending_from(state.tasks, protocol, channel, 0).unwrap();
        lemma_total_update(state.tasks, k, after.tasks[k], named(slot));
    }
}

/// What comes for an inbound request takes none from the multiplexer and gives it
/// none.
pub proof fn lemma_answer_tasks(state: State, name: u64, answer: Option<Seq<u8>>, slot: u64)
    ensures
        live(state.answer(name, answer).0, slot) == live(state, slot),
        state.answer(name, answer).0.next_slot == state.next_slot,
        state.answer(name, answer).0.protocols == state.protocols,
        state.answer(name, answer).0.next_request_id == state.next_request_id,
{
    lemma_waiting_from(state.tasks, name, 0);
    match waiting_from(state.tasks, name, 0) {
        Some(k) => {
            lemma_total_update(state.tasks, k, state.answer(name, answer).0.tasks[k], named(slot));
        },
        None => {},
    }
}

/// An inbound request leaves the multiplexer only in a step that tells the host how
/// it ended, and one enters only in a step that asks the host to await its response,
/// under the next name.
pub proof fn lemma_poll_tasks(state: State, now: u64, accepted: bool, slot: u64)
    ensures
        match departing(state, now) {
            Some(task) => live(state.poll(now, accepted).0, slot) + named(slot)(task) == live(
                state,
                slot,
            ) && tells_end_of(state.poll(now, accepted).1, task) && takes_in(
                state.poll(now, accepted).1,
                slot,
            ) == 0,
            None => live(state.poll(now, accepted).0, slot) == live(state, slot) + takes_in(
                state.poll(now, accepted).1,
                slot,
            ),
        },
        state.poll(now, accepted).0.next_slot >= state.next_slot,
        takes_in(state.poll(now, accepted).1, slot) > 0 ==> slot == state.next_slot
            && state.poll(now, accepted).0.next_slot == state.next_slot + 1,
{
    lemma_ready_from(state.tasks, 0);
    lemma_active_from(state.protocols, now, 0);
    match ready_from(state.tasks, 0) {
        Some(k) => {
            if state.tasks[k].state is Answered {
                lemma_total_update(state.tasks, k, state.poll(now, accepted).0.tasks[k], named(slot));
            } else {
                lemma_total_remove(state.tasks, k, named(slot));
            }
        },
        None => match active_from(state.protocols, now, 0) {
            Some(i) => {
                let (endpoint, event) = state.protocols[i].endpoint.progress(now);
                let next = state.with_endpoint(i, endpoint);
                let name = state.protocols[i].name;
                match event {
                    Some(EndpointEventView::Request { request, channel }) => {
                        let after = next.take_in(i, channel, now, accepted).0;
                        if after.tasks != state.tasks {
                            lemma_total_push(state.tasks, after.tasks.last(), named(slot));
                        }
                    },
                    Some(EndpointEventView::InboundFailure { channel, error }) => {
                        lemma_task_from(state.tasks, name, channel, 0);
                        match task_from(state.tasks, name, channel, 0) {
                            Some(k) => {
                                lemma_total_remove(state.tasks, k, named(slot));
                            },
                            None => {},
                        }
                    },
                    _ => {},
                }
            },
            None => {},
        },
    }
}

/// One for the output of a step that asks the host to await the response to the
/// inbound request called `slot`, nothing for another.
pub open spec fn enters(slot: u64) -> spec_fn(Output) -> nat {
    |o: Output|
        match o {
            Output::Progress { progress, .. } => takes_in(progress, slot),
            _ => 0nat,
        }
}

/// One for the output of a step in which the inbound request called `slot` left the
/// multiplexer, nothing for another.
pub open spec fn leaves(slot: u64) -> spec_fn(Output) -> nat {
    |o: Output|
        match o {
            Output::Progress { departed: Some(task), .. } => named(slot)(task),
            _ => 0nat,
        }
}

/// Whether an output in which an inbound request left the multiplexer tells the host
/// how that request ended.
pub open spec fn ends_told(output: Output) -> bool {
    output matches Output::Progress { progress, departed: Some(task) } ==> tells_end_of(
        progress,
        task,
    )
}

/// What one thing that is brought in does to the books of the inbound request called
/// `slot`.
pub proof fn lemma_step_tasks(state: State, input: Input, slot: u64)
    ensures
        live(step(state, input).0, slot) + leaves(slot)(step(state, input).1) == live(state, slot)
            + enters(slot)(step(state, input).1),
        step(state, input).0.next_slot >= state.next_slot,
        enters(slot)(step(state, input).1) > 0 ==> slot == state.next_slot && step(
            state,
            input,
        ).0.next_slot == state.next_slot + 1,
        ends_told(step(state, input).1),
{
    match input {
        Input::SendRequest { target, protocol, request, now } => {},
        Input::ConnectionChange { peer, change } => {},
        Input::HandlerEvent { peer, connection, protocol, event } => {
            lemma_handler_event_tasks(state, peer, connection, protocol, event, slot);
            lemma_handler_event(state, peer, connection, protocol, event, RequestId(0));
        },
        Input::Response { slot: name, answer } => {
            lemma_answer_tasks(state, name, answer, slot);
        },
        Input::Poll { now, accepted } => {
            lemma_poll_tasks(state, now, accepted, slot);
        },
    }
}

/// The books of the inbound request called `slot` over a whole run: how often it is
/// held at the end is how often it was at the start, and how often it entered, less
/// how often it left. It enters at most once, and only under a name that was not given
/// before the run. Every output in which a request left tells how it ended.
pub proof fn lemma_run_tasks(state: State, inputs: Seq<Input>, slot: u64)
    ensures
        live(run(state, inputs).0, slot) + total(run(state, inputs).1, leaves(slot)) == live(
            state,
            slot,
        ) + total(run(state, inputs).1, enters(slot)),
        run(state, inputs).0.next_slot >= state.next_slot,
        total(run(state, inputs).1, enters(slot)) <= 1,
        total(run(state, inputs).1, enters(slot)) > 0 ==> state.next_slot <= slot < run(
            state,
            inputs,
        ).0.next_slot,
        forall|n: int| 0 <= n < run(state, inputs).1.len() ==> ends_told(run(state, inputs).1[n]),
        run(state, inputs).1.len() == inputs.len(),
    decreases inputs.len(),
{
    if inputs.len() > 0 {
        lemma_run_tasks(state, inputs.drop_last(), slot);
        let (before, outputs) = run(state, inputs.drop_last());
        lemma_step_tasks(before, inputs.last(), slot);
        let output = step(before, inputs.last()).1;
        lemma_total_push(outputs, output, leaves(slot));
        lemma_total_push(outputs, output, enters(slot));
    }
}

/// For every inbound request that was taken in, the host is told the end at most
/// once, and not before the request was taken in: of all that comes out of a
/// multiplexer from its start, no more outputs let the request called `slot` leave
/// than take it in, and at most one takes it in. Every output that lets a request
/// leave is the event that tells how that request ended, and a request that is
/// still held has not left.
pub proof fn lemma_at_most_one_inbound_event(list: Seq<ProtocolConfig>, inputs: Seq<Input>, slot: u64)
    ensures
        total(run(initial(list), inputs).1, leaves(slot)) <= total(
            run(initial(list), inputs).1,
            enters(slot),
        ) <= 1,
        live(run(initial(list), inputs).0, slot) == total(
            run(initial(list), inputs).1,
            enters(slot),
        ) - total(run(initial(list), inputs).1, leaves(slot)),
        forall|n: int|
            0 <= n < run(initial(list), inputs).1.len() ==> ends_told(
                run(initial(list), inputs).1[n],
            ),
{
    lemma_run_tasks(initial(list), inputs, slot);
}

/// No inbound request is held twice under one name, and every one that is held was
/// given its name before.
pub open spec fn tasks_in_order(state: State) -> bool {
    forall|slot: u64| #[trigger]
        live(state, slot) <= 1 && (live(state, slot) > 0 ==> slot < state.next_slot)
}

/// From its start on, a multiplexer keeps its books in order: no request of ours is
/// outstanding twice, no inbound request is held twice, and none goes by an identity
/// that is yet to be given.
pub proof fn lemma_books_in_order(list: Seq<ProtocolConfig>, inputs: Seq<Input>)
    requires
        runs(initial(list), inputs),
    ensures
        requests_in_order(run(initial(list), inputs).0),
        tasks_in_order(run(initial(list), inputs).0),
{
    let end = run(initial(list), inputs).0;
    assert forall|id: RequestId| #[trigger]
        outstanding(end, id) <= 1 && (outstanding(end, id) > 0 ==> id.0
            < end.next_request_id) by {
        lemma_initial_outstanding(list, id);
        lemma_run(initial(list), inputs, id);
    }
    assert forall|slot: u64| #[trigger]
        live(end, slot) <= 1 && (live(end, slot) > 0 ==> slot < end.next_slot) by {
        lemma_run_tasks(initial(list), inputs, slot);
    }
}

/// An inbound request that nobody takes ends as busy in the step that takes it from
/// its endpoint, and leaves no trace: the multiplexer holds the inbound requests
/// that it held, so that nothing is ever written in answer to this one.
pub proof fn lemma_busy_surfaces(
    state: State,
    now: u64,
    accepted: bool,
    i: int,
    request: Seq<u8>,
    channel: ChannelView,
)
    requires
        ready_from(state.tasks, 0) is None,
        active_from(state.protocols, now, 0) == Some(i),
        state.protocols[i].endpoint.progress(now).1 == Some(
            EndpointEventView::Request { request, channel },
        ),
        !accepted || !state.protocols[i].has_channel || state.next_slot == u64::MAX,
    ensures
        state.poll(now, accepted).1 == inbound_event(
            channel.peer,
            state.protocols[i].name,
            Err(InboundError::Busy),
        ),
        state.poll(now, accepted).0 == state.with_endpoint(
            i,
            state.protocols[i].endpoint.progress(now).0,
        ),
        state.poll(now, accepted).0.tasks == state.tasks,
{
    lemma_active_from(state.protocols, now, 0);
}

/// An inbound request that is taken is held from then on under the next name, and the
/// host is asked to await its response.
pub proof fn lemma_taken_is_held(
    state: State,
    now: u64,
    i: int,
    request: Seq<u8>,
    channel: ChannelView,
)
    requires
        ready_from(state.tasks, 0) is None,
        active_from(state.protocols, now, 0) == Some(i),
        state.protocols[i].endpoint.progress(now).1 == Some(
            EndpointEventView::Request { request, channel },
        ),
        state.protocols[i].has_channel,
        state.next_slot < u64::MAX,
    ensures
        state.poll(now, true).1 == (ProgressView::AwaitResponse { slot: state.next_slot }),
        state.poll(now, true).0.tasks == state.tasks.push(
            PendingView {
                slot: state.next_slot,
                protocol: state.protocols[i].name,
                channel,
                received_at: now,
                state: ResponseStateView::Waiting,
            },
        ),
{
    lemma_active_from(state.protocols, now, 0);
}

/// Whether an event of an endpoint is the order to write a response.
pub open spec fn orders_response(event: EndpointEventView) -> bool {
    event matches EndpointEventView::NotifyHandler { event: order, .. } && order is SendResponse
}

/// Whether no endpoint holds the order to write a response: such an order is never
/// kept, but given to the host in the step that makes it.
pub open spec fn no_response_queued(state: State) -> bool {
    forall|i: int, k: int|
        0 <= i < state.protocols.len() && 0 <= k < state.protocols[i].endpoint.events.len()
            ==> !orders_response(#[trigger] state.protocols[i].endpoint.events[k])
}

/// Whether no event of the list is the order to write a response.
pub open spec fn none_orders_response(events: Seq<EndpointEventView>) -> bool {
    forall|k: int| 0 <= k < events.len() ==> !orders_response(#[trigger] events[k])
}

/// The failures of the requests that went out on a closed connection are failures.
pub proof fn lemma_closed_failures(in_flight: Seq<InFlight>, connection: ConnectionId)
    ensures
        none_orders_response(closed_failures(in_flight, connection)),
    decreases in_flight.len(),
{
    if in_flight.len() > 0 {
        lemma_closed_failures(in_flight.drop_last(), connection);
    }
}

/// A change to the connections of a peer puts no order to write a response into the
/// queue of an endpoint.
pub proof fn lemma_endpoint_change_clean(
    endpoint: EndpointState,
    peer: Seq<u8>,
    change: ConnectionChange,
)
    requires
        none_orders_response(endpoint.events),
    ensures
        none_orders_response(endpoint_change(endpoint, peer, change).events),
{
    match change {
        ConnectionChange::Closed(connection) => {
            lemma_closed_failures(endpoint.in_flight, connection);
        },
        _ => {},
    }
}

/// Nothing that is brought in puts the order to write a response into the queue of
/// an endpoint.
pub proof fn lemma_step_clean(state: State, input: Input)
    requires
        no_response_queued(state),
    ensures
        no_response_queued(step(state, input).0),
{
    let after = step(state, input).0;
    assert forall|i: int| 0 <= i < state.protocols.len() implies none_orders_response(
        (#[trigger] state.protocols[i]).endpoint.events,
    ) by {
        assert forall|k: int| 0 <= k < state.protocols[i].endpoint.events.len() implies !orders_response(
            #[trigger] state.protocols[i].endpoint.events[k],
        ) by {}
    }
    assert(after.protocols.len() == state.protocols.len()) by {
        match input {
            Input::SendRequest { target, protocol, request, now } => {
                lemma_protocol_from(state.protocols, protocol, 0);
            },
            Input::HandlerEvent { peer, connection, protocol, event } => {
                lemma_protocol_from(state.protocols, protocol, 0);
            },
            Input::Poll { now, accepted } => {
                lemma_active_from(state.protocols, now, 0);
            },
            _ => {},
        }
    }
    assert forall|i: int| 0 <= i < after.protocols.len() implies none_orders_response(
        (#[trigger] after.protocols[i]).endpoint.events,
    ) by {
        assert(none_orders_response(state.protocols[i].endpoint.events));
        match input {
            Input::SendRequest { target, protocol, request, now } => {
                lemma_protocol_from(state.protocols, protocol, 0);
            },
            Input::ConnectionChange { peer, change } => {
                lemma_endpoint_change_clean(state.protocols[i].endpoint, peer, change);
            },
            Input::HandlerEvent { peer, connection, protocol, event } => {
                lemma_protocol_from(state.protocols, protocol, 0);
                match event {
                    HandlerEvent::Response { request_id, wire } => {
                        lemma_request_from(state.protocols[i].endpoint.in_flight, request_id, 0);
                    },
                    HandlerEvent::OutboundFailure { request_id, error } => {
                        lemma_request_from(state.protocols[i].endpoint.in_flight, request_id, 0);
                    },
                    _ => {},
                }
            },
            Input::Response { slot, answer } => {},
            Input::Poll { now, accepted } => {
                lemma_active_from(state.protocols, now, 0);
                lemma_expired_from(state.protocols[i].endpoint.in_flight, now, 0);
                let before = state.protocols[i].endpoint.events;
                let then = after.protocols[i].endpoint.events;
                if then != before {
                    assert(then == before.remove(0));
                    assert forall|k: int| 0 <= k < then.len() implies !orders_response(
                        #[trigger] then[k],
                    ) by {
                        assert(then[k] == before[k + 1]);
                    }
                }
            },
        }
    }
}

/// From its start on, no endpoint of a multiplexer holds the order to write a
/// response.
pub proof fn lemma_run_clean(list: Seq<ProtocolConfig>, inputs: Seq<Input>)
    ensures
        no_response_queued(run(initial(list), inputs).0),
    decreases inputs.len(),
{
    if inputs.len() > 0 {
        lemma_run_clean(list, inputs.drop_last());
        lemma_step_clean(run(initial(list), inputs.drop_last()).0, inputs.last());
    }
}

/// A response is written only for an inbound request that was taken in and whose
/// response was built: where a step gives the order to write one, it is the response
/// that was brought for the oldest such request, framed, on the substream of that
/// request.
pub proof fn lemma_response_is_the_answer(state: State, now: u64, accepted: bool)
    requires
        no_response_queued(state),
        state.poll(now, accepted).1 matches ProgressView::NotifyHandler { event, .. }
            && event is SendResponse,
    ensures
        ({
            let k = ready_from(state.tasks, 0).unwrap();
            &&& ready_from(state.tasks, 0) is Some
            &&& 0 <= k < state.tasks.len()
            &&& state.tasks[k].state matches ResponseStateView::Answered(response)
            &&& state.poll(now, accepted).1 == (ProgressView::NotifyHandler {
                peer: state.tasks[k].channel.peer,
                connection: state.tasks[k].channel.connection,
                protocol: state.tasks[k].protocol,
                event: HandlerActionView::SendResponse {
                    request_id: state.tasks[k].channel.request_id,
                    wire: frame(response),
                },
            })
        }),
{
    lemma_ready_from(state.tasks, 0);
    lemma_active_from(state.protocols, now, 0);
    match ready_from(state.tasks, 0) {
        Some(k) => {},
        None => match active_from(state.protocols, now, 0) {
            Some(i) => {
                lemma_expired_from(state.protocols[i].endpoint.in_flight, now, 0);
                if state.protocols[i].endpoint.events.len() > 0 {
                    assert(!orders_response(state.protocols[i].endpoint.events[0]));
                }
            },
            None => {},
        },
    }
}

} // verus!
