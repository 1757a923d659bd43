//! Steps come to rest, and by then all is told that was due: the timeout of every
//! request whose deadline has come, and the end of every inbound request that was given
//! up or answered.

use crate::behaviour::{
    active_from, elapsed, inbound_event, is_ready, lemma_protocol_from, ready_from, task_from,
    PendingView, ProgressView, ProtocolState, State,
};
use crate::counting::{
    lemma_total_bounds, lemma_total_push, lemma_total_remove, lemma_total_update,
    lemma_total_within, lemma_total_zero, total,
};
use crate::endpoint::{deadline, expired_from, EndpointEventView, EndpointState, InFlight};
use crate::laws::inbound::{enters, leaves, lemma_run_tasks, live, named, tasks_in_order};
use crate::laws::outbound::{awaits, ends, lemma_run, outstanding, requests_in_order, sends};
use crate::laws::run::{all_steps_at, is_step_at, run, runs, step, Input, Output};
use crate::laws::search::{lemma_active_from, lemma_expired_from, lemma_ready_from, lemma_task_from};
use crate::types::{EventView, InboundError, OutboundFailure, RequestId};
use vstd::prelude::*;

verus! {

/// A step asks nothing of the host only where there is nothing to do: the state is
/// left as it was, no inbound request is there of which the host is to be told, no
/// endpoint has an event, and the deadline of every request of ours is yet to come.
pub proof fn lemma_pending_is_idle(state: State, now: u64, accepted: bool)
    requires
        state.poll(now, accepted).1 is Pending,
    ensures
        state.poll(now, accepted).0 == state,
        ready_from(state.tasks, 0) is None,
        forall|j: int|
            0 <= j < state.tasks.len() ==> !is_ready(
                (#[trigger] state.tasks[j]).state,
            ),
        forall|i: int|
            0 <= i < state.protocols.len() ==> (#[trigger] state.protocols[i]).endpoint.events.len()
                == 0,
        forall|i: int, k: int|
            0 <= i < state.protocols.len() && 0 <= k < state.protocols[i].endpoint.in_flight.len()
                ==> (#[trigger] state.protocols[i].endpoint.in_flight[k]).deadline > now,
{
    lemma_ready_from(state.tasks, 0);
    lemma_active_from(state.protocols, now, 0);
    match ready_from(state.tasks, 0) {
        Some(k) => {},
        None => match active_from(state.protocols, now, 0) {
            Some(i) => {
                lemma_expired_from(state.protocols[i].endpoint.in_flight, now, 0);
            },
            None => {
                assert forall|i: int, k: int|
                    0 <= i < state.protocols.len() && 0 <= k
                        < state.protocols[i].endpoint.in_flight.len() implies (
                #[trigger] state.protocols[i].endpoint.in_flight[k]).deadline > now by {
                    assert(!state.protocols[i].endpoint.is_active(now));
                    lemma_expired_from(state.protocols[i].endpoint.in_flight, now, 0);
                }
                assert forall|i: int| 0 <= i < state.protocols.len() implies (
                #[trigger] state.protocols[i]).endpoint.events.len() == 0 by {
                    assert(!state.protocols[i].endpoint.is_active(now));
                }
            },
        },
    }
}

/// A request that goes out is awaited until its deadline, which is the time at which
/// it was sent and the timeout of its protocol, and no later than the clock can tell.
pub proof fn lemma_sent_has_deadline(
    state: State,
    now: u64,
    target: Seq<u8>,
    protocol: Seq<char>,
    request: Seq<u8>,
)
    requires
        state.send_request(now, target, protocol, request).1 is Ok,
    ensures
        ({
            let i = state.find_protocol(protocol).unwrap();
            let after = state.send_request(now, target, protocol, request).0;
            let awaited = after.protocols[i].endpoint.in_flight.last();
            &&& 0 <= i < state.protocols.len()
            &&& after.protocols[i].endpoint.in_flight.len()
                == state.protocols[i].endpoint.in_flight.len() + 1
            &&& awaited.request_id == RequestId(state.next_request_id)
            &&& awaited.deadline == deadline(
                now,
                state.protocols[i].endpoint.request_timeout,
            )
            &&& awaited.deadline >= now
            &&& awaited.deadline - now <= state.protocols[i].endpoint.request_timeout
        }),
{
    lemma_protocol_from(state.protocols, protocol, 0);
}

/// While a request of ours is awaited and its deadline has come, a step does not ask
/// nothing of the host: the host is told of the timeout before it is left to wait.
pub proof fn lemma_deadline_bound(state: State, now: u64, accepted: bool, i: int, k: int)
    requires
        0 <= i < state.protocols.len(),
        0 <= k < state.protocols[i].endpoint.in_flight.len(),
        state.protocols[i].endpoint.in_flight[k].deadline <= now,
    ensures
        !(state.poll(now, accepted).1 is Pending),
{
    if state.poll(now, accepted).1 is Pending {
        lemma_pending_is_idle(state, now, accepted);
    }
}

/// One for a request of ours whose deadline has come at time `now`, nothing for
/// another.
pub open spec fn overdue(now: u64) -> spec_fn(InFlight) -> nat {
    |r: InFlight|
        if r.deadline <= now {
            1nat
        } else {
            0nat
        }
}

/// One for a request of ours that is awaited under the identity `id` and whose
/// deadline has come at time `now`, nothing for another.
pub open spec fn due(now: u64, id: RequestId) -> spec_fn(InFlight) -> nat {
    |r: InFlight|
        if r.request_id == id && r.deadline <= now {
            1nat
        } else {
            0nat
        }
}

/// How often the request `id` is awaited at a protocol with its deadline come.
pub open spec fn holds_due(now: u64, id: RequestId) -> spec_fn(ProtocolState) -> nat {
    |p: ProtocolState| total(p.endpoint.in_flight, due(now, id))
}

/// How often the request `id` is awaited with its deadline come.
pub open spec fn due_count(state: State, now: u64, id: RequestId) -> nat {
    total(state.protocols, holds_due(now, id))
}

/// One for an inbound request of which the host is to be told, nothing for another.
pub open spec fn ready() -> spec_fn(PendingView) -> nat {
    |t: PendingView|
        if is_ready(t.state) {
            1nat
        } else {
            0nat
        }
}

/// How many things an endpoint has to tell at time `now`: its events, and the
/// requests whose deadline has come.
pub open spec fn endpoint_work(endpoint: EndpointState, now: u64) -> nat {
    total(endpoint.in_flight, overdue(now)) + endpoint.events.len()
}

/// How many things a protocol has to tell at time `now`.
pub open spec fn tells_at(now: u64) -> spec_fn(ProtocolState) -> nat {
    |p: ProtocolState| endpoint_work(p.endpoint, now)
}

/// How many steps there are to take at time `now` before there is nothing to do.
pub open spec fn work(state: State, now: u64) -> nat {
    total(state.tasks, ready()) + total(state.protocols, tells_at(now))
}

/// One where a step tells the host that the request `id` timed out, nothing else.
pub open spec fn times_out(progress: ProgressView, id: RequestId) -> nat {
    if progress == ProgressView::GenerateEvent(
        EventView::OutboundFinished {
            request_id: id,
            outcome: Err(OutboundFailure::Timeout),
        },
    ) {
        1
    } else {
        0
    }
}

/// One for the output of a step that tells the host that the request `id` timed out,
/// nothing for another.
pub open spec fn timeouts(id: RequestId) -> spec_fn(Output) -> nat {
    |o: Output|
        match o {
            Output::Progress { progress, .. } => times_out(progress, id),
            _ => 0nat,
        }
}

/// An endpoint has something to tell exactly when its work is not nothing, and
/// telling it is one thing less to tell.
pub proof fn lemma_endpoint_work(endpoint: EndpointState, now: u64)
    ensures
        endpoint.is_active(now) <==> endpoint_work(endpoint, now) > 0,
        endpoint.is_active(now) ==> endpoint.progress(now).1 is Some && endpoint_work(
            endpoint.progress(now).0,
            now,
        ) + 1 == endpoint_work(endpoint, now),
{
    lemma_expired_from(endpoint.in_flight, now, 0);
    lemma_total_zero(endpoint.in_flight, overdue(now));
    match expired_from(endpoint.in_flight, now, 0) {
        Some(k) => {
            lemma_total_remove(endpoint.in_flight, k, overdue(now));
        },
        None => {},
    }
}

/// What an endpoint tells at time `now` takes the request that times out from those
/// whose deadline has come, and no other.
pub proof fn lemma_endpoint_due(endpoint: EndpointState, now: u64, id: RequestId)
    ensures
        total(endpoint.progress(now).0.in_flight, due(now, id)) + (if endpoint.progress(now).1
            == Some(
            EndpointEventView::OutboundFailure {
                request_id: id,
                error: OutboundFailure::Timeout,
            },
        ) && expired_from(endpoint.in_flight, now, 0) is Some {
            1nat
        } else {
            0nat
        }) == total(endpoint.in_flight, due(now, id)),
{
    lemma_expired_from(endpoint.in_flight, now, 0);
    match expired_from(endpoint.in_flight, now, 0) {
        Some(k) => {
            lemma_total_remove(endpoint.in_flight, k, due(now, id));
        },
        None => {},
    }
}

/// A step that asks something of the host is one step less to take; a step that asks
/// nothing is taken where there is none to take, and changes nothing.
pub proof fn lemma_poll_work(state: State, now: u64, accepted: bool)
    ensures
        state.poll(now, accepted).1 is Pending <==> work(state, now) == 0,
        work(state, now) == 0 ==> state.poll(now, accepted).0 == state,
        work(state, now) > 0 ==> work(state.poll(now, accepted).0, now) + 1 == work(state, now),
{
    lemma_ready_from(state.tasks, 0);
    lemma_active_from(state.protocols, now, 0);
    lemma_total_zero(state.tasks, ready());
    lemma_total_zero(state.protocols, tells_at(now));
    let after = state.poll(now, accepted).0;
    match ready_from(state.tasks, 0) {
        Some(k) => {
            if state.tasks[k].state is Answered {
                lemma_total_update(state.tasks, k, after.tasks[k], ready());
            } else {
                lemma_total_remove(state.tasks, k, ready());
            }
        },
        None => {
            match active_from(state.protocols, now, 0) {
                Some(i) => {
                    let endpoint = state.protocols[i].endpoint;
                    lemma_endpoint_work(endpoint, now);
                    let next = state.with_endpoint(i, endpoint.progress(now).0);
                    lemma_total_update(state.protocols, i, next.protocols[i], tells_at(now));
                    assert(after.protocols == next.protocols);
                    assert(total(after.tasks, ready()) == 0) by {
                        match endpoint.progress(now).1 {
                            Some(EndpointEventView::Request { request, channel }) => {
                                if after.tasks != state.tasks {
                                    lemma_total_push(state.tasks, after.tasks.last(), ready());
                                }
                            },
                            Some(EndpointEventView::InboundFailure { channel, error }) => {
                                lemma_task_from(state.tasks, state.protocols[i].name, channel, 0);
                                match task_from(state.tasks, state.protocols[i].name, channel, 0) {
                                    Some(k) => {
                                        lemma_total_remove(state.tasks, k, ready());
                                    },
                                    None => {},
                                }
                            },
                            _ => {},
                        }
                    }
                },
                None => {
                    assert forall|i: int| 0 <= i < state.protocols.len() implies tells_at(now)(
                        state.protocols[i],
                    ) == 0 by {
                        lemma_endpoint_work(state.protocols[i].endpoint, now);
                    }
                },
            }
        },
    }
}

/// A step at time `now` takes the request of which it tells the timeout from those
/// whose deadline has come, and no other.
pub proof fn lemma_poll_due(state: State, now: u64, accepted: bool, id: RequestId)
    ensures
        due_count(state.poll(now, accepted).0, now, id) + times_out(state.poll(now, accepted).1, id)
            >= due_count(state, now, id),
        due_count(state.poll(now, accepted).0, now, id) <= due_count(state, now, id),
{
    lemma_active_from(state.protocols, now, 0);
    if ready_from(state.tasks, 0) is None {
        match active_from(state.protocols, now, 0) {
            Some(i) => {
                let endpoint = state.protocols[i].endpoint;
                lemma_endpoint_due(endpoint, now, id);
                lemma_total_update(
                    state.protocols,
                    i,
                    state.with_endpoint(i, endpoint.progress(now).0).protocols[i],
                    holds_due(now, id),
                );
            },
            None => {},
        }
    }
}

/// Steps at one time, with nothing brought in between, come to rest: each takes one
/// thing off what there is to do, until nothing is left. The timeouts that are told
/// on the way are at least as many as deadlines are no longer due.
pub proof fn lemma_steps_rest(state: State, inputs: Seq<Input>, now: u64, id: RequestId)
    requires
        all_steps_at(inputs, now),
    ensures
        work(run(state, inputs).0, now) == (if work(state, now) >= inputs.len() {
            (work(state, now) - inputs.len()) as nat
        } else {
            0nat
        }),
        due_count(run(state, inputs).0, now, id) + total(run(state, inputs).1, timeouts(id))
            >= due_count(state, now, id),
        runs(state, inputs),
    decreases inputs.len(),
{
    if inputs.len() > 0 {
        let earlier = inputs.drop_last();
        assert(all_steps_at(earlier, now)) by {
            assert forall|n: int| 0 <= n < earlier.len() implies is_step_at(
                #[trigger] earlier[n],
                now,
            ) by {
                assert(earlier[n] == inputs[n]);
            }
        }
        lemma_steps_rest(state, earlier, now, id);
        let (before, outputs) = run(state, earlier);
        let last = inputs.last();
        assert(last == inputs[inputs.len() - 1]);
        let accepted = last->Poll_accepted;
        lemma_poll_work(before, now, accepted);
        lemma_poll_due(before, now, accepted, id);
        lemma_total_push(outputs, step(before, last).1, timeouts(id));
    }
}

/// Where there is nothing to do at time `now`, no request is awaited whose deadline
/// has come.
pub proof fn lemma_rest_has_none_due(state: State, now: u64, id: RequestId)
    requires
        work(state, now) == 0,
    ensures
        due_count(state, now, id) == 0,
{
    lemma_total_zero(state.protocols, tells_at(now));
    lemma_total_zero(state.protocols, holds_due(now, id));
    assert forall|i: int| 0 <= i < state.protocols.len() implies holds_due(now, id)(
        state.protocols[i],
    ) == 0 by {
        let in_flight = state.protocols[i].endpoint.in_flight;
        assert(tells_at(now)(state.protocols[i]) == 0);
        lemma_total_zero(in_flight, overdue(now));
        lemma_total_zero(in_flight, due(now, id));
    }
}

/// A request that is awaited can be told to have timed out only as often as it is
/// outstanding.
pub proof fn lemma_due_is_outstanding(state: State, now: u64, id: RequestId)
    ensures
        due_count(state, now, id) <= outstanding(state, id),
    decreases state.protocols.len(),
{
    if state.protocols.len() > 0 {
        let shorter = State { protocols: state.protocols.drop_last(), ..state };
        lemma_due_is_outstanding(shorter, now, id);
        lemma_total_within(state.protocols.last().endpoint.in_flight, due(now, id), awaits(id));
    }
}

/// Steps send no request.
pub proof fn lemma_steps_send_nothing(state: State, inputs: Seq<Input>, now: u64, id: RequestId)
    requires
        all_steps_at(inputs, now),
    ensures
        total(run(state, inputs).1, sends(id)) == 0,
    decreases inputs.len(),
{
    if inputs.len() > 0 {
        let earlier = inputs.drop_last();
        assert(all_steps_at(earlier, now)) by {
            assert forall|n: int| 0 <= n < earlier.len() implies is_step_at(
                #[trigger] earlier[n],
                now,
            ) by {
                assert(earlier[n] == inputs[n]);
            }
        }
        lemma_steps_send_nothing(state, earlier, now, id);
        assert(inputs.last() == inputs[inputs.len() - 1]);
        let (before, outputs) = run(state, earlier);
        lemma_total_push(outputs, step(before, inputs.last()).1, sends(id));
    }
}

/// An output that tells of a timeout tells the end of the request.
pub proof fn lemma_timeouts_are_ends(outputs: Seq<Output>, id: RequestId)
    ensures
        total(outputs, timeouts(id)) <= total(outputs, ends(id)),
{
    assert forall|o: Output| #[trigger] timeouts(id)(o) <= ends(id)(o) by {}
    lemma_total_within(outputs, timeouts(id), ends(id));
}

/// The deadline is kept: where a request of ours is awaited and its deadline has come,
/// the host is told that it timed out once it has taken as many steps as there is
/// work to do, whatever else there is to tell and whether or not the inbound
/// requests that come up on the way are taken. Where no request is outstanding
/// twice, it is told so exactly once, and the end of that request is told no other
/// way.
pub proof fn lemma_timeout_is_told(
    state: State,
    inputs: Seq<Input>,
    now: u64,
    i: int,
    k: int,
)
    requires
        all_steps_at(inputs, now),
        inputs.len() >= work(state, now),
        0 <= i < state.protocols.len(),
        0 <= k < state.protocols[i].endpoint.in_flight.len(),
        state.protocols[i].endpoint.in_flight[k].deadline <= now,
    ensures
        ({
            let id = state.protocols[i].endpoint.in_flight[k].request_id;
            &&& total(run(state, inputs).1, timeouts(id)) >= 1
            &&& requests_in_order(state) ==> total(run(state, inputs).1, timeouts(id)) == 1
                && total(run(state, inputs).1, ends(id)) == 1
        }),
{
    let id = state.protocols[i].endpoint.in_flight[k].request_id;
    let in_flight = state.protocols[i].endpoint.in_flight;
    lemma_steps_rest(state, inputs, now, id);
    lemma_rest_has_none_due(run(state, inputs).0, now, id);
    lemma_total_bounds(in_flight, k, due(now, id));
    lemma_total_bounds(state.protocols, i, holds_due(now, id));
    if requests_in_order(state) {
        lemma_due_is_outstanding(state, now, id);
        lemma_run(state, inputs, id);
        assert(outstanding(state, id) <= 1);
        lemma_steps_send_nothing(state, inputs, now, id);
        lemma_timeouts_are_ends(run(state, inputs).1, id);
    }
}

/// One for an inbound request called `slot` that was given up, nothing for another.
pub open spec fn given_up(slot: u64) -> spec_fn(PendingView) -> nat {
    |t: PendingView|
        if t.slot == slot && t.state is Dropped {
            1nat
        } else {
            0nat
        }
}

/// One for an inbound request called `slot` whose response was written out, nothing
/// for another.
pub open spec fn written_out(slot: u64) -> spec_fn(PendingView) -> nat {
    |t: PendingView|
        if t.slot == slot && t.state is Completed {
            1nat
        } else {
            0nat
        }
}

/// Whether a step is the one in which `task` leaves as busy.
pub open spec fn leaves_busy(output: Output, slot: u64) -> bool {
    output matches Output::Progress { progress, departed: Some(task) } && task.slot == slot
        && progress == inbound_event(
        task.channel.peer,
        task.protocol,
        Err(InboundError::Busy),
    )
}

/// Whether a step at time `now` is the one in which `task` leaves as answered.
pub open spec fn leaves_answered(output: Output, slot: u64, now: u64) -> bool {
    output matches Output::Progress { progress, departed: Some(task) } && task.slot == slot
        && progress == inbound_event(
        task.channel.peer,
        task.protocol,
        Ok(elapsed(now, task.received_at)),
    )
}

/// One for the output of the step in which the inbound request called `slot` leaves
/// as busy, nothing for another.
pub open spec fn busy_told(slot: u64) -> spec_fn(Output) -> nat {
    |o: Output|
        if leaves_busy(o, slot) {
            1nat
        } else {
            0nat
        }
}

/// One for the output of the step at time `now` in which the inbound request called
/// `slot` leaves as answered, nothing for another.
pub open spec fn answered_told(slot: u64, now: u64) -> spec_fn(Output) -> nat {
    |o: Output|
        if leaves_answered(o, slot, now) {
            1nat
        } else {
            0nat
        }
}

/// A step lets an inbound request that was given up leave as busy, and one whose
/// response was written out leave as answered; it gives up none and completes none.
pub proof fn lemma_poll_doomed(state: State, now: u64, accepted: bool, slot: u64)
    ensures
        ({
            let output = step(state, Input::Poll { now, accepted }).1;
            let after = state.poll(now, accepted).0;
            &&& total(after.tasks, given_up(slot)) + busy_told(slot)(output) >= total(
                state.tasks,
                given_up(slot),
            )
            &&& total(after.tasks, written_out(slot)) + answered_told(slot, now)(output) >= total(
                state.tasks,
                written_out(slot),
            )
        }),
{
    lemma_ready_from(state.tasks, 0);
    let after = state.poll(now, accepted).0;
    match ready_from(state.tasks, 0) {
        Some(k) => {
            if state.tasks[k].state is Answered {
                lemma_total_update(state.tasks, k, after.tasks[k], given_up(slot));
                lemma_total_update(state.tasks, k, after.tasks[k], written_out(slot));
            } else {
                lemma_total_remove(state.tasks, k, given_up(slot));
                lemma_total_remove(state.tasks, k, written_out(slot));
            }
        },
        None => {
            lemma_total_zero(state.tasks, given_up(slot));
            lemma_total_zero(state.tasks, written_out(slot));
        },
    }
}

/// Steps at one time let every inbound request that was given up leave as busy, and
/// every one whose response was written out leave as answered.
pub proof fn lemma_steps_doomed(state: State, inputs: Seq<Input>, now: u64, slot: u64)
    requires
        all_steps_at(inputs, now),
    ensures
        total(run(state, inputs).0.tasks, given_up(slot)) + total(
            run(state, inputs).1,
            busy_told(slot),
        ) >= total(state.tasks, given_up(slot)),
        total(run(state, inputs).0.tasks, written_out(slot)) + total(
            run(state, inputs).1,
            answered_told(slot, now),
        ) >= total(state.tasks, written_out(slot)),
        total(run(state, inputs).1, enters(slot)) > 0 ==> slot >= state.next_slot,
    decreases inputs.len(),
{
    if inputs.len() > 0 {
        let earlier = inputs.drop_last();
        assert(all_steps_at(earlier, now)) by {
            assert forall|n: int| 0 <= n < earlier.len() implies is_step_at(
                #[trigger] earlier[n],
                now,
            ) by {
                assert(earlier[n] == inputs[n]);
            }
        }
        lemma_steps_doomed(state, earlier, now, slot);
        let (before, outputs) = run(state, earlier);
        let last = inputs.last();
        assert(last == inputs[inputs.len() - 1]);
        lemma_poll_doomed(before, now, last->Poll_accepted, slot);
        lemma_total_push(outputs, step(before, last).1, busy_told(slot));
        lemma_total_push(outputs, step(before, last).1, answered_told(slot, now));
        lemma_run_tasks(state, inputs, slot);
    }
}

/// An inbound request whose reply was let go of surfaces as busy: once the host has
/// taken as many steps as there is work to do, it was told so. Where no inbound
/// request is held twice, it was told exactly once, and the request left the
/// multiplexer exactly once. The same holds of a request whose response was
/// written out, which leaves as answered.
pub proof fn lemma_end_is_told(state: State, inputs: Seq<Input>, now: u64, k: int)
    requires
        all_steps_at(inputs, now),
        inputs.len() >= work(state, now),
        0 <= k < state.tasks.len(),
        state.tasks[k].state is Dropped || state.tasks[k].state is Completed,
    ensures
        ({
            let slot = state.tasks[k].slot;
            let outputs = run(state, inputs).1;
            &&& state.tasks[k].state is Dropped ==> total(outputs, busy_told(slot)) >= 1
            &&& state.tasks[k].state is Completed ==> total(outputs, answered_told(slot, now)) >= 1
            &&& tasks_in_order(state) ==> total(outputs, leaves(slot)) == 1 && live(
                run(state, inputs).0,
                slot,
            ) == 0
        }),
{
    let slot = state.tasks[k].slot;
    let end = run(state, inputs).0;
    let outputs = run(state, inputs).1;
    lemma_steps_rest(state, inputs, now, RequestId(0));
    lemma_steps_doomed(state, inputs, now, slot);
    lemma_total_zero(end.tasks, ready());
    lemma_total_zero(end.tasks, given_up(slot));
    lemma_total_zero(end.tasks, written_out(slot));
    lemma_total_bounds(state.tasks, k, given_up(slot));
    lemma_total_bounds(state.tasks, k, written_out(slot));
    if tasks_in_order(state) {
        lemma_run_tasks(state, inputs, slot);
        lemma_total_bounds(state.tasks, k, named(slot));
        assert(live(state, slot) == 1);
        assert forall|o: Output| #[trigger] busy_told(slot)(o) <= leaves(slot)(o) by {}
        assert forall|o: Output| #[trigger] answered_told(slot, now)(o) <= leaves(slot)(o) by {}
        lemma_total_within(outputs, busy_told(slot), leaves(slot));
        lemma_total_within(outputs, answered_told(slot, now), leaves(slot));
    }
}

} // verus!
