//! A run of the multiplexer: what is brought in, one thing after the other, and what
//! comes out for each.

use crate::behaviour::{
    active_from, ready_from, task_from, ConnectionChange, PendingView, ProgressView, State,
};
use crate::endpoint::{EndpointEventView, HandlerEvent};
use crate::types::{ConnectionId, RequestId, SendRequestError};
use vstd::prelude::*;

verus! {

/// What is brought in, one thing at a time.
pub enum Input {
    /// A request is to be sent.
    SendRequest { target: Seq<u8>, protocol: Seq<char>, request: Seq<u8>, now: u64 },
    /// The connections of a peer changed.
    ConnectionChange { peer: Seq<u8>, change: ConnectionChange },
    /// The handler of a connection reports.
    HandlerEvent { peer: Seq<u8>, connection: ConnectionId, protocol: Seq<char>, event: HandlerEvent },
    /// What was awaited for an inbound request came.
    Response { slot: u64, answer: Option<Seq<u8>> },
    /// The host takes a step. `accepted` says whether an inbound request that the
    /// step hands on is taken.
    Poll { now: u64, accepted: bool },
}

/// What comes out for one thing that was brought in.
pub enum Output {
    /// The outcome of sending a request.
    Sent(Result<RequestId, SendRequestError>),
    /// Whether what came for an inbound request was taken.
    Taken(bool),
    /// What a step asks of the host, and the inbound request that left the multiplexer
    /// in the step, if one did.
    Progress { progress: ProgressView, departed: Option<PendingView> },
    /// Nothing.
    Nothing,
}

/// The inbound request that leaves the multiplexer in a step at time `now`, if one
/// does: one that was given up, or whose response was written out, or that failed on
/// the network.
pub open spec fn departing(state: State, now: u64) -> Option<PendingView> {
    match ready_from(state.tasks, 0) {
        Some(k) => if state.tasks[k].state is Answered {
            None
        } else {
            Some(state.tasks[k])
        },
        None => match active_from(state.protocols, now, 0) {
            Some(i) => match state.protocols[i].endpoint.progress(now).1 {
                Some(EndpointEventView::InboundFailure { channel, error }) => match task_from(
                    state.tasks,
                    state.protocols[i].name,
                    channel,
                    0,
                ) {
                    Some(k) => Some(state.tasks[k]),
                    None => None,
                },
                _ => None,
            },
            None => None,
        },
    }
}

/// What one thing that is brought in does to the multiplexer, and what comes out.
pub open spec fn step(state: State, input: Input) -> (State, Output) {
    match input {
        Input::SendRequest { target, protocol, request, now } => {
            let (after, r) = state.send_request(now, target, protocol, request);
            (after, Output::Sent(r))
        },
        Input::ConnectionChange { peer, change } => (
            state.connection_change(peer, change),
            Output::Nothing,
        ),
        Input::HandlerEvent { peer, connection, protocol, event } => (
            state.handler_event(peer, connection, protocol, event),
            Output::Nothing,
        ),
        Input::Response { slot, answer } => {
            let (after, taken) = state.answer(slot, answer);
            (after, Output::Taken(taken))
        },
        Input::Poll { now, accepted } => {
            let (after, progress) = state.poll(now, accepted);
            (after, Output::Progress { progress, departed: departing(state, now) })
        },
    }
}

/// Whether the multiplexer can take what is brought in: it can, unless a request is
/// to be sent and the identities have run out.
pub open spec fn takes(state: State, input: Input) -> bool {
    input is SendRequest ==> state.next_request_id < u64::MAX
}

/// The multiplexer after all of `inputs` were brought in, and all that came out.
pub open spec fn run(state: State, inputs: Seq<Input>) -> (State, Seq<Output>)
    decreases inputs.len(),
{
    if inputs.len() == 0 {
        (state, Seq::empty())
    } else {
        let (before, outputs) = run(state, inputs.drop_last());
        let (after, output) = step(before, inputs.last());
        (after, outputs.push(output))
    }
}

/// Whether the multiplexer can take all of `inputs`, one after the other.
pub open spec fn runs(state: State, inputs: Seq<Input>) -> bool
    decreases inputs.len(),
{
    inputs.len() == 0 || (runs(state, inputs.drop_last()) && takes(
        run(state, inputs.drop_last()).0,
        inputs.last(),
    ))
}

/// Whether what is brought in is a step at time `now`.
pub open spec fn is_step_at(input: Input, now: u64) -> bool {
    input matches Input::Poll { now: at, .. } && at == now
}

/// Whether every one of `inputs` is a step at time `now`.
pub open spec fn all_steps_at(inputs: Seq<Input>, now: u64) -> bool {
    forall|n: int| 0 <= n < inputs.len() ==> is_step_at(#[trigger] inputs[n], now)
}

} // verus!
