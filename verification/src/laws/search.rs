//! What the searches of the multiplexer find: the first position that fits, or that
//! none does.

use crate::behaviour::{
    active_from, is_ready, ready_from, sending_from, task_from, waiting_from, PendingView,
    ProtocolState,
};
use crate::endpoint::{expired_from, request_from, InFlight};
use crate::types::{ChannelView, RequestId};
use vstd::prelude::*;

verus! {

/// Where a request is found in the table of awaited ones, it is there.
pub proof fn lemma_request_from(in_flight: Seq<InFlight>, id: RequestId, from: int)
    requires
        0 <= from,
    ensures
        match request_from(in_flight, id, from) {
            Some(k) => from <= k < in_flight.len() && in_flight[k].request_id == id,
            None => true,
        },
    decreases in_flight.len() - from,
{
    if from < in_flight.len() && in_flight[from].request_id != id {
        lemma_request_from(in_flight, id, from + 1);
    }
}

/// Where a request whose deadline has come is found, it is there; where none is
/// found, every deadline is yet to come.
pub proof fn lemma_expired_from(in_flight: Seq<InFlight>, now: u64, from: int)
    requires
        0 <= from,
    ensures
        match expired_from(in_flight, now, from) {
            Some(k) => from <= k < in_flight.len() && in_flight[k].deadline <= now,
            None => forall|j: int| from <= j < in_flight.len() ==> in_flight[j].deadline > now,
        },
    decreases in_flight.len() - from,
{
    if from < in_flight.len() && in_flight[from].deadline > now {
        lemma_expired_from(in_flight, now, from + 1);
    }
}

/// Where a protocol that has something to tell is found, it is there; where none is
/// found, none has anything to tell.
pub proof fn lemma_active_from(protocols: Seq<ProtocolState>, now: u64, from: int)
    requires
        0 <= from,
    ensures
        match active_from(protocols, now, from) {
            Some(i) => from <= i < protocols.len() && protocols[i].endpoint.is_active(now),
            None => forall|j: int|
                from <= j < protocols.len() ==> !(#[trigger] protocols[j]).endpoint.is_active(now),
        },
    decreases protocols.len() - from,
{
    if from < protocols.len() && !protocols[from].endpoint.is_active(now) {
        lemma_active_from(protocols, now, from + 1);
    }
}

/// Where an inbound request is found among those that were taken in, it is there.
pub proof fn lemma_task_from(
    tasks: Seq<PendingView>,
    protocol: Seq<char>,
    channel: ChannelView,
    from: int,
)
    requires
        0 <= from,
    ensures
        match task_from(tasks, protocol, channel, from) {
            Some(k) => from <= k < tasks.len() && tasks[k].protocol == protocol
                && tasks[k].channel == channel,
            None => true,
        },
    decreases tasks.len() - from,
{
    if from < tasks.len() && !(tasks[from].protocol == protocol && tasks[from].channel == channel) {
        lemma_task_from(tasks, protocol, channel, from + 1);
    }
}

/// Where an inbound request of which the host is to be told is found, it is there;
/// where none is found, every one is being built or written out.
pub proof fn lemma_ready_from(tasks: Seq<PendingView>, from: int)
    requires
        0 <= from,
    ensures
        match ready_from(tasks, from) {
            Some(k) => from <= k < tasks.len() && is_ready(tasks[k].state),
            None => forall|j: int|
                from <= j < tasks.len() ==> !is_ready((#[trigger] tasks[j]).state),
        },
    decreases tasks.len() - from,
{
    if from < tasks.len() && !is_ready(tasks[from].state) {
        lemma_ready_from(tasks, from + 1);
    }
}

/// Where an inbound request whose response is being written out is found, it is
/// there.
pub proof fn lemma_sending_from(
    tasks: Seq<PendingView>,
    protocol: Seq<char>,
    channel: ChannelView,
    from: int,
)
    requires
        0 <= from,
    ensures
        match sending_from(tasks, protocol, channel, from) {
            Some(k) => from <= k < tasks.len() && tasks[k].protocol == protocol
                && tasks[k].channel == channel && tasks[k].state is Sending,
            None => true,
        },
    decreases tasks.len() - from,
{
    if from < tasks.len() && !(tasks[from].protocol == protocol && tasks[from].channel == channel
        && tasks[from].state is Sending) {
        lemma_sending_from(tasks, protocol, channel, from + 1);
    }
}

/// Where an inbound request whose response is being built is found under a name, it
/// is there.
pub proof fn lemma_waiting_from(tasks: Seq<PendingView>, slot: u64, from: int)
    requires
        0 <= from,
    ensures
        match waiting_from(tasks, slot, from) {
            Some(k) => from <= k < tasks.len() && tasks[k].slot == slot && tasks[k].state is Waiting,
            None => true,
        },
    decreases tasks.len() - from,
{
    if from < tasks.len() && !(tasks[from].slot == slot && tasks[from].state is Waiting) {
        lemma_waiting_from(tasks, slot, from + 1);
    }
}

} // verus!
