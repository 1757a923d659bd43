use futures::channel::mpsc;
use request_responses::behaviour::{
    HandlerConfig, IncomingRequest, Progress, ProtocolConfig, RequestResponsesBehaviour,
};
use request_responses::codec::GenericCodec;
use request_responses::endpoint::{HandlerAction, HandlerEvent};
use request_responses::types::{
    ConnectionId, Event, InboundError, InboundFailure, OutboundFailure, PeerId, RequestId,
};

fn protocol(
    name: &str,
    request_timeout: u64,
    requests_processing: Option<mpsc::Sender<IncomingRequest>>,
) -> ProtocolConfig {
    ProtocolConfig {
        name: name.to_string(),
        max_request_size: 64,
        max_response_size: 64,
        request_timeout,
        requests_processing,
    }
}

fn peer(n: u8) -> PeerId {
    PeerId::from_bytes(vec![n; 4])
}

/// Takes steps until there is nothing to do, and gives what was asked on the way.
fn drain(behaviour: &mut RequestResponsesBehaviour, now: u64) -> Vec<Progress> {
    let mut asked = Vec::new();
    loop {
        match behaviour.poll(now) {
            Progress::Pending => return asked,
            progress => asked.push(progress),
        }
    }
}

fn events(asked: Vec<Progress>) -> Vec<Event> {
    asked
        .into_iter()
        .filter_map(|progress| match progress {
            Progress::GenerateEvent(event) => Some(event),
            _ => None,
        })
        .collect()
}

#[test]
fn the_end_of_a_request_of_ours_is_told_once() {
    let mut behaviour =
        RequestResponsesBehaviour::new(vec![protocol("/a", 50, None)]).ok().unwrap();
    behaviour.inject_connection_established(&peer(1), ConnectionId(1));
    let first = behaviour.send_request(&peer(1), "/a", vec![1], 0).unwrap();
    let second = behaviour.send_request(&peer(1), "/a", vec![2], 0).unwrap();
    assert_eq!((first, second), (RequestId(1), RequestId(2)));
    assert_eq!(behaviour.next_request_id(), RequestId(3));
    assert_eq!(drain(&mut behaviour, 0).len(), 2);

    // The first is answered twice, then fails, then times out: one event.
    for wire in [vec![1u8, 7], vec![1, 8]] {
        behaviour.inject_event(
            peer(1),
            ConnectionId(1),
            "/a",
            HandlerEvent::Response { request_id: first, wire },
        );
    }
    behaviour.inject_event(
        peer(1),
        ConnectionId(1),
        "/a",
        HandlerEvent::OutboundFailure { request_id: first, error: OutboundFailure::DialFailure },
    );
    behaviour.inject_connection_closed(&peer(1), ConnectionId(1));
    let told = events(drain(&mut behaviour, 1_000));
    assert_eq!(
        told,
        vec![
            Event::OutboundFinished { request_id: first, outcome: Ok(vec![7]) },
            Event::OutboundFinished {
                request_id: second,
                outcome: Err(OutboundFailure::ConnectionClosed)
            },
        ]
    );
    assert!(drain(&mut behaviour, u64::MAX).is_empty());
}

#[test]
fn the_end_of_an_inbound_request_is_told_once() {
    let (tx, _rx) = mpsc::channel(4);
    let mut behaviour =
        RequestResponsesBehaviour::new(vec![protocol("/a", 50, Some(tx))]).ok().unwrap();
    behaviour.inject_event(
        peer(1),
        ConnectionId(1),
        "/a",
        HandlerEvent::Request { request_id: RequestId(5), wire: vec![1, 1] },
    );
    let slot = match behaviour.poll(0) {
        Progress::AwaitResponse { slot, .. } => slot,
        other => panic!("expected to await a response, got {:?}", other),
    };
    behaviour.inject_event(
        peer(1),
        ConnectionId(1),
        "/a",
        HandlerEvent::InboundFailure { request_id: RequestId(5), error: InboundFailure::Timeout },
    );
    assert_eq!(
        events(drain(&mut behaviour, 10)),
        vec![Event::InboundRequest {
            peer: peer(1),
            protocol: "/a".to_string(),
            outcome: Err(InboundError::Network(InboundFailure::Timeout)),
        }]
    );
    assert_eq!(behaviour.pending_response_count(), 0);
    // The response that comes late is not taken, and nothing is told of it.
    assert!(!behaviour.inject_response(slot, Some(vec![9])));
    behaviour.inject_event(peer(1), ConnectionId(1), "/a", HandlerEvent::ResponseSent(RequestId(5)));
    assert!(drain(&mut behaviour, 20).is_empty());
}

#[test]
fn a_failure_on_one_protocol_leaves_the_others_alone() {
    let mut behaviour = RequestResponsesBehaviour::new(vec![
        protocol("/a", 1_000, None),
        protocol("/b", 1_000, None),
    ])
    .ok()
    .unwrap();
    behaviour.inject_connection_established(&peer(1), ConnectionId(1));
    behaviour.inject_connection_established(&peer(2), ConnectionId(2));
    let on_a = behaviour.send_request(&peer(1), "/a", vec![1], 0).unwrap();
    let other_on_a = behaviour.send_request(&peer(2), "/a", vec![2], 0).unwrap();
    let on_b = behaviour.send_request(&peer(1), "/b", vec![3], 0).unwrap();
    assert_eq!(drain(&mut behaviour, 0).len(), 3);

    // On `/a` the peer sends a response that is too long.
    let mut wire = vec![65u8];
    wire.extend_from_slice(&[0; 65]);
    behaviour.inject_event(
        peer(1),
        ConnectionId(1),
        "/a",
        HandlerEvent::Response { request_id: on_a, wire },
    );
    // Tagged with `/b`, a report on a request of `/a` changes nothing.
    behaviour.inject_event(
        peer(2),
        ConnectionId(2),
        "/b",
        HandlerEvent::OutboundFailure { request_id: other_on_a, error: OutboundFailure::Timeout },
    );
    assert_eq!(
        events(drain(&mut behaviour, 10)),
        vec![Event::OutboundFinished {
            request_id: on_a,
            outcome: Err(OutboundFailure::SizeExceeded)
        }]
    );
    for (request_id, from, connection, name) in
        [(other_on_a, peer(2), ConnectionId(2), "/a"), (on_b, peer(1), ConnectionId(1), "/b")]
    {
        behaviour.inject_event(
            from,
            connection,
            name,
            HandlerEvent::Response { request_id, wire: vec![1, 42] },
        );
    }
    assert_eq!(
        events(drain(&mut behaviour, 20)),
        vec![
            Event::OutboundFinished { request_id: other_on_a, outcome: Ok(vec![42]) },
            Event::OutboundFinished { request_id: on_b, outcome: Ok(vec![42]) },
        ]
    );
}

#[test]
fn inbound_requests_come_before_endpoints_and_endpoints_in_order() {
    let (tx_a, _rx_a) = mpsc::channel(4);
    let (tx_b, _rx_b) = mpsc::channel(4);
    let mut behaviour = RequestResponsesBehaviour::new(vec![
        protocol("/a", 1_000, Some(tx_a)),
        protocol("/b", 1_000, Some(tx_b)),
    ])
    .ok()
    .unwrap();
    behaviour.inject_connection_established(&peer(1), ConnectionId(1));
    behaviour.inject_event(
        peer(1),
        ConnectionId(1),
        "/b",
        HandlerEvent::Request { request_id: RequestId(1), wire: vec![0] },
    );
    let slot = match behaviour.poll(0) {
        Progress::AwaitResponse { slot, .. } => slot,
        other => panic!("expected to await a response, got {:?}", other),
    };
    let on_b = behaviour.send_request(&peer(1), "/b", vec![2], 0).unwrap();
    let on_a = behaviour.send_request(&peer(1), "/a", vec![1], 0).unwrap();
    assert!(behaviour.inject_response(slot, Some(vec![5, 5])));

    let asked = drain(&mut behaviour, 0);
    assert_eq!(asked.len(), 3);
    let orders: Vec<(String, HandlerAction)> = asked
        .into_iter()
        .map(|progress| match progress {
            Progress::NotifyHandler { protocol, event, .. } => (protocol, event),
            other => panic!("expected an order, got {:?}", other),
        })
        .collect();
    assert_eq!(
        orders,
        vec![
            (
                "/b".to_string(),
                HandlerAction::SendResponse { request_id: RequestId(1), wire: vec![2, 5, 5] }
            ),
            ("/a".to_string(), HandlerAction::SendRequest { request_id: on_a, wire: vec![1, 1] }),
            ("/b".to_string(), HandlerAction::SendRequest { request_id: on_b, wire: vec![1, 2] }),
        ]
    );
}

#[test]
fn reports_for_what_is_not_there_change_nothing() {
    let (tx, _rx) = mpsc::channel(4);
    let mut behaviour =
        RequestResponsesBehaviour::new(vec![protocol("/a", 50, Some(tx))]).ok().unwrap();
    behaviour.inject_event(
        peer(1),
        ConnectionId(1),
        "/zzz",
        HandlerEvent::Request { request_id: RequestId(1), wire: vec![0] },
    );
    behaviour.inject_event(peer(1), ConnectionId(1), "/a", HandlerEvent::ResponseSent(RequestId(1)));
    behaviour.inject_event(
        peer(1),
        ConnectionId(1),
        "/a",
        HandlerEvent::Response { request_id: RequestId(1), wire: vec![0] },
    );
    assert!(!behaviour.inject_response(1, None));
    assert!(drain(&mut behaviour, u64::MAX).is_empty());
    assert_eq!(behaviour.pending_response_count(), 0);
}

#[test]
fn a_step_that_asks_for_nothing_leaves_no_deadline_behind() {
    let mut behaviour = RequestResponsesBehaviour::new(vec![
        protocol("/slow", 500, None),
        protocol("/fast", 100, None),
    ])
    .ok()
    .unwrap();
    behaviour.inject_connection_established(&peer(1), ConnectionId(1));
    let slow = behaviour.send_request(&peer(1), "/slow", vec![], 1_000).unwrap();
    let fast = behaviour.send_request(&peer(1), "/fast", vec![], 1_000).unwrap();
    assert_eq!(drain(&mut behaviour, 1_000).len(), 2);
    assert!(drain(&mut behaviour, 1_099).is_empty());
    assert_eq!(
        events(drain(&mut behaviour, 1_100)),
        vec![Event::OutboundFinished { request_id: fast, outcome: Err(OutboundFailure::Timeout) }]
    );
    assert!(drain(&mut behaviour, 1_499).is_empty());
    assert_eq!(
        events(drain(&mut behaviour, 7_000)),
        vec![Event::OutboundFinished { request_id: slow, outcome: Err(OutboundFailure::Timeout) }]
    );
}

#[test]
fn handlers_are_set_up_as_the_protocols_were_registered() {
    let (tx, _rx) = mpsc::channel(1);
    let behaviour = RequestResponsesBehaviour::new(vec![
        ProtocolConfig {
            name: "/served".to_string(),
            max_request_size: 10,
            max_response_size: 20,
            request_timeout: 300,
            requests_processing: Some(tx),
        },
        ProtocolConfig {
            name: "/spoken".to_string(),
            max_request_size: 30,
            max_response_size: 40,
            request_timeout: 500,
            requests_processing: None,
        },
    ])
    .ok()
    .unwrap();
    assert_eq!(
        behaviour.new_handler(),
        vec![
            HandlerConfig {
                protocol: "/served".to_string(),
                inbound: true,
                codec: GenericCodec::new(10, 20),
                connection_keep_alive: 10_000,
                request_timeout: 300,
            },
            HandlerConfig {
                protocol: "/spoken".to_string(),
                inbound: false,
                codec: GenericCodec::new(30, 40),
                connection_keep_alive: 10_000,
                request_timeout: 500,
            },
        ]
    );
}

#[test]
fn a_closed_channel_is_busy() {
    let (tx, rx) = mpsc::channel(4);
    drop(rx);
    let mut behaviour =
        RequestResponsesBehaviour::new(vec![protocol("/a", 50, Some(tx))]).ok().unwrap();
    behaviour.inject_event(
        peer(1),
        ConnectionId(1),
        "/a",
        HandlerEvent::Request { request_id: RequestId(1), wire: vec![0] },
    );
    assert_eq!(
        events(drain(&mut behaviour, 0)),
        vec![Event::InboundRequest {
            peer: peer(1),
            protocol: "/a".to_string(),
            outcome: Err(InboundError::Busy),
        }]
    );
    assert_eq!(behaviour.pending_response_count(), 0);
}

#[test]
fn a_peer_that_does_not_speak_the_protocol_fails_the_request() {
    let (tx, _rx) = mpsc::channel(4);
    let mut behaviour =
        RequestResponsesBehaviour::new(vec![protocol("/a", 1_000, Some(tx))]).ok().unwrap();
    behaviour.inject_connection_established(&peer(1), ConnectionId(1));
    let request_id = behaviour.send_request(&peer(1), "/a", vec![1], 0).unwrap();
    assert_eq!(drain(&mut behaviour, 0).len(), 1);
    behaviour.inject_event(
        peer(1),
        ConnectionId(1),
        "/a",
        HandlerEvent::OutboundFailure {
            request_id,
            error: OutboundFailure::UnsupportedProtocols,
        },
    );
    behaviour.inject_event(
        peer(2),
        ConnectionId(2),
        "/a",
        HandlerEvent::InboundFailure {
            request_id: RequestId(77),
            error: InboundFailure::UnsupportedProtocols,
        },
    );
    assert_eq!(
        events(drain(&mut behaviour, 1)),
        vec![
            Event::OutboundFinished {
                request_id,
                outcome: Err(OutboundFailure::UnsupportedProtocols)
            },
            Event::InboundRequest {
                peer: peer(2),
                protocol: "/a".to_string(),
                outcome: Err(InboundError::Network(InboundFailure::UnsupportedProtocols)),
            },
        ]
    );
}

#[test]
fn a_clock_that_went_back_counts_no_time() {
    let (tx, _rx) = mpsc::channel(4);
    let mut behaviour =
        RequestResponsesBehaviour::new(vec![protocol("/a", 1_000, Some(tx))]).ok().unwrap();
    behaviour.inject_event(
        peer(1),
        ConnectionId(1),
        "/a",
        HandlerEvent::Request { request_id: RequestId(1), wire: vec![0] },
    );
    let slot = match behaviour.poll(500) {
        Progress::AwaitResponse { slot, .. } => slot,
        other => panic!("expected to await a response, got {:?}", other),
    };
    assert!(behaviour.inject_response(slot, Some(vec![])));
    assert_eq!(drain(&mut behaviour, 400).len(), 1);
    behaviour.inject_event(peer(1), ConnectionId(1), "/a", HandlerEvent::ResponseSent(RequestId(1)));
    assert_eq!(
        events(drain(&mut behaviour, 300)),
        vec![Event::InboundRequest { peer: peer(1), protocol: "/a".to_string(), outcome: Ok(0) }]
    );
}
