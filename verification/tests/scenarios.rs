use futures::channel::mpsc;
use request_responses::behaviour::{
    IncomingRequest, Progress, ProtocolConfig, RequestResponsesBehaviour,
};
use request_responses::endpoint::{HandlerAction, HandlerEvent};
use request_responses::types::{
    ConnectionId, Event, InboundError, InboundFailure, OutboundFailure, PeerId, RegisterError,
    RequestId, SendRequestError,
};

fn config(
    name: &str,
    max_request_size: usize,
    max_response_size: usize,
    request_timeout: u64,
    requests_processing: Option<mpsc::Sender<IncomingRequest>>,
) -> ProtocolConfig {
    ProtocolConfig {
        name: name.to_string(),
        max_request_size,
        max_response_size,
        request_timeout,
        requests_processing,
    }
}

fn peer_x() -> PeerId {
    PeerId::from_bytes(vec![0x12, 0x20, 7, 7, 7])
}

fn peer_y() -> PeerId {
    PeerId::from_bytes(vec![0x12, 0x20, 8, 8, 8])
}

fn expect_pending(progress: Progress) {
    match progress {
        Progress::Pending => {}
        other => panic!("expected nothing to do, got {:?}", other),
    }
}

fn expect_event(progress: Progress) -> Event {
    match progress {
        Progress::GenerateEvent(event) => event,
        other => panic!("expected an event, got {:?}", other),
    }
}

#[test]
fn happy_path() {
    let (tx, mut rx) = mpsc::channel(4);
    let mut behaviour =
        RequestResponsesBehaviour::new(vec![config("/rq/1", 1024, 1024, 5_000, Some(tx))])
            .ok()
            .unwrap();
    let x = peer_x();
    behaviour.inject_connection_established(&x, ConnectionId(1));
    behaviour.inject_event(
        x.clone(),
        ConnectionId(1),
        "/rq/1",
        HandlerEvent::Request { request_id: RequestId(40), wire: vec![2, 0x01, 0x02] },
    );

    let (slot, mut receiver) = match behaviour.poll(1_000) {
        Progress::AwaitResponse { slot, receiver } => (slot, receiver),
        other => panic!("expected to await a response, got {:?}", other),
    };
    assert_eq!(behaviour.pending_response_count(), 1);
    expect_pending(behaviour.poll(1_000));

    let incoming = rx.try_recv().unwrap();
    assert_eq!(incoming.origin, x);
    assert_eq!(incoming.request_bytes, vec![0x01, 0x02]);
    incoming.answer.send(vec![0x09]).unwrap();

    let answer = receiver.try_recv().unwrap();
    assert_eq!(answer, Some(vec![0x09]));
    assert!(behaviour.inject_response(slot, answer));
    assert!(!behaviour.inject_response(slot, Some(vec![0x0A])));

    match behaviour.poll(1_010) {
        Progress::NotifyHandler { peer, connection, protocol, event } => {
            assert_eq!(peer, x);
            assert_eq!(connection, ConnectionId(1));
            assert_eq!(protocol, "/rq/1");
            assert_eq!(
                event,
                HandlerAction::SendResponse { request_id: RequestId(40), wire: vec![1, 0x09] }
            );
        }
        other => panic!("expected an order to write the response, got {:?}", other),
    }
    expect_pending(behaviour.poll(1_020));

    behaviour.inject_event(
        x.clone(),
        ConnectionId(1),
        "/rq/1",
        HandlerEvent::ResponseSent(RequestId(40)),
    );
    assert_eq!(
        expect_event(behaviour.poll(1_030)),
        Event::InboundRequest { peer: x, protocol: "/rq/1".to_string(), outcome: Ok(30) }
    );
    assert_eq!(behaviour.pending_response_count(), 0);
    expect_pending(behaviour.poll(1_040));
}

#[test]
fn busy_when_the_channel_is_full() {
    // A channel of `futures` holds its buffer and one message for each sender: four in all.
    let (tx, mut rx) = mpsc::channel(3);
    let mut behaviour =
        RequestResponsesBehaviour::new(vec![config("/rq/1", 1024, 1024, 5_000, Some(tx))])
            .ok()
            .unwrap();
    let x = peer_x();
    behaviour.inject_connection_established(&x, ConnectionId(1));
    let mut receivers = Vec::new();
    for n in 0..4u64 {
        behaviour.inject_event(
            x.clone(),
            ConnectionId(1),
            "/rq/1",
            HandlerEvent::Request { request_id: RequestId(n), wire: vec![1, n as u8] },
        );
        match behaviour.poll(10) {
            Progress::AwaitResponse { receiver, .. } => receivers.push(receiver),
            other => panic!("expected to await a response, got {:?}", other),
        }
    }
    assert_eq!(behaviour.pending_response_count(), 4);

    behaviour.inject_event(
        x.clone(),
        ConnectionId(1),
        "/rq/1",
        HandlerEvent::Request { request_id: RequestId(4), wire: vec![1, 4] },
    );
    assert_eq!(
        expect_event(behaviour.poll(20)),
        Event::InboundRequest {
            peer: x,
            protocol: "/rq/1".to_string(),
            outcome: Err(InboundError::Busy)
        }
    );
    // Nothing is written to the peer, and the four that were taken are still awaited.
    expect_pending(behaviour.poll(20));
    assert_eq!(behaviour.pending_response_count(), 4);
    for n in 0..4u8 {
        assert_eq!(rx.try_recv().unwrap().request_bytes, vec![n]);
    }
    assert!(rx.try_recv().is_err());
}

#[test]
fn busy_when_the_reply_is_let_go_of() {
    let (tx, mut rx) = mpsc::channel(4);
    let mut behaviour =
        RequestResponsesBehaviour::new(vec![config("/rq/1", 1024, 1024, 5_000, Some(tx))])
            .ok()
            .unwrap();
    let x = peer_x();
    behaviour.inject_event(
        x.clone(),
        ConnectionId(1),
        "/rq/1",
        HandlerEvent::Request { request_id: RequestId(1), wire: vec![0] },
    );
    let (slot, mut receiver) = match behaviour.poll(10) {
        Progress::AwaitResponse { slot, receiver } => (slot, receiver),
        other => panic!("expected to await a response, got {:?}", other),
    };
    drop(rx.try_recv().unwrap());
    assert!(receiver.try_recv().is_err());
    assert!(behaviour.inject_response(slot, None));
    assert_eq!(
        expect_event(behaviour.poll(20)),
        Event::InboundRequest {
            peer: x,
            protocol: "/rq/1".to_string(),
            outcome: Err(InboundError::Busy)
        }
    );
    expect_pending(behaviour.poll(20));
}

#[test]
fn timeout() {
    let mut behaviour =
        RequestResponsesBehaviour::new(vec![config("/rq/2", 1024, 1024, 100, None)]).ok().unwrap();
    let x = peer_x();
    behaviour.inject_connection_established(&x, ConnectionId(3));
    let request_id = behaviour.send_request(&x, "/rq/2", vec![0xAA], 1_000).unwrap();
    match behaviour.poll(1_000) {
        Progress::NotifyHandler { peer, connection, protocol, event } => {
            assert_eq!(peer, x);
            assert_eq!(connection, ConnectionId(3));
            assert_eq!(protocol, "/rq/2");
            assert_eq!(event, HandlerAction::SendRequest { request_id, wire: vec![1, 0xAA] });
        }
        other => panic!("expected an order to write the request, got {:?}", other),
    }
    expect_pending(behaviour.poll(1_099));
    assert_eq!(
        expect_event(behaviour.poll(1_100)),
        Event::OutboundFinished { request_id, outcome: Err(OutboundFailure::Timeout) }
    );
    expect_pending(behaviour.poll(1_200));
    // A response that comes late is dropped without a word.
    behaviour.inject_event(
        x,
        ConnectionId(3),
        "/rq/2",
        HandlerEvent::Response { request_id, wire: vec![1, 0xBB] },
    );
    expect_pending(behaviour.poll(1_300));
}

#[test]
fn over_limit_inbound() {
    let (tx, mut rx) = mpsc::channel(4);
    let mut behaviour =
        RequestResponsesBehaviour::new(vec![config("/rq/3", 16, 16, 5_000, Some(tx))])
            .ok()
            .unwrap();
    let x = peer_x();
    let y = peer_y();
    let mut wire = vec![17u8];
    wire.extend_from_slice(&[0x55; 17]);
    behaviour.inject_event(
        x.clone(),
        ConnectionId(1),
        "/rq/3",
        HandlerEvent::Request { request_id: RequestId(1), wire },
    );
    assert_eq!(
        expect_event(behaviour.poll(5)),
        Event::InboundRequest {
            peer: x,
            protocol: "/rq/3".to_string(),
            outcome: Err(InboundError::Network(InboundFailure::SizeExceeded))
        }
    );
    assert!(rx.try_recv().is_err());
    expect_pending(behaviour.poll(5));

    // Another peer is served as before.
    let mut wire = vec![16u8];
    wire.extend_from_slice(&[0x66; 16]);
    behaviour.inject_event(
        y.clone(),
        ConnectionId(2),
        "/rq/3",
        HandlerEvent::Request { request_id: RequestId(1), wire },
    );
    match behaviour.poll(6) {
        Progress::AwaitResponse { .. } => {}
        other => panic!("expected to await a response, got {:?}", other),
    }
    let incoming = rx.try_recv().unwrap();
    assert_eq!(incoming.origin, y);
    assert_eq!(incoming.request_bytes, vec![0x66; 16]);
}

#[test]
fn unknown_protocol() {
    let mut behaviour =
        RequestResponsesBehaviour::new(vec![config("/rq/1", 16, 16, 5_000, None)]).ok().unwrap();
    let x = peer_x();
    behaviour.inject_connection_established(&x, ConnectionId(1));
    assert_eq!(
        behaviour.send_request(&x, "/nope", vec![], 0),
        Err(SendRequestError::UnknownProtocol)
    );
    assert_eq!(behaviour.next_request_id(), RequestId(1));
    expect_pending(behaviour.poll(0));
}

#[test]
fn not_connected() {
    let mut behaviour =
        RequestResponsesBehaviour::new(vec![config("/rq/1", 16, 16, 5_000, None)]).ok().unwrap();
    let x = peer_x();
    assert_eq!(behaviour.send_request(&x, "/rq/1", vec![1], 0), Err(SendRequestError::NotConnected));
    behaviour.inject_connection_established(&x, ConnectionId(1));
    assert!(behaviour.is_connected(&x, "/rq/1"));
    assert!(!behaviour.is_connected(&peer_y(), "/rq/1"));
    assert!(!behaviour.is_connected(&x, "/rq/9"));
    behaviour.inject_disconnected(&x);
    assert_eq!(behaviour.send_request(&x, "/rq/1", vec![1], 0), Err(SendRequestError::NotConnected));
}

#[test]
fn outbound_only() {
    let mut behaviour =
        RequestResponsesBehaviour::new(vec![config("/rq/4", 64, 64, 1_000, None)]).ok().unwrap();
    let x = peer_x();
    behaviour.inject_connection_established(&x, ConnectionId(1));
    // The peer's request is refused: no event comes of it.
    behaviour.inject_event(
        x.clone(),
        ConnectionId(1),
        "/rq/4",
        HandlerEvent::Request { request_id: RequestId(1), wire: vec![1, 1] },
    );
    expect_pending(behaviour.poll(0));
    assert_eq!(behaviour.pending_response_count(), 0);

    // A request of ours still goes out and comes back.
    let request_id = behaviour.send_request(&x, "/rq/4", vec![1, 2, 3], 10).unwrap();
    assert_eq!(request_id, RequestId(1));
    match behaviour.poll(10) {
        Progress::NotifyHandler { event, .. } => {
            assert_eq!(event, HandlerAction::SendRequest { request_id, wire: vec![3, 1, 2, 3] });
        }
        other => panic!("expected an order to write the request, got {:?}", other),
    }
    behaviour.inject_event(
        x,
        ConnectionId(1),
        "/rq/4",
        HandlerEvent::Response { request_id, wire: vec![2, 8, 9] },
    );
    assert_eq!(
        expect_event(behaviour.poll(20)),
        Event::OutboundFinished { request_id, outcome: Ok(vec![8, 9]) }
    );
    expect_pending(behaviour.poll(2_000));
}

#[test]
fn duplicate_protocol() {
    let list = vec![
        config("/a", 1, 1, 1, None),
        config("/b", 1, 1, 1, None),
        config("/c", 1, 1, 1, None),
        config("/b", 2, 2, 2, None),
        config("/a", 3, 3, 3, None),
    ];
    match RequestResponsesBehaviour::new(list) {
        Err(RegisterError::DuplicateProtocol(name)) => assert_eq!(name, "/b"),
        Ok(_) => panic!("a name that stands twice was registered"),
    }
    let list = vec![config("/a", 1, 1, 1, None), config("/b", 1, 1, 1, None)];
    let behaviour = RequestResponsesBehaviour::new(list).ok().unwrap();
    assert_eq!(behaviour.protocol_count(), 2);
    assert_eq!(RequestResponsesBehaviour::new(Vec::new()).ok().unwrap().protocol_count(), 0);
}
