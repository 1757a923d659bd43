use request_responses::codec::GenericCodec;
use request_responses::endpoint::{
    EndpointEvent, HandlerAction, HandlerEvent, ProtocolEndpoint, CONNECTION_KEEP_ALIVE,
};
use request_responses::types::{
    ConnectionId, InboundFailure, OutboundFailure, PeerId, ProtocolSupport, RequestId,
    ResponseChannel,
};

fn full() -> ProtocolEndpoint {
    ProtocolEndpoint::new(GenericCodec::new(8, 4), ProtocolSupport::Full, 100)
}

fn peer(n: u8) -> PeerId {
    PeerId::from_bytes(vec![n, n])
}

#[test]
fn a_new_endpoint_is_idle() {
    let mut endpoint = full();
    assert_eq!(endpoint.codec(), GenericCodec::new(8, 4));
    assert_eq!(endpoint.support(), ProtocolSupport::Full);
    assert_eq!(endpoint.request_timeout(), 100);
    assert_eq!(endpoint.connection_keep_alive(), 10_000);
    assert_eq!(CONNECTION_KEEP_ALIVE, 10_000);
    assert_eq!(endpoint.pending_outbound(), 0);
    assert!(!endpoint.is_connected(&peer(1)));
    assert!(!endpoint.is_active(u64::MAX));
    assert_eq!(endpoint.poll(u64::MAX), None);
}

#[test]
fn connections_come_and_go() {
    let mut endpoint = full();
    endpoint.inject_connection_established(&peer(1), ConnectionId(1));
    endpoint.inject_connection_established(&peer(1), ConnectionId(2));
    endpoint.inject_connection_established(&peer(2), ConnectionId(3));
    assert!(endpoint.is_connected(&peer(1)));
    assert!(endpoint.is_connected(&peer(2)));
    endpoint.inject_connection_closed(&peer(1), ConnectionId(1));
    assert!(endpoint.is_connected(&peer(1)));
    endpoint.inject_connection_closed(&peer(1), ConnectionId(2));
    assert!(!endpoint.is_connected(&peer(1)));
    assert!(endpoint.is_connected(&peer(2)));
    endpoint.inject_connection_established(&peer(1), ConnectionId(4));
    endpoint.inject_disconnected(&peer(1));
    assert!(!endpoint.is_connected(&peer(1)));
    assert!(endpoint.is_connected(&peer(2)));
    // Closing a connection that is not there changes nothing.
    endpoint.inject_connection_closed(&peer(2), ConnectionId(9));
    assert!(endpoint.is_connected(&peer(2)));
}

#[test]
fn a_request_goes_out_on_the_oldest_connection_and_times_out() {
    let mut endpoint = full();
    endpoint.inject_connection_established(&peer(1), ConnectionId(5));
    endpoint.inject_connection_established(&peer(1), ConnectionId(6));
    endpoint.send_request(RequestId(1), 1_000, &peer(1), vec![7, 8]);
    assert!(endpoint.is_pending_outbound(RequestId(1)));
    assert!(!endpoint.is_pending_outbound(RequestId(2)));
    assert_eq!(endpoint.pending_outbound(), 1);
    assert_eq!(
        endpoint.poll(1_000),
        Some(EndpointEvent::NotifyHandler {
            peer: peer(1),
            connection: ConnectionId(5),
            event: HandlerAction::SendRequest { request_id: RequestId(1), wire: vec![2, 7, 8] },
        })
    );
    assert!(!endpoint.is_active(1_099));
    assert_eq!(endpoint.poll(1_099), None);
    assert!(endpoint.is_active(1_100));
    assert_eq!(
        endpoint.poll(1_100),
        Some(EndpointEvent::OutboundFailure {
            request_id: RequestId(1),
            error: OutboundFailure::Timeout,
        })
    );
    assert!(!endpoint.is_pending_outbound(RequestId(1)));
    assert_eq!(endpoint.poll(1_100), None);
}

#[test]
fn the_deadline_stops_at_the_end_of_time() {
    let mut endpoint = full();
    endpoint.inject_connection_established(&peer(1), ConnectionId(5));
    endpoint.send_request(RequestId(1), u64::MAX - 10, &peer(1), vec![]);
    assert!(endpoint.poll(u64::MAX - 1).is_some());
    assert_eq!(endpoint.poll(u64::MAX - 1), None);
    assert_eq!(
        endpoint.poll(u64::MAX),
        Some(EndpointEvent::OutboundFailure {
            request_id: RequestId(1),
            error: OutboundFailure::Timeout,
        })
    );
}

#[test]
fn timeouts_come_before_events_and_oldest_first() {
    let mut endpoint = full();
    endpoint.inject_connection_established(&peer(1), ConnectionId(5));
    endpoint.send_request(RequestId(1), 0, &peer(1), vec![1]);
    endpoint.send_request(RequestId(2), 0, &peer(1), vec![2]);
    let told: Vec<EndpointEvent> = std::iter::from_fn(|| endpoint.poll(500)).collect();
    assert_eq!(told.len(), 4);
    assert_eq!(
        told[0],
        EndpointEvent::OutboundFailure { request_id: RequestId(1), error: OutboundFailure::Timeout }
    );
    assert_eq!(
        told[1],
        EndpointEvent::OutboundFailure { request_id: RequestId(2), error: OutboundFailure::Timeout }
    );
    assert!(matches!(
        told[2],
        EndpointEvent::NotifyHandler {
            event: HandlerAction::SendRequest { request_id: RequestId(1), .. },
            ..
        }
    ));
    assert!(matches!(
        told[3],
        EndpointEvent::NotifyHandler {
            event: HandlerAction::SendRequest { request_id: RequestId(2), .. },
            ..
        }
    ));
}

#[test]
fn a_response_ends_its_request_once() {
    let mut endpoint = full();
    endpoint.inject_connection_established(&peer(1), ConnectionId(5));
    endpoint.send_request(RequestId(1), 0, &peer(1), vec![1]);
    assert!(endpoint.poll(0).is_some());
    let response = HandlerEvent::Response { request_id: RequestId(1), wire: vec![2, 4, 5] };
    endpoint.inject_event(peer(1), ConnectionId(5), response);
    assert!(!endpoint.is_pending_outbound(RequestId(1)));
    // A second response, and a failure that comes late, are dropped.
    endpoint.inject_event(
        peer(1),
        ConnectionId(5),
        HandlerEvent::Response { request_id: RequestId(1), wire: vec![1, 6] },
    );
    endpoint.inject_event(
        peer(1),
        ConnectionId(5),
        HandlerEvent::OutboundFailure {
            request_id: RequestId(1),
            error: OutboundFailure::UnsupportedProtocols,
        },
    );
    assert_eq!(
        endpoint.poll(1_000),
        Some(EndpointEvent::Response { request_id: RequestId(1), response: vec![4, 5] })
    );
    assert_eq!(endpoint.poll(1_000), None);
}

#[test]
fn responses_that_cannot_be_read_fail_their_request() {
    let mut endpoint = full();
    endpoint.inject_connection_established(&peer(1), ConnectionId(5));
    for n in 1..=4u64 {
        endpoint.send_request(RequestId(n), 0, &peer(1), vec![]);
        assert!(endpoint.poll(0).is_some());
    }
    let wires: Vec<Vec<u8>> = vec![vec![], vec![5, 1, 2, 3, 4, 5], vec![0x80, 0x00], vec![2, 1]];
    for (n, wire) in wires.into_iter().enumerate() {
        endpoint.inject_event(
            peer(1),
            ConnectionId(5),
            HandlerEvent::Response { request_id: RequestId(n as u64 + 1), wire },
        );
    }
    let reasons = [
        OutboundFailure::ConnectionClosed,
        OutboundFailure::SizeExceeded,
        OutboundFailure::DecodeError,
        OutboundFailure::DecodeError,
    ];
    for (n, error) in reasons.into_iter().enumerate() {
        assert_eq!(
            endpoint.poll(1),
            Some(EndpointEvent::OutboundFailure { request_id: RequestId(n as u64 + 1), error })
        );
    }
    assert_eq!(endpoint.poll(1), None);
    assert_eq!(endpoint.pending_outbound(), 0);
}

#[test]
fn a_reported_failure_ends_its_request() {
    let mut endpoint = full();
    endpoint.inject_connection_established(&peer(1), ConnectionId(5));
    endpoint.send_request(RequestId(1), 0, &peer(1), vec![]);
    assert!(endpoint.poll(0).is_some());
    endpoint.inject_event(
        peer(1),
        ConnectionId(5),
        HandlerEvent::OutboundFailure { request_id: RequestId(1), error: OutboundFailure::DialFailure },
    );
    assert_eq!(
        endpoint.poll(0),
        Some(EndpointEvent::OutboundFailure {
            request_id: RequestId(1),
            error: OutboundFailure::DialFailure,
        })
    );
    assert_eq!(endpoint.poll(u64::MAX), None);
}

#[test]
fn a_closed_connection_fails_the_requests_that_went_out_on_it() {
    let mut endpoint = full();
    endpoint.inject_connection_established(&peer(1), ConnectionId(5));
    endpoint.inject_connection_established(&peer(2), ConnectionId(6));
    endpoint.send_request(RequestId(1), 0, &peer(1), vec![]);
    endpoint.send_request(RequestId(2), 0, &peer(2), vec![]);
    endpoint.send_request(RequestId(3), 0, &peer(1), vec![]);
    for _ in 0..3 {
        assert!(matches!(endpoint.poll(0), Some(EndpointEvent::NotifyHandler { .. })));
    }
    endpoint.inject_connection_closed(&peer(1), ConnectionId(5));
    assert!(!endpoint.is_pending_outbound(RequestId(1)));
    assert!(endpoint.is_pending_outbound(RequestId(2)));
    assert!(!endpoint.is_pending_outbound(RequestId(3)));
    assert_eq!(
        endpoint.poll(0),
        Some(EndpointEvent::OutboundFailure {
            request_id: RequestId(1),
            error: OutboundFailure::ConnectionClosed,
        })
    );
    assert_eq!(
        endpoint.poll(0),
        Some(EndpointEvent::OutboundFailure {
            request_id: RequestId(3),
            error: OutboundFailure::ConnectionClosed,
        })
    );
    assert_eq!(endpoint.poll(0), None);
    assert_eq!(endpoint.pending_outbound(), 1);
}

#[test]
fn inbound_requests_are_decoded() {
    let mut endpoint = full();
    let request = |request_id: u64, wire: Vec<u8>| HandlerEvent::Request {
        request_id: RequestId(request_id),
        wire,
    };
    let channel = |request_id: u64| ResponseChannel {
        peer: peer(3),
        connection: ConnectionId(1),
        request_id: RequestId(request_id),
    };
    endpoint.inject_event(peer(3), ConnectionId(1), request(1, vec![3, 1, 2, 3]));
    endpoint.inject_event(peer(3), ConnectionId(1), request(2, vec![9, 0, 0, 0, 0, 0, 0, 0, 0, 0]));
    endpoint.inject_event(peer(3), ConnectionId(1), request(3, vec![]));
    endpoint.inject_event(peer(3), ConnectionId(1), request(4, vec![3, 1]));
    endpoint.inject_event(
        peer(3),
        ConnectionId(1),
        HandlerEvent::InboundFailure { request_id: RequestId(5), error: InboundFailure::Timeout },
    );
    endpoint.inject_event(peer(3), ConnectionId(1), HandlerEvent::ResponseSent(RequestId(1)));
    assert_eq!(
        endpoint.poll(0),
        Some(EndpointEvent::Request { request: vec![1, 2, 3], channel: channel(1) })
    );
    assert_eq!(
        endpoint.poll(0),
        Some(EndpointEvent::InboundFailure {
            channel: channel(2),
            error: InboundFailure::SizeExceeded,
        })
    );
    assert_eq!(
        endpoint.poll(0),
        Some(EndpointEvent::InboundFailure {
            channel: channel(3),
            error: InboundFailure::ConnectionClosed,
        })
    );
    assert_eq!(
        endpoint.poll(0),
        Some(EndpointEvent::InboundFailure {
            channel: channel(4),
            error: InboundFailure::DecodeError,
        })
    );
    assert_eq!(
        endpoint.poll(0),
        Some(EndpointEvent::InboundFailure { channel: channel(5), error: InboundFailure::Timeout })
    );
    assert_eq!(endpoint.poll(0), None);
}

#[test]
fn a_protocol_that_is_not_served_hears_nothing_of_inbound_requests() {
    let mut endpoint = ProtocolEndpoint::new(GenericCodec::new(8, 4), ProtocolSupport::Outbound, 100);
    endpoint.inject_event(
        peer(3),
        ConnectionId(1),
        HandlerEvent::Request { request_id: RequestId(1), wire: vec![1, 1] },
    );
    endpoint.inject_event(
        peer(3),
        ConnectionId(1),
        HandlerEvent::InboundFailure {
            request_id: RequestId(2),
            error: InboundFailure::UnsupportedProtocols,
        },
    );
    assert!(!endpoint.is_active(0));
    assert_eq!(endpoint.poll(0), None);
}

#[test]
fn the_order_to_write_a_response_frames_it() {
    let channel =
        ResponseChannel { peer: peer(3), connection: ConnectionId(2), request_id: RequestId(9) };
    assert_eq!(
        ProtocolEndpoint::send_response(channel, vec![5, 6, 7]),
        EndpointEvent::NotifyHandler {
            peer: peer(3),
            connection: ConnectionId(2),
            event: HandlerAction::SendResponse { request_id: RequestId(9), wire: vec![3, 5, 6, 7] },
        }
    );
}
