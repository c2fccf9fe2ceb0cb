use std::collections::VecDeque;
use std::time::Duration;

use indexmap::IndexMap;
use nomos_da::address_book::AddressBook;
use nomos_da::assignations::FillFromNodeList;
use nomos_da::errors::{IoErrorKind, ReplicationError};
use nomos_da::messages::{ReplicationRequest, Share};
use nomos_da::peer::PeerKey;
use nomos_da::peer_map::PeerMap;
use nomos_da::replication::{
    next_peer, on_disconnected, OutboundAction, PendingOutbound, PendingQueues, ReplicationBehaviour,
    ReplicationConfig, ReplicationEvent, WriteHalfState,
};
use nomos_da::replication_handler::{
    BehaviourEventToHandler, HandlerConnectionEvent, HandlerEventToBehaviour, HandlerOutboundAction, OutboundState,
    ReplicationHandler,
};

fn peer(n: u8) -> PeerKey {
    PeerKey::from_bytes(vec![n])
}

fn message(tag: u8) -> ReplicationRequest {
    ReplicationRequest::new(Share::new([tag; 32], vec![tag]), 0)
}

fn queues(entries: &[(u8, usize)]) -> PendingQueues {
    let mut m: PendingQueues = IndexMap::new();
    for (id, count) in entries {
        let q: VecDeque<ReplicationRequest> = (0..*count).map(|i| message(i as u8)).collect();
        m.insert(vec![*id], q);
    }
    m
}

/// Streams: `idle` is the only idle one; every other listed peer is busy.
fn streams(ids: &[u8], idle: Option<u8>) -> PeerMap<WriteHalfState> {
    let mut s = PeerMap::new();
    for id in ids {
        let state = if Some(*id) == idle { WriteHalfState::Idle } else { WriteHalfState::Busy };
        s.insert(peer(*id), state);
    }
    s
}

fn check_next(previous: Option<u8>, pending: &[(u8, usize)], idle: Option<u8>, expected: Option<u8>) {
    let ids: Vec<u8> = pending.iter().map(|(id, _)| *id).collect();
    let prev = previous.map(peer);
    let actual = next_peer(prev.as_ref(), &queues(pending), &streams(&ids, idle));
    assert_eq!(actual.map(|p| p.bytes), expected.map(|e| vec![e]));
}

#[test]
fn test_next_peer() {
    check_next(None, &[], None, None);
    check_next(None, &[(0, 0)], None, None);
    check_next(None, &[(0, 0)], Some(0), None);
    check_next(None, &[(0, 1)], None, None);
    check_next(None, &[(0, 1)], Some(0), Some(0));
    check_next(Some(0), &[(0, 0)], None, None);
    check_next(Some(0), &[(0, 0)], Some(0), None);
    check_next(Some(0), &[(0, 1)], None, None);
    check_next(Some(0), &[(0, 1)], Some(0), Some(0));
    check_next(Some(0), &[(0, 1), (1, 1)], Some(1), Some(1));
    check_next(Some(0), &[(0, 1), (1, 1)], Some(0), Some(0));
    check_next(Some(1), &[(0, 1), (1, 1)], Some(0), Some(0));
    check_next(Some(1), &[(0, 1), (1, 1)], Some(1), Some(1));
    check_next(Some(0), &[(0, 1), (1, 1)], None, None);
    check_next(Some(1), &[(0, 0), (1, 0)], Some(0), None);
}

#[test]
fn next_peer_treats_unopened_streams_as_free() {
    let actual = next_peer(Some(&peer(0)), &queues(&[(0, 1), (1, 1), (2, 1)]), &PeerMap::new());
    assert_eq!(actual.map(|p| p.bytes), Some(vec![1]));
}

fn check_disconnect(marker: Option<u8>, pending: &[u8], disconnected: u8, expected: Option<u8>, rest: &[u8]) {
    let entries: Vec<(u8, usize)> = pending.iter().map(|id| (*id, 0)).collect();
    let mut m = queues(&entries);
    let actual = on_disconnected(&mut m, marker.map(peer), &peer(disconnected));
    assert_eq!(actual.map(|p| p.bytes), expected.map(|e| vec![e]));
    let keys: Vec<Vec<u8>> = m.keys().cloned().collect();
    let expected_keys: Vec<Vec<u8>> = rest.iter().map(|id| vec![*id]).collect();
    assert_eq!(keys, expected_keys);
}

#[test]
fn test_on_disconnected() {
    check_disconnect(None, &[0], 0, None, &[]);
    check_disconnect(Some(0), &[0], 0, None, &[]);
    check_disconnect(Some(0), &[0, 1], 0, Some(1), &[1]);
    check_disconnect(Some(1), &[0, 1, 2], 1, Some(0), &[0, 2]);
}

#[test]
fn marker_on_another_peer_stays() {
    check_disconnect(Some(2), &[0, 1, 2], 0, Some(2), &[1, 2]);
}

#[test]
fn pending_outbound_is_fifo_per_peer() {
    let mut p = PendingOutbound::new();
    assert!(p.is_empty());
    p.enqueue_message(&peer(1), message(1));
    p.enqueue_message(&peer(2), message(2));
    p.enqueue_message(&peer(1), message(3));
    assert!(!p.is_empty());
    let first = p.dequeue_message(&peer(1)).ok().flatten().expect("a message");
    assert_eq!(first.share.blob_id, [1; 32]);
    let second = p.dequeue_message(&peer(1)).ok().flatten().expect("a message");
    assert_eq!(second.share.blob_id, [3; 32]);
    assert!(matches!(p.dequeue_message(&peer(1)), Ok(None)));
    assert!(p.dequeue_message(&peer(9)).is_err());
}

#[test]
fn pending_outbound_takes_turns() {
    let mut p = PendingOutbound::new();
    for id in [1u8, 2, 3] {
        p.enqueue_message(&peer(id), message(id));
        p.enqueue_message(&peer(id), message(id));
    }
    let free = PeerMap::new();
    let order: Vec<Vec<u8>> = (0..4).map(|_| p.next_peer(&free).expect("a peer").bytes).collect();
    assert_eq!(order, vec![vec![1], vec![2], vec![3], vec![1]]);
    p.on_disconnected(&peer(1));
    assert_eq!(p.next_peer(&free).expect("a peer").bytes, vec![2]);
}

fn behaviour(local: u8, peers: &[u8], cache: usize) -> Option<ReplicationBehaviour<FillFromNodeList>> {
    let keys: Vec<PeerKey> = peers.iter().map(|b| peer(*b)).collect();
    let membership = FillFromNodeList::new(&keys, AddressBook::empty(), 1, peers.len());
    let config = ReplicationConfig { seen_message_cache_size: cache, seen_message_ttl: Duration::from_secs(60) };
    ReplicationBehaviour::new(config, peer(local), membership)
}

#[test]
fn zero_cache_size_is_refused() {
    assert!(behaviour(0, &[0, 1], 0).is_none());
}

#[test]
fn replication_reaches_connected_members_once() {
    let mut b = behaviour(0, &[0, 1, 2, 3], 10).expect("a behaviour");
    assert!(b.is_neighbour(&peer(1)));
    assert!(!b.is_neighbour(&peer(7)));
    assert!(b.handle_established_inbound_connection(&peer(1)));
    assert!(!b.handle_established_inbound_connection(&peer(7)));
    b.handle_established_outbound_connection(&peer(2));
    b.handle_established_outbound_connection(&peer(0));
    let m = message(5);
    assert!(b.send_message(&m));
    // already seen: not sent again
    assert!(!b.send_message(&m));
    let mut targets = Vec::new();
    while let Some(action) = b.schedule_next_outbound_message() {
        match action {
            OutboundAction::OpenAndWrite { peer_id, message } => {
                assert_eq!(message.share.blob_id, [5; 32]);
                targets.push(peer_id.bytes);
            }
            OutboundAction::Write { .. } => panic!("no stream is open yet"),
        }
    }
    targets.sort();
    assert_eq!(targets, vec![vec![1], vec![2]]);
    let mut members: Vec<Vec<u8>> = b.no_loopback_member_peers_of(0).into_iter().map(|p| p.bytes).collect();
    members.sort();
    assert_eq!(members, vec![vec![1], vec![2], vec![3]]);
}

#[test]
fn sub_second_ttl_remembers_nothing() {
    let keys: Vec<PeerKey> = [0u8, 1].iter().map(|b| peer(*b)).collect();
    let membership = FillFromNodeList::new(&keys, AddressBook::empty(), 1, 2);
    let config = ReplicationConfig { seen_message_cache_size: 10, seen_message_ttl: Duration::from_millis(500) };
    let mut b = ReplicationBehaviour::new(config, peer(0), membership).expect("a behaviour");
    b.handle_established_outbound_connection(&peer(1));
    b.on_incoming_stream(&peer(1));
    let m = message(4);
    assert!(b.send_message(&m));
    // the ttl counts in whole seconds: nothing is remembered, so the share goes out again
    assert!(b.send_message(&m));
    assert!(matches!(b.schedule_next_outbound_message(), Some(OutboundAction::Write { .. })));
    let again = b.on_write_finished(&peer(1)).expect("a queue");
    assert_eq!(again.expect("the second copy").share.blob_id, [4; 32]);
}

#[test]
fn replicate_honours_the_seen_answer() {
    let mut b = behaviour(0, &[0, 1], 10).expect("a behaviour");
    b.handle_established_outbound_connection(&peer(1));
    assert!(!b.replicate(&message(1), true));
    assert!(b.schedule_next_outbound_message().is_none());
    assert!(b.replicate(&message(1), false));
    assert!(b.schedule_next_outbound_message().is_some());
}

#[test]
fn write_completion_feeds_the_stream() {
    let mut b = behaviour(0, &[0, 1], 10).expect("a behaviour");
    b.handle_established_outbound_connection(&peer(1));
    b.on_incoming_stream(&peer(1));
    b.replicate(&message(1), false);
    b.replicate(&message(2), false);
    match b.schedule_next_outbound_message() {
        Some(OutboundAction::Write { peer_id, message }) => {
            assert_eq!(peer_id.bytes, vec![1]);
            assert_eq!(message.share.blob_id, [1; 32]);
        }
        _ => panic!("expected a write on the idle stream"),
    }
    // the stream is busy: nothing else is scheduled
    assert!(b.schedule_next_outbound_message().is_none());
    let next = b.on_write_finished(&peer(1)).expect("a queue");
    assert_eq!(next.expect("the next message").share.blob_id, [2; 32]);
    assert!(matches!(b.on_write_finished(&peer(1)), Ok(None)));
    assert!(matches!(
        b.on_write_finished(&peer(9)),
        Err(ReplicationError::DequeueOutbound { peer_id }) if peer_id.bytes == vec![9]
    ));
    b.on_connection_closed(&peer(1));
    assert!(b.on_write_finished(&peer(1)).is_err());
}

#[test]
fn incoming_message_is_reported_and_forwarded() {
    let mut b = behaviour(0, &[0, 1, 2], 10).expect("a behaviour");
    b.handle_established_outbound_connection(&peer(2));
    match b.on_incoming_message(peer(1), message(4)) {
        ReplicationEvent::IncomingMessage { peer_id, message } => {
            assert_eq!(peer_id.bytes, vec![1]);
            assert_eq!(message.share.blob_id, [4; 32]);
        }
        _ => panic!("expected the message"),
    }
    assert!(b.schedule_next_outbound_message().is_some());
}

#[test]
fn handler_sends_pending_messages_in_batches() {
    let mut h = ReplicationHandler::new();
    assert!(matches!(h.poll_pending_outgoing_messages(), HandlerOutboundAction::RequestStream));
    assert!(matches!(h.poll_pending_outgoing_messages(), HandlerOutboundAction::Wait));
    h.on_connection_event(HandlerConnectionEvent::FullyNegotiatedOutbound);
    assert!(matches!(h.poll_pending_outgoing_messages(), HandlerOutboundAction::Wait));
    h.on_behaviour_event(BehaviourEventToHandler::OutgoingMessage { message: message(1) });
    h.on_behaviour_event(BehaviourEventToHandler::OutgoingMessage { message: message(2) });
    match h.poll_pending_outgoing_messages() {
        HandlerOutboundAction::SendBatch(batch) => {
            assert_eq!(batch.len(), 2);
            assert_eq!(batch[0].share.blob_id, [1; 32]);
        }
        _ => panic!("expected a batch"),
    }
    h.on_behaviour_event(BehaviourEventToHandler::OutgoingMessage { message: message(3) });
    assert!(matches!(h.poll_pending_outgoing_messages(), HandlerOutboundAction::Wait));
    h.on_send_finished(false);
    assert!(matches!(h.poll_pending_outgoing_messages(), HandlerOutboundAction::RequestStream));
    h.on_connection_event(HandlerConnectionEvent::DialUpgradeError { is_outbound: true });
    assert!(matches!(h.poll_pending_outgoing_messages(), HandlerOutboundAction::RequestStream));
    let mut state = WriteHalfState::Idle;
    assert_eq!(state.take(), WriteHalfState::Idle);
    assert_eq!(state, WriteHalfState::Busy);
    let _ = OutboundState::Sending;
}

#[test]
fn handler_reports_read_messages_and_drops_failed_streams() {
    let mut h = ReplicationHandler::new();
    h.on_connection_event(HandlerConnectionEvent::FullyNegotiatedInbound);
    match h.on_message_read(Ok(message(5))) {
        Some(HandlerEventToBehaviour::IncomingMessage { message }) => assert_eq!(message.share.blob_id, [5; 32]),
        _ => panic!("expected the message reported"),
    }
    assert!(h.on_message_read(Err(IoErrorKind::UnexpectedEof)).is_none());
}
