use nomos_da::address_book::AddressBook;
use nomos_da::assignations::FillFromNodeList;
use nomos_da::dispersal::DispersalExecutorEvent;
use nomos_da::errors::{DispersalError, IoErrorKind, OpenStreamFailure, ReplicationError, SamplingError};
use nomos_da::health::MonitorEvent;
use nomos_da::messages::{Blob, ReplicationRequest, Share};
use nomos_da::peer::PeerKey;
use nomos_da::replication::ReplicationEvent;
use nomos_da::sampling::SamplingEvent;
use nomos_da::validator::{
    handle_replication_event, monitor_event_from_executor_dispersal, monitor_event_from_replication,
    monitor_event_from_sampling, monitor_event_from_validator_dispersal, BroadcastBehaviour,
    BroadcastEvent, DaMessage, DispersalEvent, DispersalValidatorBehaviour,
};
use nomos_da::messages::DispersalRequest;

fn peer(n: u8) -> PeerKey {
    PeerKey::from_bytes(vec![n])
}

/// Peers 1..=4 in two subnetworks of two members: subnetwork 0 = {1, 2},
/// subnetwork 1 = {3, 4}.
fn membership() -> FillFromNodeList {
    let peers: Vec<PeerKey> = (1..=4).map(peer).collect();
    FillFromNodeList::new(&peers, AddressBook::empty(), 2, 2)
}

#[test]
fn validator_accepts_dispersal_from_members_only() {
    let v = DispersalValidatorBehaviour::new(membership());
    assert!(v.handle_established_inbound_connection(&peer(2)));
    assert!(!v.handle_established_inbound_connection(&peer(9)));
    assert!(!v.handle_established_outbound_connection(&peer(2)));
}

#[test]
fn broadcast_accepts_neighbours_only() {
    let b = BroadcastBehaviour::new(peer(1), membership());
    assert!(b.is_neighbour(&peer(2)));
    assert!(b.is_neighbour(&peer(1)));
    assert!(!b.is_neighbour(&peer(3)));
    assert!(b.handle_established_inbound_connection(&peer(2)).is_ok());
    let refused = b.handle_established_inbound_connection(&peer(4)).unwrap_err();
    assert_eq!(refused.peer_id.bytes, vec![4]);
    // an outsider has no neighbour
    let outsider = BroadcastBehaviour::new(peer(9), membership());
    assert!(!outsider.is_neighbour(&peer(1)));
}

#[test]
fn broadcast_reports_most_recent_message_first() {
    let mut b = BroadcastBehaviour::new(peer(1), membership());
    assert!(b.poll().is_none());
    b.on_incoming_message(peer(2), DaMessage { blob: Blob::new([1; 32], vec![1]), subnetwork_id: 0 });
    b.on_incoming_message(peer(2), DaMessage { blob: Blob::new([2; 32], vec![2]), subnetwork_id: 0 });
    match b.poll() {
        Some(BroadcastEvent::IncomingMessage { message, .. }) => assert_eq!(message.blob.blob_id, [2; 32]),
        None => panic!("an event"),
    }
    match b.poll() {
        Some(BroadcastEvent::IncomingMessage { message, .. }) => assert_eq!(message.blob.blob_id, [1; 32]),
        None => panic!("an event"),
    }
    assert!(b.poll().is_none());
}

#[test]
fn monitor_events_carry_the_failures() {
    let ok = DispersalExecutorEvent::DispersalSuccess { blob_id: [1; 32], subnetwork_id: 0 };
    assert!(matches!(monitor_event_from_executor_dispersal(&ok), MonitorEvent::Noop));
    let failed = DispersalExecutorEvent::DispersalError {
        error: DispersalError::Io {
            kind: IoErrorKind::Other,
            text: String::from("broken pipe"),
            blob_id: [3; 32],
            subnetwork_id: 1,
        },
    };
    match monitor_event_from_executor_dispersal(&failed) {
        MonitorEvent::ExecutorDispersal(DispersalError::Io { blob_id, subnetwork_id, .. }) => {
            assert_eq!(blob_id, [3; 32]);
            assert_eq!(subnetwork_id, 1);
        }
        _ => panic!("expected the dispersal failure"),
    }
    let incoming = DispersalEvent::IncomingMessage {
        message: DispersalRequest::new(Blob::new([1; 32], vec![]), 0),
    };
    assert!(matches!(monitor_event_from_validator_dispersal(&incoming), MonitorEvent::Noop));
    let replication = ReplicationEvent::ReplicationError {
        error: ReplicationError::OpenStream { peer_id: peer(5), error: OpenStreamFailure::Other(String::from("refused")) },
    };
    match monitor_event_from_replication(&replication) {
        MonitorEvent::Replication(ReplicationError::OpenStream { peer_id, error }) => {
            assert_eq!(peer_id.bytes, vec![5]);
            match error {
                OpenStreamFailure::Io { kind, text } => {
                    assert_eq!(kind, IoErrorKind::Other);
                    assert_eq!(text, "refused");
                }
                _ => panic!("another failure becomes a stream failure of kind Other"),
            }
        }
        _ => panic!("expected the replication failure"),
    }
    let sampling = SamplingEvent::SamplingError { error: SamplingError::ResponseChannel { peer_id: peer(6) } };
    match monitor_event_from_sampling(&sampling) {
        MonitorEvent::Sampling(SamplingError::ResponseChannel { peer_id }) => assert_eq!(peer_id.bytes, vec![6]),
        _ => panic!("expected the sampling failure"),
    }
    assert!(matches!(monitor_event_from_sampling(&SamplingEvent::IncomingSample), MonitorEvent::Noop));
}

#[test]
fn replicated_share_bytes_are_handed_for_validation() {
    let message = ReplicationRequest::new(Share::new([1; 32], vec![4, 5]), 0);
    let event = ReplicationEvent::IncomingMessage { peer_id: peer(2), message: Box::new(message) };
    assert_eq!(handle_replication_event(event), Some(vec![4, 5]));
    let error = ReplicationEvent::ReplicationError {
        error: ReplicationError::OpenStream {
            peer_id: peer(2),
            error: OpenStreamFailure::UnsupportedProtocol(String::from("/nomos/da")),
        },
    };
    assert_eq!(handle_replication_event(error), None);
}

#[test]
fn replication_errors_become_events() {
    let event = ReplicationEvent::from(ReplicationError::DequeueOutbound { peer_id: peer(3) });
    match event {
        ReplicationEvent::ReplicationError { error: ReplicationError::DequeueOutbound { peer_id } } => {
            assert_eq!(peer_id.bytes, vec![3])
        }
        _ => panic!("expected the error event"),
    }
}
