use nomos_da::address_book::AddressBook;
use nomos_da::assignations::FillFromNodeList;
use nomos_da::dispersal::{DispersalExecutorBehaviour, DispersalExecutorEvent};
use nomos_da::errors::{DispersalErr, DispersalError, IoErrorKind, OpenStreamFailure};
use nomos_da::messages::Blob;
use nomos_da::peer::PeerKey;
use nomos_da::proto::{DispersalRes, DispersalResType};
use nomos_da::validator::monitor_event_from_executor_dispersal;
use nomos_da::health::MonitorEvent;

fn peer(n: u8) -> PeerKey {
    PeerKey::from_bytes(vec![n])
}

fn blob(tag: u8) -> Blob {
    Blob::new([tag; 32], vec![tag, tag])
}

/// Peers 1..=4 in two subnetworks of two members: sorted [1, 2, 3, 4],
/// subnetwork 0 = {1, 2}, subnetwork 1 = {3, 4}. The executor is peer 0.
fn executor(book: AddressBook) -> DispersalExecutorBehaviour<FillFromNodeList> {
    let peers: Vec<PeerKey> = (1..=4).map(peer).collect();
    let membership = FillFromNodeList::new(&peers, AddressBook::empty(), 2, 2);
    DispersalExecutorBehaviour::new(peer(0), membership, book)
}

fn sorted_bytes(peers: Vec<PeerKey>) -> Vec<Vec<u8>> {
    let mut v: Vec<Vec<u8>> = peers.into_iter().map(|p| p.bytes).collect();
    v.sort();
    v
}

#[test]
fn blob_for_a_subnetwork_without_stream_waits_and_asks_for_one() {
    let mut e = executor(AddressBook::empty());
    let (tasks, open) = e.on_new_blob(0, blob(1));
    assert!(tasks.is_empty());
    let open = open.expect("a member to open a stream to").bytes;
    assert!(open == vec![1] || open == vec![2]);
}

#[test]
fn opened_stream_takes_waiting_blobs() {
    let mut e = executor(AddressBook::empty());
    e.on_new_blob(0, blob(1));
    e.on_new_blob(0, blob(2));
    e.handle_connection_established(&peer(1), 7);
    let task = e.on_stream_opened(Ok(peer(1))).expect("no error").expect("a task");
    assert_eq!(task.peer_id.bytes, vec![1]);
    assert_eq!(task.subnetwork_id, 0);
    assert_eq!(task.blob.blob_id, [1; 32]);
    // the task finished: the stream takes the second blob
    let (next, event) = e.on_task_result(Ok(([1; 32], 0, DispersalRes { message_type: None }, peer(1))));
    assert!(matches!(event, DispersalExecutorEvent::DispersalSuccess { blob_id, subnetwork_id: 0 } if blob_id == [1; 32]));
    let next = next.expect("the next blob");
    assert_eq!(next.blob.blob_id, [2; 32]);
    // nothing left: the stream goes idle
    let (next, _) = e.on_task_result(Ok(([2; 32], 0, DispersalRes { message_type: None }, peer(1))));
    assert!(next.is_none());
    // subnetwork 0 has a stream now: a new blob goes straight to the idle stream
    let (tasks, open) = e.on_new_blob(0, blob(3));
    assert!(open.is_none());
    assert_eq!(tasks.len(), 1);
    assert_eq!(tasks[0].peer_id.bytes, vec![1]);
    assert_eq!(tasks[0].blob.data, vec![3, 3]);
    // the stream is busy now: the next blob waits in its queue
    let (tasks, _) = e.on_new_blob(0, blob(4));
    assert!(tasks.is_empty());
    assert_eq!(e.next_request(&peer(1)).expect("queued").1.blob_id, [4; 32]);
}

#[test]
fn validator_error_answer_is_reported() {
    let mut e = executor(AddressBook::empty());
    let res = DispersalRes {
        message_type: Some(DispersalResType::Error(DispersalErr {
            blob_id: vec![5; 32],
            err_description: String::from("invalid"),
        })),
    };
    let (_, event) = e.on_task_result(Ok(([5; 32], 1, res, peer(3))));
    match event {
        DispersalExecutorEvent::DispersalError { error: DispersalError::Protocol { subnetwork_id, error } } => {
            assert_eq!(subnetwork_id, 1);
            assert_eq!(error.err_description, "invalid");
        }
        _ => panic!("expected a protocol error"),
    }
    let io = DispersalError::Io {
        kind: IoErrorKind::ConnectionReset,
        text: String::from("reset"),
        blob_id: [6; 32],
        subnetwork_id: 1,
    };
    let (next, event) = e.on_task_result(Err(io));
    assert!(next.is_none());
    assert!(matches!(event, DispersalExecutorEvent::DispersalError { error: DispersalError::Io { .. } }));
    match monitor_event_from_executor_dispersal(&event) {
        MonitorEvent::ExecutorDispersal(DispersalError::Io { kind, text, blob_id, subnetwork_id }) => {
            assert_eq!(text, "reset");
            assert_eq!(kind, IoErrorKind::ConnectionReset);
            assert_eq!(blob_id, [6; 32]);
            assert_eq!(subnetwork_id, 1);
        }
        _ => panic!("expected the failure"),
    }
    let failed = e.on_stream_opened(Err(DispersalError::OpenStreamError {
        peer_id: peer(4),
        error: OpenStreamFailure::Io { kind: IoErrorKind::Other, text: String::from("dial") },
    }));
    assert!(matches!(failed, Err(DispersalError::OpenStreamError { peer_id, .. }) if peer_id.bytes == vec![4]));
}

#[test]
fn disconnection_recovers_blobs_and_picks_replacements() {
    let mut e = executor(AddressBook::empty());
    e.handle_connection_established(&peer(1), 1);
    e.handle_connection_established(&peer(2), 2);
    // stream to 1 opened and went idle, then is busy with blob 1; blob 2 waits for it
    e.on_stream_opened(Ok(peer(1))).unwrap();
    let (tasks, _) = e.on_new_blob(0, blob(1));
    assert_eq!(tasks.len(), 1);
    let (tasks, _) = e.on_new_blob(0, blob(2));
    assert!(tasks.is_empty());
    // peer 2 is connected, has no stream: blob 2 waits in its queue too
    assert_eq!(e.next_request(&peer(2)).expect("queued").1.blob_id, [1; 32]);
    let replacements = e.handle_connection_closed(&peer(1));
    assert_eq!(sorted_bytes(replacements), vec![vec![2]]);
    // the closed peer's waiting blob waits for its subnetwork again and goes to the next stream
    e.handle_connection_established(&peer(2), 3);
    let task = e.on_stream_opened(Ok(peer(2))).unwrap().expect("a task");
    assert_eq!(task.peer_id.bytes, vec![2]);
    // peer 2 had blob 2 queued already; the recovered copy follows it
    assert_eq!(task.blob.blob_id, [2; 32]);
    // not connected: nothing to do
    assert!(e.handle_connection_closed(&peer(4)).is_empty());
}

#[test]
fn candidates_prefer_peers_shared_by_all_subnetworks() {
    let peers: Vec<PeerKey> = (1..=3).map(peer).collect();
    // sorted [1, 2, 3], factor 2: subnetwork 0 = {1, 2}, 1 = {3, 1}, 2 = {2, 3}
    let membership = FillFromNodeList::new(&peers, AddressBook::empty(), 3, 2);
    let e = DispersalExecutorBehaviour::new(peer(0), membership, AddressBook::empty());
    assert_eq!(sorted_bytes(e.find_subnetworks_candidates_excluding_peer(&peer(9), &vec![0, 1])), vec![vec![1]]);
    assert_eq!(
        sorted_bytes(e.find_subnetworks_candidates_excluding_peer(&peer(1), &vec![0, 1])),
        vec![vec![2], vec![3]]
    );
    assert!(e.find_subnetworks_candidates_excluding_peer(&peer(1), &vec![]).is_empty());
    assert_eq!(sorted_bytes(e.open_streams_for_disconnected_subnetworks_selected_peer(&peer(1))), vec![vec![2], vec![3]]);
    let p = e.try_ensure_stream_from_missing_subnetwork(2).expect("a member");
    assert!(p.bytes == vec![2] || p.bytes == vec![3]);
}

#[test]
fn dial_addresses_come_from_the_book() {
    let book = AddressBook::from_entries(vec![(peer(3), b"/ip4/3".to_vec())]);
    let e = executor(book);
    assert_eq!(e.dial_address(&peer(3)), Some(b"/ip4/3".to_vec()));
    assert_eq!(e.dial_address(&peer(2)), None);
}

#[test]
fn dispersal_error_clone_keeps_the_detail() {
    let ser = DispersalError::Serialization { error: String::from("size limit"), blob_id: [1; 32], subnetwork_id: 2 };
    match ser.clone() {
        DispersalError::Serialization { error, blob_id, subnetwork_id } => {
            assert_eq!(error, "size limit");
            assert_eq!(blob_id, [1; 32]);
            assert_eq!(subnetwork_id, 2);
        }
        _ => panic!("expected a serialization error"),
    }
    let open = DispersalError::OpenStreamError { peer_id: peer(3), error: OpenStreamFailure::Other(String::from("gone")) };
    assert!(matches!(
        open.clone(),
        DispersalError::OpenStreamError { error: OpenStreamFailure::Io { kind: IoErrorKind::Other, ref text }, .. }
            if text == "gone"
    ));
}
