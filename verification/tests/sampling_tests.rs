use nomos_da::address_book::AddressBook;
use nomos_da::assignations::FillFromNodeList;
use nomos_da::errors::{BehaviourSampleReq, IoErrorKind, OpenStreamFailure, SamplingError};
use nomos_da::messages::{LightShare, SampleError, SampleErrorType, SampleRequest, SampleResponse};
use nomos_da::peer::PeerKey;
use nomos_da::sampling::{
    behaviour_sample_req_from, handle_sample_response, sample_response_from, BehaviourSampleRes,
    SampleStreamResponse, SamplingBehaviour, SamplingEvent, StreamFollowUp,
};

fn peer(n: u8) -> PeerKey {
    PeerKey::from_bytes(vec![n])
}

/// Peers 1..=4 in two subnetworks of two members: subnetwork 0 = {1, 2},
/// subnetwork 1 = {3, 4}.
fn membership() -> FillFromNodeList {
    let peers: Vec<PeerKey> = (1..=4).map(peer).collect();
    FillFromNodeList::new(&peers, AddressBook::empty(), 2, 2)
}

#[test]
fn sample_asks_another_member_of_the_subnetwork() {
    // the local peer is the first member of subnetwork 0: the other one is asked
    let b = SamplingBehaviour::new(peer(1), membership());
    let (target, request) = b.sample(0, [9; 32]);
    assert_eq!(target.bytes, vec![2]);
    assert_eq!(request, SampleRequest { blob_id: [9; 32], column_idx: 0 });
    // an outsider asks any member: the first one listed
    let b = SamplingBehaviour::new(peer(9), membership());
    let (target, request) = b.sample(1, [4; 32]);
    assert!(target.bytes == vec![3] || target.bytes == vec![4]);
    assert_eq!(request.column_idx, 1);
}

#[test]
fn a_found_sample_answers_with_the_share() {
    let res = BehaviourSampleRes::SamplingSuccess {
        blob_id: [1; 32],
        subnetwork_id: 3,
        share: LightShare::new([1; 32], 3, vec![5, 6]),
    };
    match sample_response_from(res) {
        SampleResponse::Share(s) => {
            assert_eq!(s.blob_id, [1; 32]);
            assert_eq!(s.share_idx, 3);
            assert_eq!(s.data, vec![5, 6]);
        }
        SampleResponse::Error(_) => panic!("expected a share"),
    }
}

#[test]
fn a_missing_sample_answers_not_found() {
    let res = BehaviourSampleRes::SampleNotFound { blob_id: [2; 32], subnetwork_id: 7 };
    match sample_response_from(res) {
        SampleResponse::Error(e) => {
            assert_eq!(e.blob_id, [2; 32]);
            assert_eq!(e.column_idx, 7);
            assert_eq!(e.error_type, SampleErrorType::NotFound);
            assert_eq!(e.error_description, "Sample not found");
        }
        SampleResponse::Share(_) => panic!("expected an error"),
    }
}

#[test]
fn a_request_is_handed_to_the_node_with_its_column_as_share_index() {
    let req = SampleRequest::new([3; 32], 11);
    let handed = behaviour_sample_req_from(req).expect("every request converts");
    assert_eq!(handed, BehaviourSampleReq { blob_id: [3; 32], share_idx: 11 });
}

#[test]
fn sample_answers_become_events() {
    let share = LightShare::new([4; 32], 2, vec![1]);
    match handle_sample_response(SampleResponse::Share(share), peer(1)) {
        SamplingEvent::SamplingSuccess { blob_id, subnetwork_id, light_share } => {
            assert_eq!(blob_id, [4; 32]);
            assert_eq!(subnetwork_id, 2);
            assert_eq!(light_share.data, vec![1]);
        }
        _ => panic!("expected a success"),
    }
    let error = SampleError::new([5; 32], 6, SampleErrorType::NotFound, String::from("x"));
    match handle_sample_response(SampleResponse::Error(error), peer(8)) {
        SamplingEvent::SamplingError {
            error: SamplingError::Protocol { subnetwork_id, peer_id, error },
        } => {
            assert_eq!(subnetwork_id, 6);
            assert_eq!(peer_id.bytes, vec![8]);
            assert_eq!(error.blob_id, [5; 32]);
        }
        _ => panic!("expected a protocol error"),
    }
}

#[test]
fn a_free_stream_without_waiting_samples_closes() {
    let mut b = SamplingBehaviour::new(peer(1), membership());
    assert!(matches!(b.schedule_outgoing_stream_task(&peer(2)), StreamFollowUp::Close));
    assert!(b.try_sample(&peer(2)).is_none());
}

#[test]
fn answering_a_peer_waits_for_its_next_request() {
    let mut b = SamplingBehaviour::new(peer(1), membership());
    let (follow_up, event) = b.handle_stream_response(peer(2), SampleStreamResponse::Reader);
    assert!(matches!(follow_up, StreamFollowUp::ReadNext));
    assert!(matches!(event, SamplingEvent::IncomingSample));
}

#[test]
fn our_request_answered_reports_and_closes_the_idle_stream() {
    let mut b = SamplingBehaviour::new(peer(1), membership());
    let share = LightShare::new([4; 32], 0, vec![1]);
    let (follow_up, event) =
        b.handle_stream_response(peer(2), SampleStreamResponse::Writer(SampleResponse::Share(share)));
    assert!(matches!(follow_up, StreamFollowUp::Close));
    assert!(matches!(event, SamplingEvent::SamplingSuccess { subnetwork_id: 0, .. }));
}

#[test]
fn reset_and_end_of_stream_are_not_reported() {
    let mut b = SamplingBehaviour::new(peer(1), membership());
    let reset = SamplingError::Io {
        peer_id: peer(2),
        kind: IoErrorKind::ConnectionReset,
        text: String::from("reset"),
        message: Some(SampleRequest::new([1; 32], 0)),
    };
    assert!(b.handle_stream_error(reset).is_none());
    let eof = SamplingError::Io {
        peer_id: peer(2),
        kind: IoErrorKind::UnexpectedEof,
        text: String::from("eof"),
        message: None,
    };
    assert!(b.handle_stream_error(eof).is_none());
    // nothing was waiting for peer 2, so nothing waits now
    assert!(b.try_sample(&peer(2)).is_none());
}

#[test]
fn other_stream_errors_are_reported() {
    let mut b = SamplingBehaviour::new(peer(1), membership());
    let other = SamplingError::Io {
        peer_id: peer(2),
        kind: IoErrorKind::Other,
        text: String::from("other"),
        message: None,
    };
    match b.handle_stream_error(other) {
        Some(SamplingEvent::SamplingError { error: SamplingError::Io { kind, peer_id, .. } }) => {
            assert_eq!(kind, IoErrorKind::Other);
            assert_eq!(peer_id.bytes, vec![2]);
        }
        _ => panic!("expected the error reported"),
    }
    let open = SamplingError::OpenStream {
        peer_id: peer(3),
        error: OpenStreamFailure::UnsupportedProtocol(String::from("/nomos/da/sampling")),
    };
    assert!(matches!(
        b.handle_stream_error(open),
        Some(SamplingEvent::SamplingError { error: SamplingError::OpenStream { .. } })
    ));
}

#[test]
fn only_members_take_part_in_sampling() {
    let mut b = SamplingBehaviour::new(peer(1), membership());
    assert!(b.handle_established_inbound_connection(&peer(3)));
    assert!(!b.handle_established_inbound_connection(&peer(9)));
    let (allowed, request) = b.handle_established_outbound_connection(&peer(9));
    assert!(!allowed);
    assert!(request.is_none());
    let (allowed, request) = b.handle_established_outbound_connection(&peer(4));
    assert!(allowed);
    assert!(request.is_none());
}

#[test]
fn dial_address_comes_from_the_membership() {
    let mut book = AddressBook::empty();
    book.insert(peer(2), vec![1, 2, 3]);
    let peers: Vec<PeerKey> = (1..=4).map(peer).collect();
    let b = SamplingBehaviour::new(peer(1), FillFromNodeList::new(&peers, book, 2, 2));
    assert_eq!(b.dial_address(&peer(2)), Some(vec![1, 2, 3]));
    assert_eq!(b.dial_address(&peer(3)), None);
}

#[test]
fn sampling_error_accessors() {
    let e = SamplingError::BlobNotFound { peer_id: peer(1), blob_id: vec![7; 32], subnetwork_id: 1 };
    assert_eq!(e.blob_id(), Some([7; 32]));
    assert_eq!(e.peer_id().map(|p| p.bytes.clone()), Some(vec![1]));
    let short = SamplingError::BlobNotFound { peer_id: peer(1), blob_id: vec![7; 3], subnetwork_id: 1 };
    assert_eq!(short.blob_id(), None);
    let d = SamplingError::Deserialize {
        blob_id: [8; 32],
        subnetwork_id: 0,
        peer_id: peer(2),
        error: String::from("bad tag"),
    };
    assert_eq!(d.blob_id(), Some([8; 32]));
    let r = SamplingError::ResponseChannel { peer_id: peer(4) };
    assert_eq!(r.blob_id(), None);
}

#[test]
fn sampling_error_clone_keeps_the_detail() {
    let io = SamplingError::Io {
        peer_id: peer(1),
        kind: IoErrorKind::ConnectionReset,
        text: String::from("reset"),
        message: None,
    };
    match io.clone() {
        SamplingError::Io { peer_id, kind, text, message } => {
            assert_eq!(peer_id.bytes, vec![1]);
            assert_eq!(kind, IoErrorKind::ConnectionReset);
            assert_eq!(text, "reset");
            assert!(message.is_none());
        }
        _ => panic!("expected a stream error"),
    }
    let open = SamplingError::OpenStream { peer_id: peer(2), error: OpenStreamFailure::Other(String::from("closed")) };
    match open.clone() {
        SamplingError::OpenStream { error: OpenStreamFailure::Io { kind, text }, .. } => {
            assert_eq!(kind, IoErrorKind::Other);
            assert_eq!(text, "closed");
        }
        _ => panic!("another failure becomes a stream failure of kind Other"),
    }
    let protocol =
        SamplingError::OpenStream { peer_id: peer(2), error: OpenStreamFailure::UnsupportedProtocol(String::from("/p")) };
    assert!(matches!(
        protocol.clone(),
        SamplingError::OpenStream { error: OpenStreamFailure::UnsupportedProtocol(ref p), .. } if p == "/p"
    ));
    let decode = SamplingError::Deserialize { blob_id: [3; 32], subnetwork_id: 4, peer_id: peer(5), error: String::from("eof") };
    match decode.clone() {
        SamplingError::Deserialize { blob_id, subnetwork_id, error, .. } => {
            assert_eq!(blob_id, [3; 32]);
            assert_eq!(subnetwork_id, 4);
            assert_eq!(error, "eof");
        }
        _ => panic!("expected a decode error"),
    }
}
