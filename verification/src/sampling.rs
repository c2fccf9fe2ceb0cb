use vstd::prelude::*;
use crate::address_book::Address;
use crate::assignations::MembershipHandler;
use crate::errors::{BehaviourSampleReq, IoErrorKind, SamplingError};
use crate::messages::{BlobId, LightShare, SampleError, SampleErrorType, SampleRequest, SampleResponse, SubnetworkId};
use crate::peer::{PeerKey, key_set, holds_key};
use crate::peer_map::PeerMap;

verus! {

/// The node's answer to a sampling request it was handed.
#[derive(Debug)]
pub enum BehaviourSampleRes {
    SamplingSuccess { blob_id: BlobId, subnetwork_id: SubnetworkId, share: LightShare },
    SampleNotFound { blob_id: BlobId, subnetwork_id: SubnetworkId },
}

/// The text answered when a sample is not found.
pub open spec fn not_found_text() -> Seq<char> {
    seq!['S', 'a', 'm', 'p', 'l', 'e', ' ', 'n', 'o', 't', ' ', 'f', 'o', 'u', 'n', 'd']
}

/// The wire answer to a sampling request: the share found, or a
/// not-found error for the blob and subnetwork.
pub fn sample_response_from(res: BehaviourSampleRes) -> (r: SampleResponse)
    ensures
        match res {
            BehaviourSampleRes::SamplingSuccess { blob_id, share, .. } => r matches SampleResponse::Share(s)
                && s.blob_id == blob_id && s.share_idx == share.share_idx && s.data@ == share.data@,
            BehaviourSampleRes::SampleNotFound { blob_id, subnetwork_id } => r matches SampleResponse::Error(e)
                && e.blob_id == blob_id && e.column_idx == subnetwork_id && e.error_type
                == SampleErrorType::NotFound && e.error_description@ == not_found_text(),
        },
{
    match res {
        BehaviourSampleRes::SamplingSuccess { blob_id, share, .. } => SampleResponse::Share(
            LightShare::new(blob_id, share.share_idx, share.data),
        ),
        BehaviourSampleRes::SampleNotFound { blob_id, subnetwork_id } => {
            let text = String::from_str("Sample not found");
            proof {
                reveal_strlit("Sample not found");
            }
            SampleResponse::Error(SampleError::new(blob_id, subnetwork_id, SampleErrorType::NotFound, text))
        },
    }
}

/// A sampling request as handed to the node; every request converts.
pub fn behaviour_sample_req_from(req: SampleRequest) -> (r: Result<BehaviourSampleReq, Vec<u8>>)
    ensures
        r matches Ok(b) && b.blob_id == req.blob_id && b.share_idx == req.column_idx,
{
    Ok(BehaviourSampleReq { blob_id: req.blob_id, share_idx: req.column_idx })
}

/// What the sampling protocol reports to the node.
#[derive(Debug)]
pub enum SamplingEvent {
    /// A sample arrived.
    SamplingSuccess { blob_id: BlobId, subnetwork_id: SubnetworkId, light_share: LightShare },
    /// A peer asks for a sample: the node takes the request and answers
    /// it.
    IncomingSample,
    /// Something went wrong.
    SamplingError { error: SamplingError },
}

/// What a finished stream task gave: the answer to our request, or
/// the end of answering a peer's request.
#[derive(Debug)]
pub enum SampleStreamResponse {
    Writer(SampleResponse),
    Reader,
}

/// What to do with a stream after its task finished.
#[derive(Debug)]
pub enum StreamFollowUp {
    /// Send this request on it.
    Sample(SampleRequest),
    /// Close it.
    Close,
    /// Read the next request of the peer on it.
    ReadNext,
}

/// `event` is what the answer `sample_response` of peer `peer` becomes: a
/// share found, or the peer's error for the column it names.
pub open spec fn answer_event(sample_response: SampleResponse, peer: Seq<u8>, event: SamplingEvent) -> bool {
    match sample_response {
        SampleResponse::Error(error) => event matches SamplingEvent::SamplingError {
            error: SamplingError::Protocol { subnetwork_id, peer_id: p, error: e },
        } && subnetwork_id == error.column_idx && p@ == peer && e == error,
        SampleResponse::Share(share) => event matches SamplingEvent::SamplingSuccess {
            blob_id,
            subnetwork_id,
            light_share,
        } && blob_id == share.blob_id && subnetwork_id == share.share_idx && light_share == share,
    }
}

/// The event a sampling answer becomes (see [`answer_event`]).
pub fn handle_sample_response(sample_response: SampleResponse, peer_id: PeerKey) -> (r: SamplingEvent)
    ensures
        answer_event(sample_response, peer_id@, r),
{
    match sample_response {
        SampleResponse::Error(error) => SamplingEvent::SamplingError {
            error: SamplingError::Protocol { subnetwork_id: error.column_idx, peer_id, error },
        },
        SampleResponse::Share(share) => SamplingEvent::SamplingSuccess {
            blob_id: share.blob_id,
            subnetwork_id: share.share_idx,
            light_share: share,
        },
    }
}

/// Decisions of the sampling protocol: which peer a sample is asked of,
/// what a stream does after each task, and which failures are retried,
/// ignored or reported. The node drives the streams.
pub struct SamplingBehaviour<Membership> {
    local_peer_id: PeerKey,
    membership: Membership,
    to_sample: PeerMap<Vec<(SubnetworkId, BlobId)>>,
}

impl<Membership: MembershipHandler> SamplingBehaviour<Membership> {
    pub closed spec fn local_view(&self) -> Seq<u8> {
        self.local_peer_id@
    }

    pub closed spec fn membership_view(&self) -> Membership {
        self.membership
    }

    /// The samples waiting for a stream to each peer, oldest first.
    pub closed spec fn to_sample_view(&self) -> Map<Seq<u8>, Vec<(SubnetworkId, BlobId)>> {
        self.to_sample@
    }

    pub fn new(local_peer_id: PeerKey, membership: Membership) -> (b: Self)
        ensures
            b.local_view() == local_peer_id@,
            b.membership_view() == membership,
            b.to_sample_view() == Map::<Seq<u8>, Vec<(SubnetworkId, BlobId)>>::empty(),
    {
        SamplingBehaviour { local_peer_id, membership, to_sample: PeerMap::new() }
    }

    /// Replaces the membership.
    pub fn update_membership(&mut self, membership: Membership)
        ensures
            final(self).membership_view() == membership,
            final(self).local_view() == old(self).local_view(),
            final(self).to_sample_view() == old(self).to_sample_view(),
    {
        self.membership = membership;
    }

    /// Where to ask for a sample of blob `blob_id` in subnetwork
    /// `subnetwork_id`: a member of the subnetwork other than the local
    /// peer, with the request to send once a stream to it is open. The
    /// subnetwork must have such a member.
    pub fn sample(&self, subnetwork_id: SubnetworkId, blob_id: BlobId) -> (r: (PeerKey, SampleRequest))
        requires
            self.membership_view().has_network(subnetwork_id),
            (exists|p: Seq<u8>|
                #[trigger] self.membership_view().members_of_view(subnetwork_id).contains(p) && p
                    != self.local_view()),
        ensures
            self.membership_view().members_of_view(subnetwork_id).contains(r.0@),
            r.0@ != self.local_view(),
            r.1 == (SampleRequest { blob_id, column_idx: subnetwork_id }),
    {
        let members = self.membership.members_of(&subnetwork_id);
        let mut i: usize = 0;
        while i < members.len()
            invariant
                i <= members@.len(),
                key_set(members@) == self.membership_view().members_of_view(subnetwork_id),
                forall|j: int| 0 <= j < i ==> #[trigger] members@[j]@ == self.local_view(),
            decreases members@.len() - i,
        {
            if !members[i].same_as(&self.local_peer_id) {
                let peer = members[i].duplicate();
                proof {
                    assert(holds_key(members@, members@[i as int]@));
                }
                return (peer, SampleRequest::new(blob_id, subnetwork_id));
            }
            i = i + 1;
        }
        proof {
            let p = choose|p: Seq<u8>|
                #[trigger] self.membership_view().members_of_view(subnetwork_id).contains(p) && p
                    != self.local_view();
            assert(holds_key(members@, p));
            let j = choose|j: int| 0 <= j < members@.len() && #[trigger] members@[j]@ == p;
            assert(members@[j]@ == self.local_view());
        }
        assert(false);
        (self.local_peer_id.duplicate(), SampleRequest::new(blob_id, subnetwork_id))
    }

    /// `after` is `before` once the oldest sample waiting for `peer` was
    /// taken as `request`; `None` when none was waiting.
    pub open spec fn sample_taken(before: Self, after: Self, peer: Seq<u8>, request: Option<SampleRequest>) -> bool {
        let q = if before.to_sample_view().contains_key(peer) {
            before.to_sample_view()[peer]@
        } else {
            Seq::empty()
        };
        &&& q.len() == 0 ==> request is None && after.to_sample_view() == before.to_sample_view()
        &&& q.len() > 0 ==> {
            &&& request == Some(SampleRequest { blob_id: q[0].1, column_idx: q[0].0 })
            &&& after.to_sample_view().contains_key(peer)
            &&& after.to_sample_view()[peer]@ == q.drop_first()
            &&& after.to_sample_view().remove(peer) == before.to_sample_view().remove(peer)
        }
        &&& after.local_view() == before.local_view()
        &&& after.membership_view() == before.membership_view()
    }

    /// Takes the oldest sample waiting for `peer_id`, as the request to send
    /// on a new stream to it.
    pub fn try_sample(&mut self, peer_id: &PeerKey) -> (r: Option<SampleRequest>)
        ensures
            Self::sample_taken(*old(self), *final(self), peer_id@, r),
    {
        match self.to_sample.remove(peer_id) {
            None => {
                assert(self.to_sample@ =~= old(self).to_sample@);
                None
            },
            Some(mut queue) => {
                if queue.len() == 0 {
                    self.to_sample.insert(peer_id.duplicate(), queue);
                    assert(self.to_sample@ =~= old(self).to_sample@);
                    None
                } else {
                    let (subnetwork_id, blob_id) = queue.remove(0);
                    self.to_sample.insert(peer_id.duplicate(), queue);
                    assert(self.to_sample@.remove(peer_id@) =~= old(self).to_sample@.remove(peer_id@));
                    Some(SampleRequest::new(blob_id, subnetwork_id))
                }
            },
        }
    }

    /// `after` is `before` once the stream to `peer` got free and was given
    /// `follow_up`: the next sample waiting for the peer, or, with none, a
    /// close.
    pub open spec fn followed_up(before: Self, after: Self, peer: Seq<u8>, follow_up: StreamFollowUp) -> bool {
        let q = if before.to_sample_view().contains_key(peer) {
            before.to_sample_view()[peer]@
        } else {
            Seq::empty()
        };
        &&& q.len() == 0 ==> follow_up is Close && after.to_sample_view() == before.to_sample_view()
        &&& q.len() > 0 ==> {
            &&& follow_up == StreamFollowUp::Sample(SampleRequest { blob_id: q[0].1, column_idx: q[0].0 })
            &&& after.to_sample_view().contains_key(peer)
            &&& after.to_sample_view()[peer]@ == q.drop_first()
            &&& after.to_sample_view().remove(peer) == before.to_sample_view().remove(peer)
        }
        &&& after.local_view() == before.local_view()
        &&& after.membership_view() == before.membership_view()
    }

    /// A stream we opened got free: the next sample waiting for its peer is
    /// sent on it, or, with none, it is closed.
    pub fn schedule_outgoing_stream_task(&mut self, peer_id: &PeerKey) -> (r: StreamFollowUp)
        ensures
            Self::followed_up(*old(self), *final(self), peer_id@, r),
    {
        match self.try_sample(peer_id) {
            Some(request) => StreamFollowUp::Sample(request),
            None => StreamFollowUp::Close,
        }
    }

    /// A stream task finished: the answer to our request becomes an event
    /// and the stream takes the next waiting sample or closes (see
    /// [`Self::schedule_outgoing_stream_task`]); after answering a peer, the
    /// stream waits for the peer's next request, which the node is told of.
    pub fn handle_stream_response(&mut self, peer_id: PeerKey, stream_response: SampleStreamResponse) -> (r: (
        StreamFollowUp,
        SamplingEvent,
    ))
        ensures
            match stream_response {
                SampleStreamResponse::Writer(response) => Self::followed_up(*old(self), *final(self), peer_id@, r.0)
                    && answer_event(response, peer_id@, r.1),
                SampleStreamResponse::Reader => r.0 is ReadNext && r.1 is IncomingSample
                    && final(self).to_sample_view() == old(self).to_sample_view(),
            },
            final(self).local_view() == old(self).local_view(),
            final(self).membership_view() == old(self).membership_view(),
    {
        match stream_response {
            SampleStreamResponse::Writer(response) => {
                let follow_up = self.schedule_outgoing_stream_task(&peer_id);
                (follow_up, handle_sample_response(response, peer_id))
            },
            SampleStreamResponse::Reader => (StreamFollowUp::ReadNext, SamplingEvent::IncomingSample),
        }
    }

    /// A stream task failed. A reset connection puts the request being sent
    /// back at the end of its peer's waiting samples, when the peer has
    /// some, and is not reported; an end of stream is the remote closing it
    /// and is not reported either; any other error is reported. The stream,
    /// if any, is closed in every case.
    pub fn handle_stream_error(&mut self, error: SamplingError) -> (r: Option<SamplingEvent>)
        ensures
            match error {
                SamplingError::Io { peer_id, kind: IoErrorKind::ConnectionReset, message, .. } => {
                    &&& r is None
                    &&& (old(self).to_sample_view().contains_key(peer_id@) && message is Some) ==> {
                        let m = message->0;
                        &&& final(self).to_sample_view().contains_key(peer_id@)
                        &&& final(self).to_sample_view()[peer_id@]@ == old(self).to_sample_view()[peer_id@]@.push(
                            (m.column_idx, m.blob_id),
                        )
                        &&& final(self).to_sample_view().remove(peer_id@) == old(self).to_sample_view().remove(
                            peer_id@,
                        )
                    }
                    &&& !(old(self).to_sample_view().contains_key(peer_id@) && message is Some) ==> final(
                        self).to_sample_view() == old(self).to_sample_view()
                },
                SamplingError::Io { kind: IoErrorKind::UnexpectedEof, .. } => r is None
                    && final(self).to_sample_view() == old(self).to_sample_view(),
                _ => r == Some(SamplingEvent::SamplingError { error })
                    && final(self).to_sample_view() == old(self).to_sample_view(),
            },
            final(self).local_view() == old(self).local_view(),
            final(self).membership_view() == old(self).membership_view(),
    {
        match error {
            SamplingError::Io { peer_id, kind: IoErrorKind::ConnectionReset, message, .. } => {
                match message {
                    Some(m) => {
                        match self.to_sample.remove(&peer_id) {
                            Some(mut queue) => {
                                queue.push((m.column_idx, m.blob_id));
                                self.to_sample.insert(peer_id, queue);
                                assert(self.to_sample@.remove(peer_id@) =~= old(self).to_sample@.remove(
                                    peer_id@,
                                ));
                            },
                            None => {
                                assert(self.to_sample@ =~= old(self).to_sample@);
                            },
                        }
                    },
                    None => {},
                }
                None
            },
            SamplingError::Io { kind: IoErrorKind::UnexpectedEof, .. } => None,
            error => Some(SamplingEvent::SamplingError { error }),
        }
    }

    /// Whether a connection with `peer_id` takes part in sampling: only
    /// members of the DA network do.
    pub fn handle_established_inbound_connection(&self, peer_id: &PeerKey) -> (r: bool)
        ensures
            r == self.membership_view().is_allowed_view(peer_id@),
    {
        self.membership.is_allowed(peer_id)
    }

    /// A connection we dialed was established: a member of the DA network
    /// takes part in sampling and is sent its oldest waiting sample, if any
    /// (see [`Self::try_sample`]).
    pub fn handle_established_outbound_connection(&mut self, peer_id: &PeerKey) -> (r: (bool, Option<SampleRequest>))
        ensures
            r.0 == old(self).membership_view().is_allowed_view(peer_id@),
            r.0 ==> Self::sample_taken(*old(self), *final(self), peer_id@, r.1),
            !r.0 ==> r.1 is None && final(self).to_sample_view() == old(self).to_sample_view(),
            final(self).local_view() == old(self).local_view(),
            final(self).membership_view() == old(self).membership_view(),
    {
        if !self.membership.is_allowed(peer_id) {
            return (false, None);
        }
        (true, self.try_sample(peer_id))
    }

    /// The known address of a peer to dial, if any.
    pub fn dial_address(&self, peer_id: &PeerKey) -> (r: Option<Address>)
        ensures
            match r {
                Some(a) => self.membership_view().addresses_view().contains_key(peer_id@) && a@
                    == self.membership_view().addresses_view()[peer_id@],
                None => !self.membership_view().addresses_view().contains_key(peer_id@),
            },
    {
        self.membership.get_address(peer_id)
    }
}

} // verus!
