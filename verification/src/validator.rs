use vstd::prelude::*;
use std::collections::VecDeque;
use crate::assignations::MembershipHandler;
use crate::dispersal::DispersalExecutorEvent;
use crate::errors::{copied_dispersal_error, copied_replication_error, copied_sampling_error};
use crate::health::MonitorEvent;
use crate::messages::{Blob, DispersalRequest, ReplicationRequest, Share, SubnetworkId};
use crate::peer::PeerKey;
use crate::proto::{DispersalReq, DispersalRes, DispersalResType};
use crate::replication::{ReplicationBehaviour, ReplicationEvent};
use crate::connection_monitor::{ConnectionMonitor, ConnectionMonitorBehaviour, ConnectionMonitorOutput};
use crate::sampling::SamplingEvent;

verus! {

/// What the validator's dispersal protocol reports to the node.
#[derive(Debug)]
pub enum DispersalEvent {
    /// A blob sent to us for one of our subnetworks.
    IncomingMessage { message: DispersalRequest },
}

/// The acknowledgment a validator writes back for a dispersal request: the
/// id of the blob received. The request must carry a blob.
pub fn dispersal_response_for(request: &DispersalReq) -> (r: DispersalRes)
    requires
        request.blob is Some,
    ensures
        r.message_type matches Some(DispersalResType::BlobId(id)) && id@ == request.blob->0.blob_id@,
{
    let blob = request.blob.as_ref().unwrap();
    let id = blob.blob_id.clone();
    assert(id@ =~= blob.blob_id@);
    DispersalRes { message_type: Some(DispersalResType::BlobId(id)) }
}

/// Decisions of the validator's dispersal protocol: only members of the DA
/// network may send blobs to it, on streams they open.
pub struct DispersalValidatorBehaviour<Membership> {
    membership: Membership,
}

impl<Membership: MembershipHandler> DispersalValidatorBehaviour<Membership> {
    pub closed spec fn membership_view(&self) -> Membership {
        self.membership
    }

    pub fn new(membership: Membership) -> (b: Self)
        ensures
            b.membership_view() == membership,
    {
        DispersalValidatorBehaviour { membership }
    }

    /// Replaces the membership.
    pub fn update_membership(&mut self, membership: Membership)
        ensures
            final(self).membership_view() == membership,
    {
        self.membership = membership;
    }

    /// Whether a peer connecting to us may disperse to us: only members of
    /// the DA network.
    pub fn handle_established_inbound_connection(&self, peer_id: &PeerKey) -> (r: bool)
        ensures
            r == self.membership_view().is_allowed_view(peer_id@),
    {
        self.membership.is_allowed(peer_id)
    }

    /// A connection we dialed never carries dispersal to us.
    pub fn handle_established_outbound_connection(&self, peer_id: &PeerKey) -> (r: bool)
        ensures
            !r,
    {
        false
    }
}

/// The failure an executor's dispersal event reports to the monitor, if
/// any.
pub fn monitor_event_from_executor_dispersal(event: &DispersalExecutorEvent) -> (r: MonitorEvent)
    ensures
        match event {
            DispersalExecutorEvent::DispersalSuccess { .. } => r is Noop,
            DispersalExecutorEvent::DispersalError { error } => r matches MonitorEvent::ExecutorDispersal(e)
                && copied_dispersal_error(*error, e),
        },
{
    match event {
        DispersalExecutorEvent::DispersalSuccess { .. } => MonitorEvent::Noop,
        DispersalExecutorEvent::DispersalError { error } => MonitorEvent::ExecutorDispersal(error.clone()),
    }
}

/// A validator's dispersal event reports no failure to the monitor.
pub fn monitor_event_from_validator_dispersal(event: &DispersalEvent) -> (r: MonitorEvent)
    ensures
        r is Noop,
{
    MonitorEvent::Noop
}

/// The failure a replication event reports to the monitor, if any.
pub fn monitor_event_from_replication(event: &ReplicationEvent) -> (r: MonitorEvent)
    ensures
        match event {
            ReplicationEvent::IncomingMessage { .. } => r is Noop,
            ReplicationEvent::ReplicationError { error } => r matches MonitorEvent::Replication(e)
                && copied_replication_error(*error, e),
        },
{
    match event {
        ReplicationEvent::IncomingMessage { .. } => MonitorEvent::Noop,
        ReplicationEvent::ReplicationError { error } => MonitorEvent::Replication(error.clone()),
    }
}

/// The failure a sampling event reports to the monitor, if any.
pub fn monitor_event_from_sampling(event: &SamplingEvent) -> (r: MonitorEvent)
    ensures
        match event {
            SamplingEvent::SamplingError { error } => r matches MonitorEvent::Sampling(e) && copied_sampling_error(
                *error,
                e,
            ),
            _ => r is Noop,
        },
{
    match event {
        SamplingEvent::SamplingSuccess { .. } => MonitorEvent::Noop,
        SamplingEvent::IncomingSample => MonitorEvent::Noop,
        SamplingEvent::SamplingError { error } => MonitorEvent::Sampling(error.clone()),
    }
}

/// A blob received for dispersal is replicated to the other members of
/// its subnetwork (see [`ReplicationBehaviour::send_message`]); its bytes
/// are returned for the node to validate.
pub fn handle_validator_dispersal_event<Membership: MembershipHandler>(
    replication_behaviour: &mut ReplicationBehaviour<Membership>,
    event: DispersalEvent,
) -> (r: Vec<u8>)
    requires
        old(replication_behaviour).membership_view().has_network(
            match event {
                DispersalEvent::IncomingMessage { message } => message.subnetwork_id,
            },
        ),
    ensures
        match event {
            DispersalEvent::IncomingMessage { message } => r@ == message.blob.data@,
        },
        final(replication_behaviour).connected_view() == old(replication_behaviour).connected_view(),
        final(replication_behaviour).streams_view() == old(replication_behaviour).streams_view(),
        match event {
            DispersalEvent::IncomingMessage { message } => exists|request: ReplicationRequest|
                #[trigger] ReplicationBehaviour::forwarded(
                    *old(replication_behaviour),
                    *final(replication_behaviour),
                    request,
                ) && request.share.blob_id == message.blob.blob_id && request.share.data@ == message.blob.data@
                    && request.subnetwork_id == message.subnetwork_id,
        },
{
    match event {
        DispersalEvent::IncomingMessage { message } => {
            let DispersalRequest { blob, subnetwork_id } = message;
            let data = blob.data.clone();
            assert(data@ =~= blob.data@);
            let request = ReplicationRequest::new(Share::new(blob.blob_id, blob.data), subnetwork_id);
            replication_behaviour.send_message(&request);
            data
        },
    }
}

/// The bytes of the share a replication event carries, for the node to
/// validate; none for an error.
pub fn handle_replication_event(event: ReplicationEvent) -> (r: Option<Vec<u8>>)
    ensures
        match event {
            ReplicationEvent::IncomingMessage { message, .. } => r matches Some(d) && d@ == message.share.data@,
            ReplicationEvent::ReplicationError { .. } => r is None,
        },
{
    match event {
        ReplicationEvent::IncomingMessage { message, .. } => Some(message.share.data),
        ReplicationEvent::ReplicationError { .. } => None,
    }
}

/// Records a protocol failure with the monitor behaviour, which acts on
/// the monitor's decision at `now` (see
/// [`ConnectionMonitorBehaviour::record_event`]).
pub fn monitor_event<Monitor: ConnectionMonitor>(
    monitor_behaviour: &mut ConnectionMonitorBehaviour<Monitor>,
    event: Monitor::Event,
    now: u64,
)
    requires
        old(monitor_behaviour).monitor_view().accepts(&event),
        now as int + old(monitor_behaviour).cooldown_view() as int <= u64::MAX,
    ensures
        exists|output: Option<ConnectionMonitorOutput>|
            #[trigger] final(monitor_behaviour).acted_on(&*old(monitor_behaviour), output, now),
{
    let ghost before = *monitor_behaviour;
    let output = monitor_behaviour.record_event(event, now);
    assert(monitor_behaviour.acted_on(&before, output, now));
}

/// A message broadcast in a subnetwork.
#[derive(Debug)]
pub struct DaMessage {
    pub blob: Blob,
    pub subnetwork_id: SubnetworkId,
}

/// What the broadcast protocol reports to the node.
#[derive(Debug)]
pub enum BroadcastEvent {
    IncomingMessage { peer_id: PeerKey, message: DaMessage },
}

/// Why the broadcast protocol refused a connection.
#[derive(Debug)]
pub struct NotNeighbour {
    pub peer_id: PeerKey,
}

/// Decisions of the broadcast protocol: only peers that share a subnetwork
/// with the local peer may connect, and received messages are reported,
/// the most recent first.
pub struct BroadcastBehaviour<Membership> {
    local_peer_id: PeerKey,
    membership: Membership,
    handler_events: VecDeque<BroadcastEvent>,
}

impl<Membership: MembershipHandler> BroadcastBehaviour<Membership> {
    pub closed spec fn local_view(&self) -> Seq<u8> {
        self.local_peer_id@
    }

    pub closed spec fn membership_view(&self) -> Membership {
        self.membership
    }

    /// The events waiting to be reported, oldest first.
    pub closed spec fn events_view(&self) -> Seq<BroadcastEvent> {
        self.handler_events@
    }

    /// `peer` shares a subnetwork with the local peer.
    pub open spec fn neighbours(&self, peer: Seq<u8>) -> bool {
        exists|s: SubnetworkId|
            #![trigger self.membership_view().membership_view(peer).contains(s)]
            self.membership_view().membership_view(self.local_view()).contains(s)
                && self.membership_view().membership_view(peer).contains(s)
    }

    pub fn new(local_peer_id: PeerKey, membership: Membership) -> (b: Self)
        ensures
            b.local_view() == local_peer_id@,
            b.membership_view() == membership,
            b.events_view() == Seq::<BroadcastEvent>::empty(),
    {
        BroadcastBehaviour { local_peer_id, membership, handler_events: VecDeque::new() }
    }

    /// Whether `peer_id` shares a subnetwork with the local peer.
    pub fn is_neighbour(&self, peer_id: &PeerKey) -> (r: bool)
        ensures
            r == self.neighbours(peer_id@),
    {
        let local = self.membership.membership(&self.local_peer_id);
        let mut i: usize = 0;
        while i < local.len()
            invariant
                i <= local@.len(),
                local@.to_set() == self.membership_view().membership_view(self.local_view()),
                forall|j: int|
                    0 <= j < i ==> !self.membership_view().membership_view(peer_id@).contains(
                        #[trigger] local@[j],
                    ),
            decreases local@.len() - i,
        {
            if self.membership.is_member_of(peer_id, &local[i]) {
                assert(local@.contains(local@[i as int]));
                return true;
            }
            i = i + 1;
        }
        proof {
            if self.neighbours(peer_id@) {
                let s = choose|s: SubnetworkId|
                    #![trigger self.membership_view().membership_view(peer_id@).contains(s)]
                    self.membership_view().membership_view(self.local_view()).contains(s)
                        && self.membership_view().membership_view(peer_id@).contains(s);
                assert(local@.to_set().contains(s));
                let j = choose|j: int| 0 <= j < local@.len() && local@[j] == s;
                assert(!self.membership_view().membership_view(peer_id@).contains(local@[j]));
            }
        }
        false
    }

    /// A peer connecting to us is refused unless it shares a subnetwork
    /// with us.
    pub fn handle_established_inbound_connection(&self, peer_id: &PeerKey) -> (r: Result<(), NotNeighbour>)
        ensures
            r is Ok <==> self.neighbours(peer_id@),
            r matches Err(e) ==> e.peer_id@ == peer_id@,
    {
        if !self.is_neighbour(peer_id) {
            return Err(NotNeighbour { peer_id: peer_id.duplicate() });
        }
        Ok(())
    }

    /// Records a message received from a peer.
    pub fn on_incoming_message(&mut self, peer_id: PeerKey, message: DaMessage)
        ensures
            final(self).events_view() == old(self).events_view().push(
                BroadcastEvent::IncomingMessage { peer_id, message },
            ),
            final(self).local_view() == old(self).local_view(),
            final(self).membership_view() == old(self).membership_view(),
    {
        self.handler_events.push_back(BroadcastEvent::IncomingMessage { peer_id, message });
    }

    /// The most recent event not yet reported, if any.
    pub fn poll(&mut self) -> (r: Option<BroadcastEvent>)
        ensures
            old(self).events_view().len() == 0 ==> r is None && final(self).events_view() == old(
                self,
            ).events_view(),
            old(self).events_view().len() > 0 ==> r == Some(old(self).events_view().last())
                && final(self).events_view() == old(self).events_view().drop_last(),
            final(self).local_view() == old(self).local_view(),
            final(self).membership_view() == old(self).membership_view(),
    {
        self.handler_events.pop_back()
    }
}

} // verus!
