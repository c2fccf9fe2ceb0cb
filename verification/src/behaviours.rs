use vstd::prelude::*;
use crate::address_book::AddressBook;
use crate::assignations::MembershipHandler;
use crate::balancer::{ConnectionBalancer, ConnectionBalancerBehaviour};
use crate::connection_monitor::{ConnectionMonitor, ConnectionMonitorBehaviour};
use crate::dispersal::DispersalExecutorBehaviour;
use crate::messages::{Blob, BlobId, SubnetworkId};
use crate::peer::PeerKey;
use crate::replication::{ReplicationBehaviour, ReplicationConfig};
use crate::sampling::SamplingBehaviour;
use crate::validator::DispersalValidatorBehaviour;

verus! {

/// The protocols a validator runs, in the order the node serves them:
/// sampling first, as consensus waits on it; then dispersal, so that
/// executors are not held up; then replication, which depends on
/// dispersal; and the connection monitor.
pub struct ValidatorBehaviour<Monitor, Membership> {
    sampling: SamplingBehaviour<Membership>,
    dispersal: DispersalValidatorBehaviour<Membership>,
    replication: ReplicationBehaviour<Membership>,
    monitor: ConnectionMonitorBehaviour<Monitor>,
}

impl<Monitor: ConnectionMonitor, Membership: MembershipHandler + Clone> ValidatorBehaviour<Monitor, Membership> {
    pub closed spec fn sampling_view(&self) -> SamplingBehaviour<Membership> {
        self.sampling
    }

    pub closed spec fn dispersal_view(&self) -> DispersalValidatorBehaviour<Membership> {
        self.dispersal
    }

    pub closed spec fn replication_view(&self) -> ReplicationBehaviour<Membership> {
        self.replication
    }

    pub closed spec fn monitor_behaviour_view(&self) -> ConnectionMonitorBehaviour<Monitor> {
        self.monitor
    }

    /// The protocols of a validator whose peer is `local_peer_id`, each
    /// with a copy of `membership`; `None` when the replication cache
    /// cannot be built (see [`ReplicationBehaviour::new`]).
    pub fn new(
        local_peer_id: PeerKey,
        membership: Membership,
        monitor: Monitor,
        redial_cooldown: u64,
        replication_config: ReplicationConfig,
    ) -> (r: Option<Self>)
        ensures
            replication_config.seen_message_cache_size == 0 ==> r is None,
            r matches Some(b) ==> {
                &&& b.sampling_view().local_view() == local_peer_id@
                &&& cloned(membership, b.sampling_view().membership_view())
                &&& b.sampling_view().to_sample_view() == Map::<
                    Seq<u8>,
                    Vec<(SubnetworkId, BlobId)>,
                >::empty()
                &&& cloned(membership, b.dispersal_view().membership_view())
                &&& b.replication_view().local_view() == local_peer_id@
                &&& b.replication_view().membership_view() == membership
                &&& b.replication_view().connected_view() == Set::<Seq<u8>>::empty()
                &&& b.monitor_behaviour_view().monitor_view() == monitor
                &&& b.monitor_behaviour_view().cooldown_view() == redial_cooldown
                &&& b.monitor_behaviour_view().blocked_view() == Set::<Seq<u8>>::empty()
            },
    {
        let sampling = SamplingBehaviour::new(local_peer_id.duplicate(), membership.clone());
        let dispersal = DispersalValidatorBehaviour::new(membership.clone());
        let replication = match ReplicationBehaviour::new(replication_config, local_peer_id, membership) {
            Some(replication) => replication,
            None => return None,
        };
        let monitor = ConnectionMonitorBehaviour::new(monitor, redial_cooldown);
        Some(ValidatorBehaviour { sampling, dispersal, replication, monitor })
    }

    /// Gives sampling, dispersal and replication a copy of the new
    /// membership; the monitor is left as it is.
    pub fn update_membership(&mut self, membership: Membership)
        ensures
            cloned(membership, final(self).sampling_view().membership_view()),
            final(self).sampling_view().local_view() == old(self).sampling_view().local_view(),
            final(self).sampling_view().to_sample_view() == old(self).sampling_view().to_sample_view(),
            cloned(membership, final(self).dispersal_view().membership_view()),
            final(self).replication_view().membership_view() == membership,
            final(self).replication_view().local_view() == old(self).replication_view().local_view(),
            final(self).replication_view().connected_view() == old(self).replication_view().connected_view(),
            final(self).replication_view().pending_view() == old(self).replication_view().pending_view(),
            final(self).replication_view().streams_view() == old(self).replication_view().streams_view(),
            final(self).monitor_behaviour_view() == old(self).monitor_behaviour_view(),
    {
        self.sampling.update_membership(membership.clone());
        self.dispersal.update_membership(membership.clone());
        self.replication.update_membership(membership);
    }

    pub fn sampling_behaviour(&self) -> (r: &SamplingBehaviour<Membership>)
        ensures
            *r == self.sampling_view(),
    {
        &self.sampling
    }

    pub fn dispersal_behaviour(&self) -> (r: &DispersalValidatorBehaviour<Membership>)
        ensures
            *r == self.dispersal_view(),
    {
        &self.dispersal
    }

    pub fn replication_behaviour(&self) -> (r: &ReplicationBehaviour<Membership>)
        ensures
            *r == self.replication_view(),
    {
        &self.replication
    }

    pub fn sampling_behaviour_mut(&mut self) -> (r: &mut SamplingBehaviour<Membership>)
        ensures
            *r == old(self).sampling_view(),
            final(self).sampling_view() == *final(r),
            final(self).dispersal_view() == old(self).dispersal_view(),
            final(self).replication_view() == old(self).replication_view(),
            final(self).monitor_behaviour_view() == old(self).monitor_behaviour_view(),
    {
        &mut self.sampling
    }

    pub fn dispersal_behaviour_mut(&mut self) -> (r: &mut DispersalValidatorBehaviour<Membership>)
        ensures
            *r == old(self).dispersal_view(),
            final(self).dispersal_view() == *final(r),
            final(self).sampling_view() == old(self).sampling_view(),
            final(self).replication_view() == old(self).replication_view(),
            final(self).monitor_behaviour_view() == old(self).monitor_behaviour_view(),
    {
        &mut self.dispersal
    }

    pub fn replication_behaviour_mut(&mut self) -> (r: &mut ReplicationBehaviour<Membership>)
        ensures
            *r == old(self).replication_view(),
            final(self).replication_view() == *final(r),
            final(self).sampling_view() == old(self).sampling_view(),
            final(self).dispersal_view() == old(self).dispersal_view(),
            final(self).monitor_behaviour_view() == old(self).monitor_behaviour_view(),
    {
        &mut self.replication
    }

    pub fn monitor_behaviour_mut(&mut self) -> (r: &mut ConnectionMonitorBehaviour<Monitor>)
        ensures
            *r == old(self).monitor_behaviour_view(),
            final(self).monitor_behaviour_view() == *final(r),
            final(self).sampling_view() == old(self).sampling_view(),
            final(self).dispersal_view() == old(self).dispersal_view(),
            final(self).replication_view() == old(self).replication_view(),
    {
        &mut self.monitor
    }
}

/// The protocols an executor runs, in the order the node serves them:
/// sampling, dispersal of its own blobs, dispersal to it as a validator,
/// replication, then the connection balancer and monitor.
pub struct ExecutorBehaviour<Balancer, Monitor, Membership> {
    sampling: SamplingBehaviour<Membership>,
    executor_dispersal: DispersalExecutorBehaviour<Membership>,
    validator_dispersal: DispersalValidatorBehaviour<Membership>,
    replication: ReplicationBehaviour<Membership>,
    balancer: ConnectionBalancerBehaviour<Balancer>,
    monitor: ConnectionMonitorBehaviour<Monitor>,
}

impl<
    Balancer: ConnectionBalancer,
    Monitor: ConnectionMonitor,
    Membership: MembershipHandler + Clone,
> ExecutorBehaviour<Balancer, Monitor, Membership> {
    pub closed spec fn sampling_view(&self) -> SamplingBehaviour<Membership> {
        self.sampling
    }

    pub closed spec fn executor_dispersal_view(&self) -> DispersalExecutorBehaviour<Membership> {
        self.executor_dispersal
    }

    pub closed spec fn validator_dispersal_view(&self) -> DispersalValidatorBehaviour<Membership> {
        self.validator_dispersal
    }

    pub closed spec fn replication_view(&self) -> ReplicationBehaviour<Membership> {
        self.replication
    }

    pub closed spec fn balancer_behaviour_view(&self) -> ConnectionBalancerBehaviour<Balancer> {
        self.balancer
    }

    pub closed spec fn monitor_behaviour_view(&self) -> ConnectionMonitorBehaviour<Monitor> {
        self.monitor
    }

    pub open spec fn well_formed(&self) -> bool {
        &&& self.executor_dispersal_view().well_formed()
        &&& self.balancer_behaviour_view().well_formed()
    }

    /// The protocols of an executor whose peer is `local_peer_id`, each
    /// with a copy of `membership`, dialing and dispersing to the peers of
    /// `addresses`; `None` when the replication cache cannot be built (see
    /// [`ReplicationBehaviour::new`]).
    pub fn new(
        local_peer_id: PeerKey,
        membership: Membership,
        addresses: AddressBook,
        balancer: Balancer,
        monitor: Monitor,
        redial_cooldown: u64,
        replication_config: ReplicationConfig,
    ) -> (r: Option<Self>)
        requires
            addresses.well_formed(),
        ensures
            replication_config.seen_message_cache_size == 0 ==> r is None,
            r matches Some(b) ==> {
                &&& b.well_formed()
                &&& b.sampling_view().local_view() == local_peer_id@
                &&& cloned(membership, b.sampling_view().membership_view())
                &&& b.sampling_view().to_sample_view() == Map::<
                    Seq<u8>,
                    Vec<(SubnetworkId, BlobId)>,
                >::empty()
                &&& b.executor_dispersal_view().local_view() == local_peer_id@
                &&& cloned(membership, b.executor_dispersal_view().membership_view())
                &&& b.executor_dispersal_view().addresses_view() == addresses@
                &&& forall|p: Seq<u8>|
                    #[trigger] b.executor_dispersal_view().queue_of(p) == Seq::<(SubnetworkId, Blob)>::empty()
                &&& forall|s: SubnetworkId|
                    #[trigger] b.executor_dispersal_view().pending_of(s) == Seq::<Blob>::empty()
                &&& b.executor_dispersal_view().connected_view() == Set::<Seq<u8>>::empty()
                &&& cloned(membership, b.validator_dispersal_view().membership_view())
                &&& b.replication_view().local_view() == local_peer_id@
                &&& b.replication_view().membership_view() == membership
                &&& b.replication_view().connected_view() == Set::<Seq<u8>>::empty()
                &&& b.balancer_behaviour_view().addresses_view() == addresses@
                &&& b.balancer_behaviour_view().balancer_view() == balancer
                &&& b.monitor_behaviour_view().monitor_view() == monitor
                &&& b.monitor_behaviour_view().cooldown_view() == redial_cooldown
                &&& b.monitor_behaviour_view().blocked_view() == Set::<Seq<u8>>::empty()
            },
    {
        let sampling = SamplingBehaviour::new(local_peer_id.duplicate(), membership.clone());
        let executor_dispersal = DispersalExecutorBehaviour::new(
            local_peer_id.duplicate(),
            membership.clone(),
            addresses.duplicate(),
        );
        let validator_dispersal = DispersalValidatorBehaviour::new(membership.clone());
        let replication = match ReplicationBehaviour::new(replication_config, local_peer_id, membership) {
            Some(replication) => replication,
            None => return None,
        };
        let balancer = ConnectionBalancerBehaviour::new(addresses, balancer);
        let monitor = ConnectionMonitorBehaviour::new(monitor, redial_cooldown);
        Some(
            ExecutorBehaviour {
                sampling,
                executor_dispersal,
                validator_dispersal,
                replication,
                balancer,
                monitor,
            },
        )
    }

    /// Gives sampling, the executor's dispersal and replication a copy of
    /// the new membership; dispersal to this node, the balancer and the
    /// monitor are left as they are.
    pub fn update_membership(&mut self, membership: Membership)
        ensures
            cloned(membership, final(self).sampling_view().membership_view()),
            final(self).sampling_view().local_view() == old(self).sampling_view().local_view(),
            final(self).sampling_view().to_sample_view() == old(self).sampling_view().to_sample_view(),
            cloned(membership, final(self).executor_dispersal_view().membership_view()),
            final(self).executor_dispersal_view().local_view() == old(self).executor_dispersal_view().local_view(),
            final(self).executor_dispersal_view().addresses_view() == old(
                self,
            ).executor_dispersal_view().addresses_view(),
            final(self).executor_dispersal_view().well_formed() == old(self).executor_dispersal_view().well_formed(),
            final(self).executor_dispersal_view().queues_view() == old(self).executor_dispersal_view().queues_view(),
            final(self).executor_dispersal_view().pending_view() == old(self).executor_dispersal_view().pending_view(),
            final(self).executor_dispersal_view().connected_view() == old(
                self,
            ).executor_dispersal_view().connected_view(),
            final(self).executor_dispersal_view().open_view() == old(self).executor_dispersal_view().open_view(),
            final(self).executor_dispersal_view().idle_view() == old(self).executor_dispersal_view().idle_view(),
            final(self).validator_dispersal_view() == old(self).validator_dispersal_view(),
            final(self).replication_view().membership_view() == membership,
            final(self).replication_view().local_view() == old(self).replication_view().local_view(),
            final(self).replication_view().connected_view() == old(self).replication_view().connected_view(),
            final(self).replication_view().pending_view() == old(self).replication_view().pending_view(),
            final(self).replication_view().streams_view() == old(self).replication_view().streams_view(),
            final(self).balancer_behaviour_view() == old(self).balancer_behaviour_view(),
            final(self).monitor_behaviour_view() == old(self).monitor_behaviour_view(),
    {
        self.sampling.update_membership(membership.clone());
        self.executor_dispersal.update_membership(membership.clone());
        self.replication.update_membership(membership);
    }

    pub fn sampling_behaviour(&self) -> (r: &SamplingBehaviour<Membership>)
        ensures
            *r == self.sampling_view(),
    {
        &self.sampling
    }

    pub fn dispersal_executor_behaviour(&self) -> (r: &DispersalExecutorBehaviour<Membership>)
        ensures
            *r == self.executor_dispersal_view(),
    {
        &self.executor_dispersal
    }

    pub fn dispersal_validator_behaviour(&self) -> (r: &DispersalValidatorBehaviour<Membership>)
        ensures
            *r == self.validator_dispersal_view(),
    {
        &self.validator_dispersal
    }

    pub fn replication_behaviour(&self) -> (r: &ReplicationBehaviour<Membership>)
        ensures
            *r == self.replication_view(),
    {
        &self.replication
    }

    pub fn monitor_behavior(&self) -> (r: &ConnectionMonitorBehaviour<Monitor>)
        ensures
            *r == self.monitor_behaviour_view(),
    {
        &self.monitor
    }

    pub fn sampling_behaviour_mut(&mut self) -> (r: &mut SamplingBehaviour<Membership>)
        ensures
            *r == old(self).sampling_view(),
            final(self).sampling_view() == *final(r),
            final(self).executor_dispersal_view() == old(self).executor_dispersal_view(),
            final(self).validator_dispersal_view() == old(self).validator_dispersal_view(),
            final(self).replication_view() == old(self).replication_view(),
            final(self).balancer_behaviour_view() == old(self).balancer_behaviour_view(),
            final(self).monitor_behaviour_view() == old(self).monitor_behaviour_view(),
    {
        &mut self.sampling
    }

    pub fn dispersal_executor_behaviour_mut(&mut self) -> (r: &mut DispersalExecutorBehaviour<Membership>)
        ensures
            *r == old(self).executor_dispersal_view(),
            final(self).executor_dispersal_view() == *final(r),
            final(self).sampling_view() == old(self).sampling_view(),
            final(self).validator_dispersal_view() == old(self).validator_dispersal_view(),
            final(self).replication_view() == old(self).replication_view(),
            final(self).balancer_behaviour_view() == old(self).balancer_behaviour_view(),
            final(self).monitor_behaviour_view() == old(self).monitor_behaviour_view(),
    {
        &mut self.executor_dispersal
    }

    pub fn dispersal_validator_behaviour_mut(&mut self) -> (r: &mut DispersalValidatorBehaviour<Membership>)
        ensures
            *r == old(self).validator_dispersal_view(),
            final(self).validator_dispersal_view() == *final(r),
            final(self).sampling_view() == old(self).sampling_view(),
            final(self).executor_dispersal_view() == old(self).executor_dispersal_view(),
            final(self).replication_view() == old(self).replication_view(),
            final(self).balancer_behaviour_view() == old(self).balancer_behaviour_view(),
            final(self).monitor_behaviour_view() == old(self).monitor_behaviour_view(),
    {
        &mut self.validator_dispersal
    }

    pub fn replication_behaviour_mut(&mut self) -> (r: &mut ReplicationBehaviour<Membership>)
        ensures
            *r == old(self).replication_view(),
            final(self).replication_view() == *final(r),
            final(self).sampling_view() == old(self).sampling_view(),
            final(self).executor_dispersal_view() == old(self).executor_dispersal_view(),
            final(self).validator_dispersal_view() == old(self).validator_dispersal_view(),
            final(self).balancer_behaviour_view() == old(self).balancer_behaviour_view(),
            final(self).monitor_behaviour_view() == old(self).monitor_behaviour_view(),
    {
        &mut self.replication
    }

    pub fn balancer_behaviour_mut(&mut self) -> (r: &mut ConnectionBalancerBehaviour<Balancer>)
        ensures
            *r == old(self).balancer_behaviour_view(),
            final(self).balancer_behaviour_view() == *final(r),
            final(self).sampling_view() == old(self).sampling_view(),
            final(self).executor_dispersal_view() == old(self).executor_dispersal_view(),
            final(self).validator_dispersal_view() == old(self).validator_dispersal_view(),
            final(self).replication_view() == old(self).replication_view(),
            final(self).monitor_behaviour_view() == old(self).monitor_behaviour_view(),
    {
        &mut self.balancer
    }

    pub fn monitor_behaviour_mut(&mut self) -> (r: &mut ConnectionMonitorBehaviour<Monitor>)
        ensures
            *r == old(self).monitor_behaviour_view(),
            final(self).monitor_behaviour_view() == *final(r),
            final(self).sampling_view() == old(self).sampling_view(),
            final(self).executor_dispersal_view() == old(self).executor_dispersal_view(),
            final(self).validator_dispersal_view() == old(self).validator_dispersal_view(),
            final(self).replication_view() == old(self).replication_view(),
            final(self).balancer_behaviour_view() == old(self).balancer_behaviour_view(),
    {
        &mut self.monitor
    }
}

} // verus!
