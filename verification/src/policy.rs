use vstd::prelude::*;
use crate::assignations::MembershipHandler;
use crate::fixed_point::fixed_ge_int;
use crate::health::{PeerHealthPolicy, PeerStats};
use crate::messages::SubnetworkId;
use crate::peer::PeerKey;

verus! {

/// Live connection counts of a subnetwork.
#[derive(Debug, PartialEq, Eq, Structural, Clone, Copy)]
pub struct SubnetworkStats {
    pub inbound: usize,
    pub outbound: usize,
}

/// How far a connection count is from what the policy wants.
#[derive(Debug, PartialEq, Eq, Structural, Clone, Copy)]
pub enum ConnectionDeviation {
    Missing(usize),
    TooMany(usize),
}

/// Deviation of the inbound and outbound connections of a subnetwork.
#[derive(Debug, PartialEq, Eq, Structural, Clone, Copy)]
pub struct SubnetworkDeviation {
    pub inbound: ConnectionDeviation,
    pub outbound: ConnectionDeviation,
}

/// Says how many connections each subnetwork lacks or has in excess.
pub trait SubnetworkConnectionPolicy {
    spec fn deviation_view(&self, subnetwork_id: SubnetworkId, stats: SubnetworkStats) -> SubnetworkDeviation;

    spec fn subnetwork_number_view(&self) -> SubnetworkId;

    /// The deviation of `subnetwork_id` given its live connections.
    fn connection_number_deviation(&self, subnetwork_id: SubnetworkId, stats: &SubnetworkStats) -> (r:
        SubnetworkDeviation)
        requires
            stats.inbound + stats.outbound <= usize::MAX,
        ensures
            r == self.deviation_view(subnetwork_id, *stats),
    ;

    /// How many subnetworks there are: their ids run from zero up to it.
    fn subnetwork_number(&self) -> (r: SubnetworkId)
        ensures
            r == self.subnetwork_number_view(),
    ;
}

/// Thresholds of the DA connection policy. Failure thresholds are counts
/// compared with the failure rates of a peer.
#[derive(Debug, PartialEq, Eq, Structural, Clone, Copy)]
pub struct DAConnectionPolicySettings {
    pub min_dispersal_peers: usize,
    pub min_replication_peers: usize,
    pub max_dispersal_failures: usize,
    pub max_sampling_failures: usize,
    pub max_replication_failures: usize,
    pub malicious_threshold: usize,
}

/// The DA network's health and connection policy.
pub struct DAConnectionPolicy<Membership> {
    settings: DAConnectionPolicySettings,
    membership: Membership,
    local_peer_id: PeerKey,
}

/// Whether a failure rate (`U57F7` raw bits) has reached `threshold`.
pub open spec fn rate_reaches(rate: u64, threshold: usize) -> bool {
    rate as int >= (threshold as int) * 128
}

/// How many connections a subnetwork needs: members of it need enough for
/// both dispersal and replication, others enough for dispersal.
pub open spec fn required_connections(settings: DAConnectionPolicySettings, is_member: bool) -> usize {
    if is_member {
        if settings.min_dispersal_peers >= settings.min_replication_peers {
            settings.min_dispersal_peers
        } else {
            settings.min_replication_peers
        }
    } else {
        settings.min_dispersal_peers
    }
}

/// The deviation of a subnetwork: all missing connections are counted as
/// outbound, none as inbound.
pub open spec fn policy_deviation(required: usize, stats: SubnetworkStats) -> SubnetworkDeviation {
    let total = stats.inbound + stats.outbound;
    SubnetworkDeviation {
        inbound: ConnectionDeviation::Missing(0),
        outbound: ConnectionDeviation::Missing(
            if required >= total {
                (required - total) as usize
            } else {
                0
            },
        ),
    }
}

impl<Membership: MembershipHandler> DAConnectionPolicy<Membership> {
    pub closed spec fn settings_view(&self) -> DAConnectionPolicySettings {
        self.settings
    }

    pub closed spec fn membership_view(&self) -> Membership {
        self.membership
    }

    pub closed spec fn local_peer_view(&self) -> Seq<u8> {
        self.local_peer_id@
    }

    pub fn new(settings: DAConnectionPolicySettings, membership: Membership, local_peer_id: PeerKey) -> (p:
        Self)
        ensures
            p.settings_view() == settings,
            p.membership_view() == membership,
            p.local_peer_view() == local_peer_id@,
    {
        DAConnectionPolicy { settings, membership, local_peer_id }
    }
}

impl<Membership: MembershipHandler> PeerHealthPolicy for DAConnectionPolicy<Membership> {
    /// Malicious: some failure rate has reached the malicious threshold.
    open spec fn malicious_view(&self, stats: PeerStats) -> bool {
        let t = self.settings_view().malicious_threshold;
        rate_reaches(stats.dispersal_failures_rate, t) || rate_reaches(stats.sampling_failures_rate, t)
            || rate_reaches(stats.replication_failures_rate, t)
    }

    /// Unhealthy: some failure rate has reached its protocol's maximum.
    open spec fn unhealthy_view(&self, stats: PeerStats) -> bool {
        let s = self.settings_view();
        rate_reaches(stats.dispersal_failures_rate, s.max_dispersal_failures) || rate_reaches(
            stats.sampling_failures_rate,
            s.max_sampling_failures,
        ) || rate_reaches(stats.replication_failures_rate, s.max_replication_failures)
    }

    fn is_peer_malicious(&self, stats: &PeerStats) -> (r: bool) {
        let t = self.settings.malicious_threshold;
        fixed_ge_int(stats.dispersal_failures_rate, t) || fixed_ge_int(stats.sampling_failures_rate, t)
            || fixed_ge_int(stats.replication_failures_rate, t)
    }

    fn is_peer_unhealthy(&self, stats: &PeerStats) -> (r: bool) {
        fixed_ge_int(stats.dispersal_failures_rate, self.settings.max_dispersal_failures)
            || fixed_ge_int(stats.sampling_failures_rate, self.settings.max_sampling_failures)
            || fixed_ge_int(stats.replication_failures_rate, self.settings.max_replication_failures)
    }
}

impl<Membership: MembershipHandler> SubnetworkConnectionPolicy for DAConnectionPolicy<Membership> {
    open spec fn deviation_view(&self, subnetwork_id: SubnetworkId, stats: SubnetworkStats) -> SubnetworkDeviation {
        policy_deviation(
            required_connections(
                self.settings_view(),
                self.membership_view().membership_view(self.local_peer_view()).contains(subnetwork_id),
            ),
            stats,
        )
    }

    /// One more than the last subnetwork id of the membership, at most the
    /// largest subnetwork id.
    open spec fn subnetwork_number_view(&self) -> SubnetworkId {
        let last = self.membership_view().last_subnetwork_view();
        if last < u16::MAX {
            (last + 1) as u16
        } else {
            u16::MAX
        }
    }

    fn connection_number_deviation(&self, subnetwork_id: SubnetworkId, stats: &SubnetworkStats) -> (r:
        SubnetworkDeviation) {
        let is_member = self.membership.is_member_of(&self.local_peer_id, &subnetwork_id);
        let required_connections = if is_member {
            if self.settings.min_dispersal_peers >= self.settings.min_replication_peers {
                self.settings.min_dispersal_peers
            } else {
                self.settings.min_replication_peers
            }
        } else {
            self.settings.min_dispersal_peers
        };
        let total_missing = required_connections.saturating_sub(stats.inbound + stats.outbound);
        SubnetworkDeviation {
            inbound: ConnectionDeviation::Missing(0),
            outbound: ConnectionDeviation::Missing(total_missing),
        }
    }

    fn subnetwork_number(&self) -> (r: SubnetworkId) {
        self.membership.last_subnetwork_id().saturating_add(1)
    }
}

} // verus!
