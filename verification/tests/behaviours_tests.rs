use std::time::Duration;

use nomos_da::address_book::AddressBook;
use nomos_da::assignations::{FillFromNodeList, MembershipHandler};
use nomos_da::balancer::DAConnectionBalancer;
use nomos_da::behaviours::{ExecutorBehaviour, ValidatorBehaviour};
use nomos_da::health::{DAConnectionMonitor, DAConnectionMonitorSettings};
use nomos_da::messages::Blob;
use nomos_da::peer::PeerKey;
use nomos_da::policy::{DAConnectionPolicy, DAConnectionPolicySettings};
use nomos_da::replication::{DAReplicationSettings, ReplicationConfig};

fn peer(n: u8) -> PeerKey {
    PeerKey::from_bytes(vec![n])
}

/// Peers 1..=4 in two subnetworks of two members: subnetwork 0 = {1, 2},
/// subnetwork 1 = {3, 4}.
fn membership() -> FillFromNodeList {
    let peers: Vec<PeerKey> = (1..=4).map(peer).collect();
    FillFromNodeList::new(&peers, AddressBook::empty(), 2, 2)
}

fn policy() -> DAConnectionPolicy<FillFromNodeList> {
    let settings = DAConnectionPolicySettings {
        min_dispersal_peers: 1,
        min_replication_peers: 1,
        max_dispersal_failures: 3,
        max_sampling_failures: 3,
        max_replication_failures: 3,
        malicious_threshold: 5,
    };
    DAConnectionPolicy::new(settings, membership(), peer(1))
}

fn monitor() -> DAConnectionMonitor<DAConnectionPolicy<FillFromNodeList>> {
    let settings = DAConnectionMonitorSettings { failure_time_window: 10, time_decay_factor: 1 };
    DAConnectionMonitor::new(settings, policy())
}

fn config(size: usize) -> ReplicationConfig {
    ReplicationConfig { seen_message_cache_size: size, seen_message_ttl: Duration::from_secs(60) }
}

#[test]
fn validator_behaviour_shares_the_membership() {
    let mut v = ValidatorBehaviour::new(peer(1), membership(), monitor(), 5, config(10)).expect("a cache");
    assert!(v.sampling_behaviour().handle_established_inbound_connection(&peer(3)));
    assert!(v.dispersal_behaviour().handle_established_inbound_connection(&peer(4)));
    assert!(v.replication_behaviour().is_neighbour(&peer(2)));
    assert!(!v.replication_behaviour().is_neighbour(&peer(3)));
    // a membership where peer 1 shares a subnetwork with peer 3
    let peers: Vec<PeerKey> = vec![peer(1), peer(3)];
    v.update_membership(FillFromNodeList::new(&peers, AddressBook::empty(), 1, 2));
    assert!(v.replication_behaviour().is_neighbour(&peer(3)));
    assert!(!v.sampling_behaviour().handle_established_inbound_connection(&peer(4)));
    assert!(!v.dispersal_behaviour().handle_established_inbound_connection(&peer(4)));
    assert!(v.monitor_behaviour_mut().block_peer(peer(9)));
    assert!(!v.monitor_behaviour_mut().block_peer(peer(9)));
    let _ = v.sampling_behaviour_mut();
    let _ = v.dispersal_behaviour_mut();
    let _ = v.replication_behaviour_mut();
}

#[test]
fn validator_behaviour_needs_a_replication_cache() {
    assert!(ValidatorBehaviour::new(peer(1), membership(), monitor(), 5, config(0)).is_none());
}

#[test]
fn executor_behaviour_wires_its_protocols() {
    let mut book = AddressBook::empty();
    book.insert(peer(2), vec![7]);
    let balancer = DAConnectionBalancer::new(membership(), policy());
    let mut e = ExecutorBehaviour::new(peer(1), membership(), book, balancer, monitor(), 5, config(10))
        .expect("a cache");
    assert_eq!(e.dispersal_executor_behaviour().dial_address(&peer(2)), Some(vec![7]));
    assert!(e.dispersal_validator_behaviour().handle_established_inbound_connection(&peer(2)));
    let _ = e.monitor_behavior().monitor();
    let (tasks, open) = e.dispersal_executor_behaviour_mut().on_new_blob(0, Blob::new([1; 32], vec![1]));
    assert!(tasks.is_empty());
    assert!(open.is_some());
    // the new membership reaches sampling, the executor's dispersal and replication
    let peers: Vec<PeerKey> = vec![peer(1), peer(3)];
    e.update_membership(FillFromNodeList::new(&peers, AddressBook::empty(), 1, 2));
    assert!(e.replication_behaviour().is_neighbour(&peer(3)));
    assert!(!e.sampling_behaviour().handle_established_inbound_connection(&peer(4)));
    // dispersal to this node keeps the membership it was built with
    assert!(e.dispersal_validator_behaviour().handle_established_inbound_connection(&peer(4)));
    let _ = e.sampling_behaviour_mut();
    let _ = e.dispersal_validator_behaviour_mut();
    let _ = e.replication_behaviour_mut();
    let _ = e.balancer_behaviour_mut();
    let _ = e.monitor_behaviour_mut();
}

#[test]
fn membership_clone_keeps_the_assignation() {
    let m = membership();
    let c = m.clone();
    assert_eq!(m.members().len(), c.members().len());
    assert!(c.is_allowed(&peer(4)));
}

#[test]
fn replication_settings_default_to_zero() {
    let s = DAReplicationSettings::default();
    assert_eq!(s.seen_message_cache_size, 0);
    assert_eq!(s.seen_message_ttl, Duration::ZERO);
}
