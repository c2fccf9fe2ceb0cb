use nomos_da::address_book::AddressBook;
use nomos_da::assignations::FillFromNodeList;
use nomos_da::balancer::{dial_target, ConnectionBalancerBehaviour, ConnectionEvent, DAConnectionBalancer};
use nomos_da::maintenance::ConnectionMaintenanceBehaviour;
use nomos_da::peer::PeerKey;
use nomos_da::policy::{
    ConnectionDeviation, DAConnectionPolicy, DAConnectionPolicySettings, SubnetworkConnectionPolicy,
    SubnetworkStats,
};

fn peer(n: u8) -> PeerKey {
    PeerKey::from_bytes(vec![n])
}

fn settings(min_dispersal: usize, min_replication: usize) -> DAConnectionPolicySettings {
    DAConnectionPolicySettings {
        min_dispersal_peers: min_dispersal,
        min_replication_peers: min_replication,
        max_dispersal_failures: 3,
        max_sampling_failures: 3,
        max_replication_failures: 3,
        malicious_threshold: 5,
    }
}

fn balancer(members: &[u8], missing: usize) -> DAConnectionBalancer<FillFromNodeList, DAConnectionPolicy<FillFromNodeList>> {
    let peers: Vec<PeerKey> = members.iter().map(|b| peer(*b)).collect();
    let membership = FillFromNodeList::new(&peers, AddressBook::empty(), 1, members.len());
    let policy = DAConnectionPolicy::new(
        settings(missing, 0),
        FillFromNodeList::new(&peers, AddressBook::empty(), 1, members.len()),
        peer(0),
    );
    DAConnectionBalancer::new(membership, policy)
}

#[test]
fn test_balancer_returns_one_peer() {
    let b = balancer(&[1], 1);
    let peers = b.poll(true).expect("peers to dial");
    assert_eq!(peers.len(), 1);
    assert_eq!(peers[0].bytes, vec![1]);
}

#[test]
fn test_balancer_returns_multiple_peers() {
    let b = balancer(&[1, 2, 3], 2);
    let peers = b.poll(true).expect("peers to dial");
    assert_eq!(peers.len(), 2);
    assert_ne!(peers[0].bytes, peers[1].bytes);
    for p in &peers {
        assert!([vec![1], vec![2], vec![3]].contains(&p.bytes));
    }
}

#[test]
fn test_balancer_returns_pending_if_no_peers_needed() {
    let b = balancer(&[1], 0);
    assert!(b.poll(true).is_none());
}

#[test]
fn balancer_waits_for_a_tick() {
    let b = balancer(&[1], 1);
    assert!(b.poll(false).is_none());
}

#[test]
fn connected_peers_are_not_dialed_again() {
    let mut b = balancer(&[1, 2], 1);
    b.record_event(ConnectionEvent::OpenOutbound(peer(1)));
    assert_eq!(b.subnetwork_stats(0), SubnetworkStats { inbound: 0, outbound: 1 });
    // one connection is live, none is missing
    assert!(b.poll(true).is_none());
    b.record_event(ConnectionEvent::CloseOutbound(peer(1)));
    assert_eq!(b.subnetwork_stats(0), SubnetworkStats { inbound: 0, outbound: 0 });
    let peers = b.poll(true).expect("a peer to dial");
    assert_eq!(peers.len(), 1);
}

#[test]
fn counts_never_go_below_zero() {
    let mut b = balancer(&[1], 1);
    b.record_event(ConnectionEvent::CloseInbound(peer(1)));
    assert_eq!(b.subnetwork_stats(0), SubnetworkStats { inbound: 0, outbound: 0 });
    b.record_event(ConnectionEvent::OpenInbound(peer(1)));
    b.record_event(ConnectionEvent::OpenInbound(peer(1)));
    assert_eq!(b.subnetwork_stats(0), SubnetworkStats { inbound: 2, outbound: 0 });
    // a peer outside every subnetwork moves no count
    b.record_event(ConnectionEvent::OpenInbound(peer(9)));
    assert_eq!(b.subnetwork_stats(0), SubnetworkStats { inbound: 2, outbound: 0 });
}

#[test]
fn policy_deviation_counts_missing_connections() {
    let peers = vec![peer(0), peer(1)];
    let membership = FillFromNodeList::new(&peers, AddressBook::empty(), 2, 1);
    // the local peer (0) is a member of subnetwork 0 only
    let policy = DAConnectionPolicy::new(settings(2, 5), membership, peer(0));
    let d = policy.connection_number_deviation(0, &SubnetworkStats { inbound: 1, outbound: 1 });
    assert_eq!(d.outbound, ConnectionDeviation::Missing(3));
    assert_eq!(d.inbound, ConnectionDeviation::Missing(0));
    let d = policy.connection_number_deviation(1, &SubnetworkStats { inbound: 1, outbound: 0 });
    assert_eq!(d.outbound, ConnectionDeviation::Missing(1));
    let d = policy.connection_number_deviation(1, &SubnetworkStats { inbound: 4, outbound: 4 });
    assert_eq!(d.outbound, ConnectionDeviation::Missing(0));
    assert_eq!(policy.subnetwork_number(), 2);
}

#[test]
fn dial_target_takes_first_peer_with_address() {
    let book = AddressBook::from_entries(vec![(peer(2), b"/ip4/2".to_vec()), (peer(3), b"/ip4/3".to_vec())]);
    let (p, a) = dial_target(&book, vec![peer(1), peer(3), peer(2)]).expect("a dial");
    assert_eq!(p.bytes, vec![3]);
    assert_eq!(a, b"/ip4/3".to_vec());
    assert!(dial_target(&book, vec![peer(1)]).is_none());
}

#[test]
fn balancer_behaviour_dials_known_addresses() {
    let book = AddressBook::from_entries(vec![(peer(1), b"/ip4/1".to_vec())]);
    let mut behaviour = ConnectionBalancerBehaviour::new(book, balancer(&[1], 1));
    let (p, a) = behaviour.poll(true).expect("a dial");
    assert_eq!(p.bytes, vec![1]);
    assert_eq!(a, b"/ip4/1".to_vec());
    behaviour.update_addresses(AddressBook::empty());
    assert!(behaviour.poll(true).is_none());
    behaviour.record_event(ConnectionEvent::OpenInbound(peer(1)));
    assert!(behaviour.poll(true).is_none());
}

#[test]
fn maintenance_blocks_and_closes() {
    let mut m = ConnectionMaintenanceBehaviour::new(());
    assert!(m.block_peer(peer(4)));
    assert!(!m.block_peer(peer(4)));
    assert!(m.enforce(&peer(4)).is_err());
    assert_eq!(m.blocked_peers().len(), 1);
    assert_eq!(m.poll().expect("a connection to close").bytes, vec![4]);
    assert!(m.poll().is_none());
    assert!(m.unblock_peer(peer(4)));
    assert!(!m.unblock_peer(peer(4)));
    assert!(m.enforce(&peer(4)).is_ok());
}
