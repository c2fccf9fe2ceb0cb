use fixed::types::U57F7;
use nomos_da::address_book::AddressBook;
use nomos_da::assignations::FillFromNodeList;
use nomos_da::connection_monitor::{
    ConnectionDenied, ConnectionMonitorBehaviour, PeerCommand, PeerCommandReply, PeerStatus,
};
use nomos_da::errors::{IoErrorKind, SamplingError};
use nomos_da::health::{
    compute_failure_rate, DAConnectionMonitor, DAConnectionMonitorSettings, MonitorEvent,
    MonitorObservation, PeerStats, TimeDecay,
};
use nomos_da::peer::PeerKey;
use nomos_da::policy::{DAConnectionPolicy, DAConnectionPolicySettings};

type Monitor = DAConnectionMonitor<DAConnectionPolicy<FillFromNodeList>>;

fn peer(n: u8) -> PeerKey {
    PeerKey::from_bytes(vec![n, n, n])
}

fn bits(value: f64) -> u64 {
    U57F7::from_num(value).to_bits()
}

/// The decay of all rates at `elapsed` seconds with a window of ten
/// seconds, as the node computes it.
fn decay(elapsed: f64) -> TimeDecay {
    let d = bits((-elapsed / 10.0).exp());
    TimeDecay { dispersal: d, sampling: d, replication: d }
}

fn setup_monitor() -> Monitor {
    let monitor_settings = DAConnectionMonitorSettings {
        failure_time_window: 10_000_000_000,
        time_decay_factor: U57F7::lit("0.8").to_bits(),
    };
    let policy_settings = DAConnectionPolicySettings {
        min_dispersal_peers: 0,
        min_replication_peers: 0,
        max_dispersal_failures: 2,
        max_sampling_failures: 2,
        max_replication_failures: 2,
        malicious_threshold: 3,
    };
    let membership = FillFromNodeList::new(&[peer(1)], AddressBook::empty(), 1, 1);
    DAConnectionMonitor::new(
        monitor_settings,
        DAConnectionPolicy::new(policy_settings, membership, peer(0)),
    )
}

fn sampling_failure(p: &PeerKey) -> MonitorEvent {
    MonitorEvent::Sampling(SamplingError::Io {
        peer_id: p.duplicate(),
        kind: IoErrorKind::Other,
        text: String::from("Simulated I/O error"),
        message: None,
    })
}

/// Records `count` sampling failures one nanosecond apart, starting at
/// `start`; returns the time of the last one.
fn fail(monitor: &mut Monitor, p: &PeerKey, count: u64, start: u64) -> u64 {
    let mut now = start;
    for i in 0..count {
        now = start + i;
        monitor.record_observation(MonitorObservation {
            event: sampling_failure(p),
            now,
            time_decay: decay(1e-9),
        });
    }
    now
}

#[test]
fn test_peer_starts_healthy() {
    let monitor = setup_monitor();
    assert_eq!(monitor.evaluate_peer(1, &peer(7), &decay(0.0)), PeerStatus::Healthy);
}

#[test]
fn test_peer_becomes_unhealthy() {
    let mut monitor = setup_monitor();
    let p = peer(7);
    let last = fail(&mut monitor, &p, 4, 1);
    assert_eq!(monitor.evaluate_peer(last + 1, &p, &decay(1e-9)), PeerStatus::Unhealthy);
}

#[test]
fn test_peer_becomes_malicious() {
    let mut monitor = setup_monitor();
    let p = peer(7);
    let last = fail(&mut monitor, &p, 100, 1);
    assert_eq!(monitor.evaluate_peer(last + 1, &p, &decay(1e-9)), PeerStatus::Malicious);
}

#[test]
fn test_failure_decay_over_time() {
    let mut monitor = setup_monitor();
    let p = peer(7);
    let last = fail(&mut monitor, &p, 4, 1);
    assert_eq!(monitor.evaluate_peer(last + 1, &p, &decay(1e-9)), PeerStatus::Unhealthy);
    let later = last + 10_000_000_000;
    assert_eq!(monitor.evaluate_peer(later, &p, &decay(10.0)), PeerStatus::Healthy);
}

#[test]
fn test_peer_reset() {
    let mut monitor = setup_monitor();
    let p = peer(7);
    let last = fail(&mut monitor, &p, 4, 1);
    assert_eq!(monitor.evaluate_peer(last + 1, &p, &decay(1e-9)), PeerStatus::Unhealthy);
    monitor.reset_peer_stats(&p);
    assert_eq!(monitor.evaluate_peer(last + 1, &p, &decay(1e-9)), PeerStatus::Healthy);
}

#[test]
fn failure_rate_formula() {
    // no previous failure: unchanged
    assert_eq!(compute_failure_rate(10, None, 300, 64, 128), 300);
    // same instant: unchanged
    assert_eq!(compute_failure_rate(10, Some(10), 300, 64, 128), 300);
    // time passed: rate * (decay * factor / 128) / 128
    assert_eq!(compute_failure_rate(11, Some(10), 256, 64, 102), 102);
    assert_eq!(compute_failure_rate(11, Some(10), 375, 128, 102), 298);
}

#[test]
fn stats_are_brought_forward_per_protocol() {
    let stats = PeerStats {
        dispersal_failures_rate: 256,
        sampling_failures_rate: 128,
        replication_failures_rate: 0,
        last_dispersal_failure: Some(1),
        last_sampling_failure: None,
        last_replication_failure: Some(5),
    };
    let decay = TimeDecay { dispersal: 64, sampling: 64, replication: 64 };
    let updated = stats.get_updated_stats(5, &decay, 128);
    assert_eq!(updated.dispersal_failures_rate, 128);
    assert_eq!(updated.sampling_failures_rate, 128);
    assert_eq!(updated.replication_failures_rate, 0);
    assert_eq!(updated.last_dispersal_failure, Some(1));
    assert_eq!(PeerStats::new().dispersal_failures_rate, 0);
}

#[test]
fn record_returns_the_status_of_the_peer() {
    let mut monitor = setup_monitor();
    let p = peer(3);
    let out = monitor
        .record_observation(MonitorObservation { event: sampling_failure(&p), now: 1, time_decay: decay(0.0) })
        .expect("an output for a peer");
    assert_eq!(out.peer_id.bytes, p.bytes);
    assert_eq!(out.peer_status, PeerStatus::Healthy);
    assert!(monitor
        .record_observation(MonitorObservation { event: MonitorEvent::Noop, now: 2, time_decay: decay(0.0) })
        .is_none());
}

#[test]
fn test_block_unblock_peer() {
    let mut behaviour = ConnectionMonitorBehaviour::new(setup_monitor(), 100);
    let p = peer(9);
    assert!(behaviour.block_peer(p.duplicate()));
    assert!(!behaviour.block_peer(p.duplicate()));
    assert!(matches!(behaviour.enforce(&p, 10), Err(ConnectionDenied::Blocked(b)) if b.peer.bytes == p.bytes));
    match behaviour.handle_command(PeerCommand::BlacklistedPeers) {
        PeerCommandReply::Peers(peers) => {
            assert_eq!(peers.len(), 1);
            assert_eq!(peers[0].bytes, p.bytes);
        }
        _ => panic!("expected the blocked peers"),
    }
    let closed = behaviour.next_connection_to_close().expect("a connection to close");
    assert_eq!(closed.bytes, p.bytes);
    assert!(behaviour.next_connection_to_close().is_none());
    assert!(matches!(behaviour.handle_command(PeerCommand::Unblock(p.duplicate())), PeerCommandReply::Done(true)));
    match behaviour.handle_command(PeerCommand::BlacklistedPeers) {
        PeerCommandReply::Peers(peers) => assert!(peers.is_empty()),
        _ => panic!("expected the blocked peers"),
    }
    assert!(behaviour.enforce(&p, 20).is_ok());
    assert!(matches!(behaviour.handle_command(PeerCommand::Unblock(p.duplicate())), PeerCommandReply::Done(false)));
    assert!(matches!(behaviour.handle_command(PeerCommand::Block(p.duplicate())), PeerCommandReply::Done(true)));
}

#[test]
fn unblock_lifts_both_blocks() {
    let mut behaviour = ConnectionMonitorBehaviour::new(setup_monitor(), 100);
    let p = peer(6);
    assert!(behaviour.block_peer(p.duplicate()));
    behaviour.temporarily_block_peer(p.duplicate(), 10);
    assert!(behaviour.enforce(&p, 20).is_err());
    assert!(behaviour.unblock_peer(p.duplicate()));
    assert!(behaviour.enforce(&p, 20).is_ok());
    assert!(!behaviour.unblock_peer(p.duplicate()));
}

#[test]
fn test_cannot_dial_unhealthy_peer() {
    let mut behaviour = ConnectionMonitorBehaviour::new(setup_monitor(), 100);
    let p = peer(4);
    behaviour.temporarily_block_peer(p.duplicate(), 50);
    assert!(matches!(behaviour.enforce(&p, 60), Err(ConnectionDenied::TemporarilyBlocked(_))));
    assert!(matches!(behaviour.enforce(&p, 150), Err(ConnectionDenied::TemporarilyBlocked(_))));
}

#[test]
fn test_can_dial_unhealthy_peer_after_cooldown() {
    let mut behaviour = ConnectionMonitorBehaviour::new(setup_monitor(), 100);
    let p = peer(4);
    behaviour.temporarily_block_peer(p.duplicate(), 50);
    assert!(behaviour.enforce(&p, 151).is_ok());
    // the cooldown is forgotten once over
    assert!(behaviour.enforce(&p, 60).is_ok());
}

#[test]
fn test_cannot_accept_malicious_peer() {
    let mut behaviour = ConnectionMonitorBehaviour::new(setup_monitor(), 100);
    let p = peer(5);
    let mut now = 1;
    let mut last = None;
    for i in 0..100 {
        now = 1 + i;
        last = behaviour.record_event(
            MonitorObservation { event: sampling_failure(&p), now, time_decay: decay(1e-9) },
            now,
        );
    }
    assert_eq!(last.expect("a status").peer_status, PeerStatus::Malicious);
    assert!(matches!(behaviour.enforce(&p, now + 1_000_000), Err(ConnectionDenied::Blocked(_))));
}

#[test]
fn unhealthy_status_blocks_for_the_cooldown() {
    let mut behaviour = ConnectionMonitorBehaviour::new(setup_monitor(), 1000);
    let p = peer(6);
    let mut now = 1;
    for i in 0..4 {
        now = 1 + i;
        behaviour.record_event(
            MonitorObservation { event: sampling_failure(&p), now, time_decay: decay(1e-9) },
            now,
        );
    }
    assert!(matches!(behaviour.enforce(&p, now + 10), Err(ConnectionDenied::TemporarilyBlocked(_))));
    assert!(behaviour.enforce(&p, now + 1001).is_ok());
}
