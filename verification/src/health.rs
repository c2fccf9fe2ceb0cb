use vstd::prelude::*;
use crate::connection_monitor::{ConnectionMonitor, ConnectionMonitorOutput, PeerStatus};
use crate::errors::{DispersalError, ReplicationError, SamplingError};
use crate::fixed_point::{fixed_mul, fixed_add, FIXED_ONE};
use crate::peer::PeerKey;
use crate::peer_map::PeerMap;

verus! {

/// Failure statistics of a peer. Rates are exponentially weighted moving
/// averages held as the raw bits of `U57F7` fixed-point numbers (value times
/// 2^7); failure times are in nanoseconds on the node's clock.
#[derive(Debug, PartialEq, Eq, Structural, Clone, Copy)]
pub struct PeerStats {
    pub dispersal_failures_rate: u64,
    pub sampling_failures_rate: u64,
    pub replication_failures_rate: u64,
    pub last_dispersal_failure: Option<u64>,
    pub last_sampling_failure: Option<u64>,
    pub last_replication_failure: Option<u64>,
}

/// Time decay factors, as `U57F7` raw bits, for each protocol: the factor
/// `exp(-elapsed / window)` for the time elapsed since that protocol's last
/// failure. Computing it takes floating point, which the node does.
#[derive(Debug, PartialEq, Eq, Structural, Clone, Copy)]
pub struct TimeDecay {
    pub dispersal: u64,
    pub sampling: u64,
    pub replication: u64,
}

/// Whether time has passed at `now` since a failure at `last`.
pub open spec fn elapsed(last: Option<u64>, now: u64) -> bool {
    last is Some && now > last->0
}

/// The combined decay multiplier (raw bits): the time decay times the
/// configured decay factor.
pub open spec fn decay_multiplier(time_decay: u64, factor: u64) -> int {
    (time_decay as int) * (factor as int) / 128
}

/// A failure rate brought forward to `now`: multiplied by the decay
/// multiplier when time has passed since the last failure, unchanged
/// otherwise.
pub open spec fn rate_after(rate: u64, last: Option<u64>, now: u64, time_decay: u64, factor: u64) -> int {
    if elapsed(last, now) {
        (rate as int) * decay_multiplier(time_decay, factor) / 128
    } else {
        rate as int
    }
}

/// The products taken by [`rate_after`] stay within `U57F7` range.
pub open spec fn rate_fits(rate: u64, last: Option<u64>, now: u64, time_decay: u64, factor: u64) -> bool {
    elapsed(last, now) ==> {
        &&& (time_decay as int) * (factor as int) < 0x80_0000_0000_0000_0000
        &&& (rate as int) * decay_multiplier(time_decay, factor) < 0x80_0000_0000_0000_0000
    }
}

/// Brings a failure rate forward to `now` (see [`rate_after`]).
pub fn compute_failure_rate(
    now: u64,
    last_failure: Option<u64>,
    failure_rate: u64,
    time_decay: u64,
    decay_factor: u64,
) -> (r: u64)
    requires
        rate_fits(failure_rate, last_failure, now, time_decay, decay_factor),
    ensures
        r as int == rate_after(failure_rate, last_failure, now, time_decay, decay_factor),
{
    let last = match last_failure {
        Some(t) => t,
        None => now,
    };
    if now > last {
        let m = fixed_mul(time_decay, decay_factor);
        fixed_mul(failure_rate, m)
    } else {
        failure_rate
    }
}

/// All three rates of `s` brought forward to `now`.
pub open spec fn updated_stats(s: PeerStats, now: u64, d: TimeDecay, factor: u64) -> PeerStats {
    PeerStats {
        dispersal_failures_rate: rate_after(
            s.dispersal_failures_rate,
            s.last_dispersal_failure,
            now,
            d.dispersal,
            factor,
        ) as u64,
        sampling_failures_rate: rate_after(
            s.sampling_failures_rate,
            s.last_sampling_failure,
            now,
            d.sampling,
            factor,
        ) as u64,
        replication_failures_rate: rate_after(
            s.replication_failures_rate,
            s.last_replication_failure,
            now,
            d.replication,
            factor,
        ) as u64,
        ..s
    }
}

/// The products taken by [`updated_stats`] stay within range.
pub open spec fn stats_fit(s: PeerStats, now: u64, d: TimeDecay, factor: u64) -> bool {
    &&& rate_fits(s.dispersal_failures_rate, s.last_dispersal_failure, now, d.dispersal, factor)
    &&& rate_fits(s.sampling_failures_rate, s.last_sampling_failure, now, d.sampling, factor)
    &&& rate_fits(s.replication_failures_rate, s.last_replication_failure, now, d.replication, factor)
}

/// Statistics of a peer with no failure.
pub open spec fn empty_stats() -> PeerStats {
    PeerStats {
        dispersal_failures_rate: 0,
        sampling_failures_rate: 0,
        replication_failures_rate: 0,
        last_dispersal_failure: None,
        last_sampling_failure: None,
        last_replication_failure: None,
    }
}

impl PeerStats {
    /// Statistics of a peer with no failure.
    pub fn new() -> (s: PeerStats)
        ensures
            s == empty_stats(),
    {
        PeerStats {
            dispersal_failures_rate: 0,
            sampling_failures_rate: 0,
            replication_failures_rate: 0,
            last_dispersal_failure: None,
            last_sampling_failure: None,
            last_replication_failure: None,
        }
    }

    /// The dispersal failure rate brought forward to `now`.
    pub fn compute_dispersal_failure_rate(&self, now: u64, time_decay: u64, factor: u64) -> (r: u64)
        requires
            rate_fits(self.dispersal_failures_rate, self.last_dispersal_failure, now, time_decay, factor),
        ensures
            r as int == rate_after(
                self.dispersal_failures_rate,
                self.last_dispersal_failure,
                now,
                time_decay,
                factor,
            ),
    {
        compute_failure_rate(now, self.last_dispersal_failure, self.dispersal_failures_rate, time_decay, factor)
    }

    /// The sampling failure rate brought forward to `now`.
    pub fn compute_sampling_failure_rate(&self, now: u64, time_decay: u64, factor: u64) -> (r: u64)
        requires
            rate_fits(self.sampling_failures_rate, self.last_sampling_failure, now, time_decay, factor),
        ensures
            r as int == rate_after(
                self.sampling_failures_rate,
                self.last_sampling_failure,
                now,
                time_decay,
                factor,
            ),
    {
        compute_failure_rate(now, self.last_sampling_failure, self.sampling_failures_rate, time_decay, factor)
    }

    /// The replication failure rate brought forward to `now`.
    pub fn compute_replication_failure_rate(&self, now: u64, time_decay: u64, factor: u64) -> (r: u64)
        requires
            rate_fits(
                self.replication_failures_rate,
                self.last_replication_failure,
                now,
                time_decay,
                factor,
            ),
        ensures
            r as int == rate_after(
                self.replication_failures_rate,
                self.last_replication_failure,
                now,
                time_decay,
                factor,
            ),
    {
        compute_failure_rate(
            now,
            self.last_replication_failure,
            self.replication_failures_rate,
            time_decay,
            factor,
        )
    }

    /// The statistics with all rates brought forward to `now`; the failure
    /// times are kept.
    pub fn get_updated_stats(&self, now: u64, time_decay: &TimeDecay, factor: u64) -> (r: PeerStats)
        requires
            stats_fit(*self, now, *time_decay, factor),
        ensures
            r == updated_stats(*self, now, *time_decay, factor),
    {
        PeerStats {
            dispersal_failures_rate: self.compute_dispersal_failure_rate(now, time_decay.dispersal, factor),
            sampling_failures_rate: self.compute_sampling_failure_rate(now, time_decay.sampling, factor),
            replication_failures_rate: self.compute_replication_failure_rate(
                now,
                time_decay.replication,
                factor,
            ),
            last_dispersal_failure: self.last_dispersal_failure,
            last_sampling_failure: self.last_sampling_failure,
            last_replication_failure: self.last_replication_failure,
        }
    }
}

/// Judges a peer from its failure statistics.
pub trait PeerHealthPolicy {
    spec fn malicious_view(&self, stats: PeerStats) -> bool;

    spec fn unhealthy_view(&self, stats: PeerStats) -> bool;

    /// Whether the peer is deemed malicious.
    fn is_peer_malicious(&self, stats: &PeerStats) -> (r: bool)
        ensures
            r == self.malicious_view(*stats),
    ;

    /// Whether the peer is deemed unhealthy.
    fn is_peer_unhealthy(&self, stats: &PeerStats) -> (r: bool)
        ensures
            r == self.unhealthy_view(*stats),
    ;
}

/// A protocol failure concerning a peer, as reported by the protocols.
#[derive(Debug)]
pub enum MonitorEvent {
    ExecutorDispersal(DispersalError),
    ValidatorDispersal(DispersalError),
    Replication(ReplicationError),
    Sampling(SamplingError),
    Noop,
}

/// The protocol whose failure rate an event raises.
#[derive(Debug, PartialEq, Eq, Structural, Clone, Copy)]
pub enum FailureKind {
    Dispersal,
    Sampling,
    Replication,
    NoFailure,
}

pub open spec fn event_kind(e: MonitorEvent) -> FailureKind {
    match e {
        MonitorEvent::ExecutorDispersal(_) => FailureKind::Dispersal,
        MonitorEvent::ValidatorDispersal(_) => FailureKind::Dispersal,
        MonitorEvent::Replication(_) => FailureKind::Replication,
        MonitorEvent::Sampling(_) => FailureKind::Sampling,
        MonitorEvent::Noop => FailureKind::NoFailure,
    }
}

/// The peer an event concerns, if any.
pub open spec fn event_peer(e: MonitorEvent) -> Option<Seq<u8>> {
    match e {
        MonitorEvent::ExecutorDispersal(err) => match err {
            DispersalError::OpenStreamError { peer_id, .. } => Some(peer_id@),
            _ => None,
        },
        MonitorEvent::ValidatorDispersal(err) => match err {
            DispersalError::OpenStreamError { peer_id, .. } => Some(peer_id@),
            _ => None,
        },
        MonitorEvent::Replication(err) => match err {
            ReplicationError::Io { peer_id, .. } => Some(peer_id@),
            ReplicationError::OpenStream { peer_id, .. } => Some(peer_id@),
            ReplicationError::DequeueOutbound { peer_id } => Some(peer_id@),
        },
        MonitorEvent::Sampling(err) => match err {
            SamplingError::Io { peer_id, .. } => Some(peer_id@),
            SamplingError::Protocol { peer_id, .. } => Some(peer_id@),
            SamplingError::OpenStream { peer_id, .. } => Some(peer_id@),
            SamplingError::Deserialize { peer_id, .. } => Some(peer_id@),
            SamplingError::RequestChannel { peer_id, .. } => Some(peer_id@),
            SamplingError::InvalidBlobId { peer_id, .. } => Some(peer_id@),
            SamplingError::BlobNotFound { peer_id, .. } => Some(peer_id@),
            SamplingError::ResponseChannel { peer_id } => Some(peer_id@),
        },
        MonitorEvent::Noop => None,
    }
}

impl MonitorEvent {
    /// The peer the event concerns, if any.
    pub fn peer_id(&self) -> (r: Option<&PeerKey>)
        ensures
            match r {
                Some(p) => event_peer(*self) == Some(p@),
                None => event_peer(*self) is None,
            },
    {
        match self {
            MonitorEvent::ExecutorDispersal(e) => e.peer_id(),
            MonitorEvent::ValidatorDispersal(e) => e.peer_id(),
            MonitorEvent::Replication(e) => e.peer_id(),
            MonitorEvent::Sampling(e) => e.peer_id(),
            MonitorEvent::Noop => None,
        }
    }
}

/// Statistics after a failure of `kind` at `now`: the rate of that protocol
/// is brought forward and raised by one, and its failure time set to `now`.
pub open spec fn recorded_stats(s: PeerStats, kind: FailureKind, now: u64, d: TimeDecay, factor: u64) -> PeerStats {
    match kind {
        FailureKind::Dispersal => PeerStats {
            dispersal_failures_rate: (rate_after(
                s.dispersal_failures_rate,
                s.last_dispersal_failure,
                now,
                d.dispersal,
                factor,
            ) + 128) as u64,
            last_dispersal_failure: Some(now),
            ..s
        },
        FailureKind::Sampling => PeerStats {
            sampling_failures_rate: (rate_after(
                s.sampling_failures_rate,
                s.last_sampling_failure,
                now,
                d.sampling,
                factor,
            ) + 128) as u64,
            last_sampling_failure: Some(now),
            ..s
        },
        FailureKind::Replication => PeerStats {
            replication_failures_rate: (rate_after(
                s.replication_failures_rate,
                s.last_replication_failure,
                now,
                d.replication,
                factor,
            ) + 128) as u64,
            last_replication_failure: Some(now),
            ..s
        },
        FailureKind::NoFailure => s,
    }
}

/// Recording a failure of `kind` stays within range, and so does judging the
/// peer afterwards.
pub open spec fn record_fits(s: PeerStats, kind: FailureKind, now: u64, d: TimeDecay, factor: u64) -> bool {
    &&& stats_fit(s, now, d, factor)
    &&& match kind {
        FailureKind::Dispersal => rate_after(
            s.dispersal_failures_rate,
            s.last_dispersal_failure,
            now,
            d.dispersal,
            factor,
        ) + 128 <= u64::MAX,
        FailureKind::Sampling => rate_after(
            s.sampling_failures_rate,
            s.last_sampling_failure,
            now,
            d.sampling,
            factor,
        ) + 128 <= u64::MAX,
        FailureKind::Replication => rate_after(
            s.replication_failures_rate,
            s.last_replication_failure,
            now,
            d.replication,
            factor,
        ) + 128 <= u64::MAX,
        FailureKind::NoFailure => true,
    }
}

/// The settings of the monitor: the failure time window (nanoseconds) that
/// the node uses to compute time decays, and the decay factor (`U57F7` raw
/// bits) applied on top of the time decay.
#[derive(Debug, PartialEq, Eq, Structural, Clone, Copy)]
pub struct DAConnectionMonitorSettings {
    pub failure_time_window: u64,
    pub time_decay_factor: u64,
}

/// A failure observed at time `now`, with the time decays of the peer's
/// rates at that time.
#[derive(Debug)]
pub struct MonitorObservation {
    pub event: MonitorEvent,
    pub now: u64,
    pub time_decay: TimeDecay,
}

/// Keeps failure statistics per peer and judges peers with a health policy.
pub struct DAConnectionMonitor<Policy> {
    peer_stats: PeerMap<PeerStats>,
    policy: Policy,
    settings: DAConnectionMonitorSettings,
}

/// The status `policy` gives to statistics.
pub open spec fn judged_status<P: PeerHealthPolicy>(policy: P, s: PeerStats) -> PeerStatus {
    if policy.malicious_view(s) {
        PeerStatus::Malicious
    } else if policy.unhealthy_view(s) {
        PeerStatus::Unhealthy
    } else {
        PeerStatus::Healthy
    }
}

impl<Policy: PeerHealthPolicy> DAConnectionMonitor<Policy> {
    pub closed spec fn stats_view(&self) -> Map<Seq<u8>, PeerStats> {
        self.peer_stats@
    }

    pub closed spec fn policy_view(&self) -> Policy {
        self.policy
    }

    pub closed spec fn settings_view(&self) -> DAConnectionMonitorSettings {
        self.settings
    }

    /// The statistics of `peer`, those of a peer without failures if none
    /// were recorded.
    pub open spec fn stats_of(&self, peer: Seq<u8>) -> PeerStats {
        if self.stats_view().contains_key(peer) {
            self.stats_view()[peer]
        } else {
            empty_stats()
        }
    }

    /// Judging `peer` at `now` stays within range.
    pub open spec fn can_evaluate(&self, now: u64, peer: Seq<u8>, d: TimeDecay) -> bool {
        stats_fit(self.stats_of(peer), now, d, self.settings_view().time_decay_factor)
    }

    /// The status of `peer` at `now`: a peer without statistics is healthy;
    /// otherwise the policy judges its rates brought forward to `now`.
    pub open spec fn status_at(&self, now: u64, peer: Seq<u8>, d: TimeDecay) -> PeerStatus {
        if self.stats_view().contains_key(peer) {
            judged_status(
                self.policy_view(),
                updated_stats(self.stats_view()[peer], now, d, self.settings_view().time_decay_factor),
            )
        } else {
            PeerStatus::Healthy
        }
    }

    pub fn new(settings: DAConnectionMonitorSettings, policy: Policy) -> (m: Self)
        ensures
            m.stats_view() == Map::<Seq<u8>, PeerStats>::empty(),
            m.policy_view() == policy,
            m.settings_view() == settings,
    {
        DAConnectionMonitor { peer_stats: PeerMap::new(), policy, settings }
    }

    /// The status of `peer` at `now` (see [`Self::status_at`]).
    pub fn evaluate_peer(&self, now: u64, peer_id: &PeerKey, time_decay: &TimeDecay) -> (r: PeerStatus)
        requires
            self.can_evaluate(now, peer_id@, *time_decay),
        ensures
            r == self.status_at(now, peer_id@, *time_decay),
    {
        match self.peer_stats.get(peer_id) {
            Some(stats) => {
                let stats = stats.get_updated_stats(now, time_decay, self.settings.time_decay_factor);
                if self.policy.is_peer_malicious(&stats) {
                    return PeerStatus::Malicious;
                }
                if self.policy.is_peer_unhealthy(&stats) {
                    return PeerStatus::Unhealthy;
                }
                PeerStatus::Healthy
            },
            None => PeerStatus::Healthy,
        }
    }

    /// Recording `observation` stays within range.
    pub open spec fn can_record(&self, o: MonitorObservation) -> bool {
        event_peer(o.event) matches Some(p) ==> record_fits(
            self.stats_of(p),
            event_kind(o.event),
            o.now,
            o.time_decay,
            self.settings_view().time_decay_factor,
        )
    }

    /// The statistics of `peer`, those of a peer without failures if none
    /// were recorded; the node reads the failure times from them to compute
    /// the time decays.
    pub fn peer_stats(&self, peer_id: &PeerKey) -> (r: PeerStats)
        ensures
            r == self.stats_of(peer_id@),
    {
        match self.peer_stats.get(peer_id) {
            Some(s) => *s,
            None => PeerStats::new(),
        }
    }

    /// Forgets the statistics of a peer.
    pub fn reset_peer_stats(&mut self, peer_id: &PeerKey)
        ensures
            final(self).stats_view() == old(self).stats_view().remove(peer_id@),
            final(self).policy_view() == old(self).policy_view(),
            final(self).settings_view() == old(self).settings_view(),
    {
        self.peer_stats.remove(peer_id);
    }

    /// Records a failure: when the event names a peer, the rate of its
    /// protocol is brought forward to `now` and raised by one, and the
    /// status of the peer at `now` is returned.
    pub fn record_observation(&mut self, observation: MonitorObservation) -> (r: Option<
        ConnectionMonitorOutput,
    >)
        requires
            old(self).can_record(observation),
        ensures
            final(self).policy_view() == old(self).policy_view(),
            final(self).settings_view() == old(self).settings_view(),
            match event_peer(observation.event) {
                None => r is None && final(self).stats_view() == old(self).stats_view(),
                Some(p) => {
                    let s = recorded_stats(
                        old(self).stats_of(p),
                        event_kind(observation.event),
                        observation.now,
                        observation.time_decay,
                        old(self).settings_view().time_decay_factor,
                    );
                    &&& final(self).stats_view() == old(self).stats_view().insert(p, s)
                    &&& r matches Some(o) && o.peer_id@ == p && o.peer_status == judged_status(
                        old(self).policy_view(),
                        updated_stats(
                            s,
                            observation.now,
                            observation.time_decay,
                            old(self).settings_view().time_decay_factor,
                        ),
                    )
                },
            },
    {
        let MonitorObservation { event, now, time_decay } = observation;
        let peer = match event.peer_id() {
            Some(p) => p.duplicate(),
            None => return None,
        };
        let factor = self.settings.time_decay_factor;
        let mut stats = match self.peer_stats.get(&peer) {
            Some(s) => *s,
            None => PeerStats::new(),
        };
        match event {
            MonitorEvent::ExecutorDispersal(_) | MonitorEvent::ValidatorDispersal(_) => {
                let rate = stats.compute_dispersal_failure_rate(now, time_decay.dispersal, factor);
                stats.dispersal_failures_rate = fixed_add(rate, FIXED_ONE);
                stats.last_dispersal_failure = Some(now);
            },
            MonitorEvent::Replication(_) => {
                let rate = stats.compute_replication_failure_rate(now, time_decay.replication, factor);
                stats.replication_failures_rate = fixed_add(rate, FIXED_ONE);
                stats.last_replication_failure = Some(now);
            },
            MonitorEvent::Sampling(_) => {
                let rate = stats.compute_sampling_failure_rate(now, time_decay.sampling, factor);
                stats.sampling_failures_rate = fixed_add(rate, FIXED_ONE);
                stats.last_sampling_failure = Some(now);
            },
            MonitorEvent::Noop => {},
        }
        let peer_copy = peer.duplicate();
        self.peer_stats.insert(peer, stats);
        let status = self.evaluate_peer(now, &peer_copy, &time_decay);
        Some(ConnectionMonitorOutput { peer_id: peer_copy, peer_status: status })
    }
}

impl<Policy: PeerHealthPolicy> ConnectionMonitor for DAConnectionMonitor<Policy> {
    type Event = MonitorObservation;

    open spec fn accepts(&self, event: &MonitorObservation) -> bool {
        self.can_record(*event)
    }

    /// The statistics and the status move as
    /// [`DAConnectionMonitor::record_observation`] says.
    open spec fn records(&self, o: MonitorObservation, after: Self, output: Option<ConnectionMonitorOutput>) -> bool {
        &&& after.policy_view() == self.policy_view()
        &&& after.settings_view() == self.settings_view()
        &&& match event_peer(o.event) {
            None => output is None && after.stats_view() == self.stats_view(),
            Some(p) => {
                let s = recorded_stats(
                    self.stats_of(p),
                    event_kind(o.event),
                    o.now,
                    o.time_decay,
                    self.settings_view().time_decay_factor,
                );
                &&& after.stats_view() == self.stats_view().insert(p, s)
                &&& output matches Some(out) && out.peer_id@ == p && out.peer_status == judged_status(
                    self.policy_view(),
                    updated_stats(s, o.now, o.time_decay, self.settings_view().time_decay_factor),
                )
            },
        }
    }

    /// The statistics of `peer` are forgotten.
    open spec fn resets(&self, peer: Seq<u8>, after: Self) -> bool {
        &&& after.stats_view() == self.stats_view().remove(peer)
        &&& after.policy_view() == self.policy_view()
        &&& after.settings_view() == self.settings_view()
    }

    fn record_event(&mut self, event: MonitorObservation) -> (r: Option<ConnectionMonitorOutput>) {
        self.record_observation(event)
    }

    fn reset_peer(&mut self, peer_id: &PeerKey) {
        self.reset_peer_stats(peer_id)
    }
}

} // verus!
