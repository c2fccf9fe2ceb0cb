use vstd::prelude::*;
use crate::assignations::MembershipHandler;
use crate::balancer::{shifted, stats_bounded};
use crate::connection_monitor::live_unhealthy;
use crate::health::{
    rate_after, PeerHealthPolicy, PeerStats, TimeDecay, MonitorEvent, event_kind, recorded_stats, judged_status,
};
use crate::connection_monitor::PeerStatus;
use crate::errors::{DispersalError, ReplicationError, SamplingError};
use crate::balancer::{ConnectionEvent, event_deltas};
use crate::dispersal::{other_members_of, stream_candidates};
use crate::policy::{DAConnectionPolicy, SubnetworkConnectionPolicy, SubnetworkDeviation};
use crate::peer::PeerKey;
use crate::dispersal::{blobs_of_subnetwork, drained, pending_blobs, tagged};
use crate::messages::{Blob, ReplicationRequest, SubnetworkId};
use crate::policy::{SubnetworkStats, policy_deviation, ConnectionDeviation};
use crate::replication::{
    ReplicationBehaviour, WriteHalfState, first_ready_from, ready, round_robin, scan_pos, scan_start,
    lemma_first_ready_in_range, has_queue, queue_index, distinct_queue_keys,
};

verus! {

/// A peer blocked for a cooldown ending at `until` stays refused exactly
/// up to that time: at `now` it is among the live unhealthy peers if and
/// only if `now` is not past `until`.
pub proof fn lemma_cooldown_expiry(unhealthy: Map<Seq<u8>, u64>, peer: Seq<u8>, until: u64, now: u64)
    ensures
        live_unhealthy(unhealthy.insert(peer, until), now).contains_key(peer) <==> now <= until,
{
}

/// Unblocking a peer undoes blocking it: a block list that did not hold the
/// peer is the same after blocking and then unblocking it.
pub proof fn lemma_unblock_undoes_block(blocked: Set<Seq<u8>>, peer: Seq<u8>)
    requires
        !blocked.contains(peer),
    ensures
        blocked.insert(peer).remove(peer) == blocked,
{
    assert(blocked.insert(peer).remove(peer) =~= blocked);
}

/// Failure rates only decay with time: when neither the time decay nor the
/// decay factor exceeds one (128 in raw bits), bringing a rate forward
/// never raises it.
pub proof fn lemma_rate_decays(rate: u64, last: Option<u64>, now: u64, time_decay: u64, factor: u64)
    requires
        time_decay <= 128,
        factor <= 128,
    ensures
        rate_after(rate, last, now, time_decay, factor) <= rate,
{
    let m = (time_decay as int) * (factor as int) / 128;
    assert(m <= 128) by (nonlinear_arith)
        requires
            time_decay <= 128,
            factor <= 128,
            m == (time_decay as int) * (factor as int) / 128,
    ;
    assert(m >= 0) by (nonlinear_arith)
        requires
            m == (time_decay as int) * (factor as int) / 128,
    ;
    assert((rate as int) * m / 128 <= rate) by (nonlinear_arith)
        requires
            0 <= m <= 128,
    ;
}

/// Failure rates fall as time passes: the time decay of a later moment is
/// no larger (the node computes `exp(-elapsed / window)`), and a rate
/// brought forward with a smaller time decay is no larger. Brought forward
/// to the moment of the last failure itself, a rate is unchanged.
pub proof fn lemma_rate_falls_with_time(
    rate: u64,
    last: Option<u64>,
    earlier: u64,
    later: u64,
    earlier_decay: u64,
    later_decay: u64,
    factor: u64,
)
    requires
        earlier <= later,
        later_decay <= earlier_decay,
        last matches Some(l) ==> l < earlier,
    ensures
        rate_after(rate, last, later, later_decay, factor) <= rate_after(rate, last, earlier, earlier_decay, factor),
        last matches Some(l) ==> rate_after(rate, last, l, later_decay, factor) == rate,
{
    if last is Some {
        let m1 = (earlier_decay as int) * (factor as int) / 128;
        let m2 = (later_decay as int) * (factor as int) / 128;
        assert((later_decay as int) * (factor as int) <= (earlier_decay as int) * (factor as int))
            by (nonlinear_arith)
            requires
                later_decay <= earlier_decay,
        ;
        assert(m2 <= m1) by (nonlinear_arith)
            requires
                (later_decay as int) * (factor as int) <= (earlier_decay as int) * (factor as int),
                m1 == (earlier_decay as int) * (factor as int) / 128,
                m2 == (later_decay as int) * (factor as int) / 128,
        ;
        assert(m2 >= 0) by (nonlinear_arith)
            requires
                m2 == (later_decay as int) * (factor as int) / 128,
        ;
        assert((rate as int) * m2 / 128 <= (rate as int) * m1 / 128) by (nonlinear_arith)
            requires
                0 <= m2 <= m1,
        ;
    }
}

/// Opening a connection and then closing it, in the same direction, leaves
/// a subnetwork's counts as they were.
pub proof fn lemma_open_close_restores(s: SubnetworkStats)
    requires
        stats_bounded(s),
    ensures
        shifted(shifted(s, 1isize, 0isize), -1isize, 0isize) == s,
        shifted(shifted(s, 0isize, 1isize), 0isize, -1isize) == s,
{
}

/// Counts never go below zero: closing a connection that was never counted
/// leaves a zero count at zero.
pub proof fn lemma_close_never_negative(s: SubnetworkStats)
    requires
        s.inbound == 0,
        s.outbound == 0,
    ensures
        shifted(s, -1isize, 0isize) == s,
        shifted(s, 0isize, -1isize) == s,
{
}

/// More live connections never make a subnetwork miss more: the missing
/// count falls as the live count rises.
pub proof fn lemma_missing_falls_with_connections(required: usize, a: SubnetworkStats, b: SubnetworkStats)
    requires
        a.inbound + a.outbound <= b.inbound + b.outbound,
    ensures
        policy_deviation(required, b).outbound matches ConnectionDeviation::Missing(mb) && policy_deviation(
            required,
            a,
        ).outbound matches ConnectionDeviation::Missing(ma) && mb <= ma,
{
}

/// Round-robin scheduling picks only a peer with a pending message and a
/// free stream, and finds one whenever some peer qualifies.
pub proof fn lemma_round_robin_picks_ready(
    e: Seq<(Seq<u8>, Seq<ReplicationRequest>)>,
    streams: Map<Seq<u8>, WriteHalfState>,
    previous: Option<Seq<u8>>,
)
    requires
        distinct_queue_keys(e),
        previous matches Some(p) ==> has_queue(e, p),
    ensures
        round_robin(e, streams, previous) matches Some(k) ==> exists|i: int|
            0 <= i < e.len() && e[i].0 == k && #[trigger] ready(e, streams, i),
        round_robin(e, streams, previous) is None <==> forall|i: int|
            0 <= i < e.len() ==> !#[trigger] ready(e, streams, i),
{
    let n = e.len() as int;
    let s = scan_start(e, previous);
    if previous is Some {
        let p = previous->0;
        assert(e[queue_index(e, p)].0 == p);
    }
    assert(0 <= s <= n);
    lemma_first_ready_in_range(e, streams, s, 0);
    lemma_scan_none(e, streams, s, 0);
}

/// Scanning from `t` finds nothing exactly when no position reached from
/// `t` on is ready; in particular from the start, exactly when no position
/// at all is ready.
proof fn lemma_scan_none(
    e: Seq<(Seq<u8>, Seq<ReplicationRequest>)>,
    streams: Map<Seq<u8>, WriteHalfState>,
    start: int,
    t: int,
)
    requires
        0 <= start <= e.len(),
        0 <= t <= e.len(),
    ensures
        first_ready_from(e, streams, start, t) is None <==> forall|u: int|
            t <= u < e.len() ==> !#[trigger] ready(e, streams, scan_pos(start, u, e.len() as int)),
        t == 0 ==> (first_ready_from(e, streams, start, 0) is None <==> forall|i: int|
            0 <= i < e.len() ==> !#[trigger] ready(e, streams, i)),
    decreases e.len() - t,
{
    let n = e.len() as int;
    if t < n {
        lemma_scan_none(e, streams, start, t + 1);
    }
    if t == 0 {
        if forall|u: int| 0 <= u < n ==> !#[trigger] ready(e, streams, scan_pos(start, u, n)) {
            assert forall|i: int| 0 <= i < n implies !#[trigger] ready(e, streams, i) by {
                let u = if i >= start {
                    i - start
                } else {
                    i - start + n
                };
                assert(scan_pos(start, u, n) == i);
                assert(!ready(e, streams, scan_pos(start, u, n)));
            }
        }
        if forall|i: int| 0 <= i < n ==> !#[trigger] ready(e, streams, i) {
            assert forall|u: int| 0 <= u < n implies !#[trigger] ready(e, streams, scan_pos(start, u, n)) by {
                let i = scan_pos(start, u, n);
                assert(0 <= i < n);
            }
        }
    }
}

/// Round robin is fair: the peer scheduled last is picked again only when
/// no other peer has a pending message and a free stream.
pub proof fn lemma_round_robin_previous_last(
    e: Seq<(Seq<u8>, Seq<ReplicationRequest>)>,
    streams: Map<Seq<u8>, WriteHalfState>,
    previous: Seq<u8>,
)
    requires
        distinct_queue_keys(e),
        has_queue(e, previous),
        round_robin(e, streams, Some(previous)) == Some(previous),
    ensures
        forall|i: int| 0 <= i < e.len() && e[i].0 != previous ==> !#[trigger] ready(e, streams, i),
{
    let n = e.len() as int;
    let pi = queue_index(e, previous);
    assert(e[pi].0 == previous);
    let s = pi + 1;
    lemma_first_ready_in_range(e, streams, s, 0);
    let k = first_ready_from(e, streams, s, 0)->0;
    assert(e[k].0 == previous);
    if k != pi {
        if k < pi {
            assert(e[k].0 != e[pi].0);
        } else {
            assert(e[pi].0 != e[k].0);
        }
    }
    lemma_scan_found(e, streams, s, 0, n - 1);
    assert forall|i: int| 0 <= i < n && e[i].0 != previous implies !#[trigger] ready(e, streams, i) by {
        let u = if i >= s {
            i - s
        } else {
            i - s + n
        };
        assert(scan_pos(s, u, n) == i);
        assert(i != pi);
        assert(u < n - 1);
    }
}

/// When the scan from `t` ends at the position visited at step `last`, no
/// position visited before that step is ready.
proof fn lemma_scan_found(
    e: Seq<(Seq<u8>, Seq<ReplicationRequest>)>,
    streams: Map<Seq<u8>, WriteHalfState>,
    start: int,
    t: int,
    last: int,
)
    requires
        1 <= start <= e.len(),
        0 <= t <= last < e.len(),
        first_ready_from(e, streams, start, t) == Some(scan_pos(start, last, e.len() as int)),
    ensures
        forall|u: int| t <= u < last ==> !#[trigger] ready(e, streams, scan_pos(start, u, e.len() as int)),
    decreases last - t,
{
    let n = e.len() as int;
    if t < last {
        if ready(e, streams, scan_pos(start, t, n)) {
            assert(scan_pos(start, t, n) != scan_pos(start, last, n));
        } else {
            lemma_scan_found(e, streams, start, t + 1, last);
        }
    }
}

/// No loopback: a share is never forwarded to the local peer.
pub proof fn lemma_no_loopback<Membership: MembershipHandler>(
    behaviour: ReplicationBehaviour<Membership>,
    subnetwork_id: SubnetworkId,
)
    ensures
        !behaviour.replication_targets(subnetwork_id).contains(behaviour.local_view()),
{
}

/// Each blob tagged with a subnetwork keeps its place.
proof fn lemma_tagged_index(blobs: Seq<Blob>, s: SubnetworkId, i: int)
    requires
        0 <= i < blobs.len(),
    ensures
        tagged(blobs, s).len() == blobs.len(),
        tagged(blobs, s)[i] == (s, blobs[i]),
    decreases blobs.len(),
{
    let rest = blobs.drop_last();
    if rest.len() > 0 {
        lemma_tagged_index(rest, s, if i < rest.len() { i } else { 0 });
    } else {
        assert(tagged(rest, s) == Seq::<(SubnetworkId, Blob)>::empty());
    }
    assert(tagged(blobs, s) == tagged(rest, s).push((s, blobs.last())));
    if i < rest.len() {
        assert(rest[i] == blobs[i]);
    }
}

/// No blob waiting for a subnetwork is lost when a stream to a member of it
/// opens: draining the pending blobs of subnetworks that include `s` brings
/// every blob pending for `s` into the peer's queue, tagged with `s`.
pub proof fn lemma_pending_blobs_reach_queue(
    pending: Map<SubnetworkId, Seq<Blob>>,
    order: Seq<SubnetworkId>,
    s: SubnetworkId,
    i: int,
)
    requires
        order.contains(s),
        0 <= i < pending_blobs(pending, s).len(),
    ensures
        drained(pending, order).contains((s, pending_blobs(pending, s)[i])),
    decreases order.len(),
{
    let last = order.last();
    let rest = order.drop_last();
    let head = drained(pending, rest);
    let tail = tagged(pending_blobs(pending, last), last);
    assert(drained(pending, order) == head + tail);
    if last == s {
        lemma_tagged_index(pending_blobs(pending, s), s, i);
        assert((head + tail)[head.len() + i] == tail[i]);
    } else {
        let k = choose|k: int| 0 <= k < order.len() && order[k] == s;
        assert(k < order.len() - 1);
        assert(rest[k] == s);
        lemma_pending_blobs_reach_queue(pending, rest, s, i);
        let j = choose|j: int| 0 <= j < head.len() && head[j] == (s, pending_blobs(pending, s)[i]);
        assert((head + tail)[j] == head[j]);
    }
}

/// No blob queued for a peer is lost when its connection closes: every
/// blob of the peer's queue goes back to the blobs pending for its
/// subnetwork.
pub proof fn lemma_queued_blobs_recovered(queue: Seq<(SubnetworkId, Blob)>, i: int)
    requires
        0 <= i < queue.len(),
    ensures
        blobs_of_subnetwork(queue, queue[i].0).contains(queue[i].1),
    decreases queue.len(),
{
    let s = queue[i].0;
    let rest = blobs_of_subnetwork(queue.drop_last(), s);
    if i == queue.len() - 1 {
        assert(blobs_of_subnetwork(queue, s) == rest.push(queue[i].1));
        assert(rest.push(queue[i].1)[rest.len() as int] == queue[i].1);
    } else {
        assert(queue.drop_last()[i] == queue[i]);
        lemma_queued_blobs_recovered(queue.drop_last(), i);
        let j = choose|j: int| 0 <= j < rest.len() && rest[j] == queue[i].1;
        if queue.last().0 == s {
            assert(blobs_of_subnetwork(queue, s) == rest.push(queue.last().1));
            assert(rest.push(queue.last().1)[j] == rest[j]);
        } else {
            assert(blobs_of_subnetwork(queue, s) == rest);
        }
    }
}

/// A peer's health is judged from its failure rates: it is malicious as
/// soon as any one of its three rates (dispersal, sampling, replication)
/// reaches the malicious threshold, and only then; otherwise it is
/// unhealthy as soon as any one rate reaches that protocol's maximum, and
/// only then; otherwise it is healthy. A rate reaches a count `t` when its
/// raw bits are at least `t * 128`.
pub proof fn lemma_health_follows_rates<Membership: MembershipHandler>(
    policy: DAConnectionPolicy<Membership>,
    stats: PeerStats,
)
    ensures
        ({
            let set = policy.settings_view();
            let t = set.malicious_threshold as int * 128;
            let d = stats.dispersal_failures_rate as int;
            let sa = stats.sampling_failures_rate as int;
            let r = stats.replication_failures_rate as int;
            let unhealthy = d >= set.max_dispersal_failures as int * 128 || sa >= set.max_sampling_failures as int
                * 128 || r >= set.max_replication_failures as int * 128;
            &&& d >= t ==> policy.malicious_view(stats)
            &&& sa >= t ==> policy.malicious_view(stats)
            &&& r >= t ==> policy.malicious_view(stats)
            &&& d < t && sa < t && r < t ==> !policy.malicious_view(stats)
            &&& policy.unhealthy_view(stats) == unhealthy
            &&& (d >= t || sa >= t || r >= t) ==> judged_status(policy, stats) == PeerStatus::Malicious
            &&& (d < t && sa < t && r < t && unhealthy) ==> judged_status(policy, stats) == PeerStatus::Unhealthy
            &&& (d < t && sa < t && r < t && !unhealthy) ==> judged_status(policy, stats) == PeerStatus::Healthy
        }),
{
}

/// Recording a failure raises the rate of the failing protocol, and only
/// that one: the rate brought forward to the failure's time goes up by one
/// (128 raw bits), so it is at least one afterwards, and the protocol's
/// last failure becomes that time. A dispersal error raises the dispersal
/// rate, a sampling error the sampling rate, a replication error the
/// replication rate.
pub proof fn lemma_failure_raises_its_rate(
    dispersal: DispersalError,
    sampling: SamplingError,
    replication: ReplicationError,
    s: PeerStats,
    now: u64,
    d: TimeDecay,
    factor: u64,
)
    requires
        rate_after(s.dispersal_failures_rate, s.last_dispersal_failure, now, d.dispersal, factor) + 128 <= u64::MAX,
        rate_after(s.sampling_failures_rate, s.last_sampling_failure, now, d.sampling, factor) + 128 <= u64::MAX,
        rate_after(s.replication_failures_rate, s.last_replication_failure, now, d.replication, factor) + 128
            <= u64::MAX,
    ensures
        ({
            let after = recorded_stats(s, event_kind(MonitorEvent::Replication(replication)), now, d, factor);
            &&& after.replication_failures_rate as int == rate_after(
                s.replication_failures_rate,
                s.last_replication_failure,
                now,
                d.replication,
                factor,
            ) + 128
            &&& after.replication_failures_rate >= 128
            &&& after.last_replication_failure == Some(now)
            &&& after.dispersal_failures_rate == s.dispersal_failures_rate
            &&& after.sampling_failures_rate == s.sampling_failures_rate
            &&& after.last_dispersal_failure == s.last_dispersal_failure
            &&& after.last_sampling_failure == s.last_sampling_failure
        }),
        ({
            let after = recorded_stats(s, event_kind(MonitorEvent::Sampling(sampling)), now, d, factor);
            &&& after.sampling_failures_rate as int == rate_after(
                s.sampling_failures_rate,
                s.last_sampling_failure,
                now,
                d.sampling,
                factor,
            ) + 128
            &&& after.sampling_failures_rate >= 128
            &&& after.last_sampling_failure == Some(now)
            &&& after.dispersal_failures_rate == s.dispersal_failures_rate
            &&& after.replication_failures_rate == s.replication_failures_rate
            &&& after.last_dispersal_failure == s.last_dispersal_failure
            &&& after.last_replication_failure == s.last_replication_failure
        }),
        ({
            let a1 = recorded_stats(s, event_kind(MonitorEvent::ExecutorDispersal(dispersal)), now, d, factor);
            let a2 = recorded_stats(s, event_kind(MonitorEvent::ValidatorDispersal(dispersal)), now, d, factor);
            &&& a1 == a2
            &&& a1.dispersal_failures_rate as int == rate_after(
                s.dispersal_failures_rate,
                s.last_dispersal_failure,
                now,
                d.dispersal,
                factor,
            ) + 128
            &&& a1.dispersal_failures_rate >= 128
            &&& a1.last_dispersal_failure == Some(now)
            &&& a1.sampling_failures_rate == s.sampling_failures_rate
            &&& a1.replication_failures_rate == s.replication_failures_rate
            &&& a1.last_sampling_failure == s.last_sampling_failure
            &&& a1.last_replication_failure == s.last_replication_failure
        }),
        recorded_stats(s, event_kind(MonitorEvent::Noop), now, d, factor) == s,
{
    lemma_rate_nonnegative(s.replication_failures_rate, s.last_replication_failure, now, d.replication, factor);
    lemma_rate_nonnegative(s.sampling_failures_rate, s.last_sampling_failure, now, d.sampling, factor);
    lemma_rate_nonnegative(s.dispersal_failures_rate, s.last_dispersal_failure, now, d.dispersal, factor);
}

/// A rate brought forward is never negative.
proof fn lemma_rate_nonnegative(rate: u64, last: Option<u64>, now: u64, time_decay: u64, factor: u64)
    ensures
        rate_after(rate, last, now, time_decay, factor) >= 0,
{
    let m = (time_decay as int) * (factor as int) / 128;
    assert(m >= 0) by (nonlinear_arith)
        requires
            m == (time_decay as int) * (factor as int) / 128,
    ;
    assert((rate as int) * m / 128 >= 0) by (nonlinear_arith)
        requires
            m >= 0,
    ;
}

/// Each connection event moves a subnetwork's counts by one in its own
/// direction: an inbound opening raises the inbound count, an inbound
/// closing lowers it (never below zero), and likewise outbound; the other
/// count stays. Opening and then closing a connection in the same
/// direction restores the counts.
pub proof fn lemma_connection_events_move_counts(p: PeerKey, st: SubnetworkStats)
    requires
        stats_bounded(st),
    ensures
        ({
            let d = event_deltas(ConnectionEvent::OpenInbound(p));
            shifted(st, d.0, d.1) == SubnetworkStats { inbound: (st.inbound + 1) as usize, outbound: st.outbound }
        }),
        ({
            let d = event_deltas(ConnectionEvent::OpenOutbound(p));
            shifted(st, d.0, d.1) == SubnetworkStats { inbound: st.inbound, outbound: (st.outbound + 1) as usize }
        }),
        ({
            let d = event_deltas(ConnectionEvent::CloseInbound(p));
            shifted(st, d.0, d.1) == SubnetworkStats {
                inbound: if st.inbound > 0 {
                    (st.inbound - 1) as usize
                } else {
                    0
                },
                outbound: st.outbound,
            }
        }),
        ({
            let d = event_deltas(ConnectionEvent::CloseOutbound(p));
            shifted(st, d.0, d.1) == SubnetworkStats {
                inbound: st.inbound,
                outbound: if st.outbound > 0 {
                    (st.outbound - 1) as usize
                } else {
                    0
                },
            }
        }),
        ({
            let o = event_deltas(ConnectionEvent::OpenInbound(p));
            let c = event_deltas(ConnectionEvent::CloseInbound(p));
            shifted(shifted(st, o.0, o.1), c.0, c.1) == st
        }),
        ({
            let o = event_deltas(ConnectionEvent::OpenOutbound(p));
            let c = event_deltas(ConnectionEvent::CloseOutbound(p));
            shifted(shifted(st, o.0, o.1), c.0, c.1) == st
        }),
{
}

/// The peers proposed to replace one that dropped out are members of the
/// subnetworks it left, and never the local peer nor the peer itself.
pub proof fn lemma_candidates_exclude_local_and_peer<Membership: MembershipHandler>(
    m: Membership,
    local: Seq<u8>,
    peer_id: Seq<u8>,
    subnetworks: Seq<SubnetworkId>,
)
    ensures
        !stream_candidates(m, local, peer_id, subnetworks).contains(local),
        !stream_candidates(m, local, peer_id, subnetworks).contains(peer_id),
        forall|x: Seq<u8>| #[trigger]
            stream_candidates(m, local, peer_id, subnetworks).contains(x) ==> exists|i: int|
                0 <= i < subnetworks.len() && #[trigger] m.members_of_view(subnetworks[i]).contains(x),
        forall|s: SubnetworkId, x: Seq<u8>| #[trigger]
            other_members_of(m, local, s, peer_id).contains(x) <==> (m.members_of_view(s).contains(x) && x
                != local && x != peer_id),
{
    let c = stream_candidates(m, local, peer_id, subnetworks);
    if subnetworks.len() > 0 {
        if c.contains(local) {
            assert(other_members_of(m, local, subnetworks[0], peer_id).contains(local) || exists|i: int|
                0 <= i < subnetworks.len() && #[trigger] other_members_of(m, local, subnetworks[i], peer_id).contains(
                    local,
                ));
        }
        if c.contains(peer_id) {
            assert(other_members_of(m, local, subnetworks[0], peer_id).contains(peer_id) || exists|i: int|
                0 <= i < subnetworks.len() && #[trigger] other_members_of(m, local, subnetworks[i], peer_id).contains(
                    peer_id,
                ));
        }
        assert forall|x: Seq<u8>| #[trigger] c.contains(x) implies exists|i: int|
            0 <= i < subnetworks.len() && #[trigger] m.members_of_view(subnetworks[i]).contains(x) by {
            if other_members_of(m, local, subnetworks[0], peer_id).contains(x) {
                assert(m.members_of_view(subnetworks[0]).contains(x));
            } else {
                let i = choose|i: int|
                    0 <= i < subnetworks.len() && #[trigger] other_members_of(m, local, subnetworks[i], peer_id).contains(x);
                assert(m.members_of_view(subnetworks[i]).contains(x));
            }
        }
    }
}

/// How many connections the policy asks of a subnetwork: when the local
/// peer is a member of it, enough for dispersal and for replication alike
/// (the larger of the two minimums); otherwise enough for dispersal. The
/// live connections count against that; all that is missing is asked as
/// outbound, none as inbound.
pub proof fn lemma_required_connections<Membership: MembershipHandler>(
    policy: DAConnectionPolicy<Membership>,
    s: SubnetworkId,
    stats: SubnetworkStats,
)
    ensures
        ({
            let set = policy.settings_view();
            let member = policy.membership_view().membership_view(policy.local_peer_view()).contains(s);
            let need: int = if member {
                if set.min_dispersal_peers >= set.min_replication_peers {
                    set.min_dispersal_peers as int
                } else {
                    set.min_replication_peers as int
                }
            } else {
                set.min_dispersal_peers as int
            };
            let total = stats.inbound as int + stats.outbound as int;
            let dev = policy.deviation_view(s, stats);
            &&& dev.inbound == ConnectionDeviation::Missing(0)
            &&& dev.outbound matches ConnectionDeviation::Missing(n) && n as int == if need >= total {
                need - total
            } else {
                0
            }
            &&& member && total == 0 ==> (dev.outbound matches ConnectionDeviation::Missing(n) && n
                >= set.min_dispersal_peers && n >= set.min_replication_peers)
            &&& !member && total == 0 ==> dev.outbound == ConnectionDeviation::Missing(set.min_dispersal_peers)
        }),
{
}

/// Failure rates really decay: once time has passed since the last
/// failure and the combined decay (time decay times decay factor) is below
/// one, a positive rate brought forward is strictly lower, and it is the
/// rate scaled by that combined decay (each product rounded down to 7
/// fractional bits). With no time passed, or no failure yet, the rate
/// stays as it is.
pub proof fn lemma_rate_decays_strictly(rate: u64, last: u64, now: u64, time_decay: u64, factor: u64)
    requires
        last < now,
    ensures
        rate_after(rate, Some(last), now, time_decay, factor) == (rate as int) * ((time_decay as int) * (
            factor as int) / 128) / 128,
        rate > 0 && (time_decay as int) * (factor as int) < 128 * 128 ==> rate_after(
            rate,
            Some(last),
            now,
            time_decay,
            factor,
        ) < rate,
        rate_after(rate, Some(now), now, time_decay, factor) == rate,
        rate_after(rate, None, now, time_decay, factor) == rate,
{
    let m = (time_decay as int) * (factor as int) / 128;
    if rate > 0 && (time_decay as int) * (factor as int) < 128 * 128 {
        assert(0 <= m < 128) by (nonlinear_arith)
            requires
                m == (time_decay as int) * (factor as int) / 128,
                (time_decay as int) * (factor as int) < 128 * 128,
        ;
        assert((rate as int) * m / 128 < rate) by (nonlinear_arith)
            requires
                0 <= m < 128,
                rate > 0,
        ;
    }
}

} // verus!
