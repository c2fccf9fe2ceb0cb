use vstd::prelude::*;
use std::collections::HashMap;
use crate::address_book::{Address, AddressBook};
use crate::assignations::MembershipHandler;
use crate::messages::SubnetworkId;
use crate::peer::{PeerKey, keys_view, key_set, distinct_keys, holds_key, lemma_key_set_push,
    lemma_distinct_push, lemma_key_set_empty, lemma_key_set_len};
use crate::peer_map::PeerMap;
use crate::policy::{ConnectionDeviation, SubnetworkConnectionPolicy, SubnetworkDeviation, SubnetworkStats};
use crate::random::choose_multiple_indices;

verus! {

broadcast use vstd::std_specs::hash::group_hash_axioms;

/// A connection that opened or closed, with its direction.
#[derive(Debug)]
pub enum ConnectionEvent {
    OpenInbound(PeerKey),
    OpenOutbound(PeerKey),
    CloseInbound(PeerKey),
    CloseOutbound(PeerKey),
}

/// The peer of a connection event.
pub open spec fn connection_peer(e: ConnectionEvent) -> Seq<u8> {
    match e {
        ConnectionEvent::OpenInbound(p) => p@,
        ConnectionEvent::OpenOutbound(p) => p@,
        ConnectionEvent::CloseInbound(p) => p@,
        ConnectionEvent::CloseOutbound(p) => p@,
    }
}

/// Whether a connection event opens a connection.
pub open spec fn opens(e: ConnectionEvent) -> bool {
    e is OpenInbound || e is OpenOutbound
}

/// A count moved by `delta`, never below zero.
pub open spec fn clamp_add(count: usize, delta: isize) -> usize {
    if count + delta > 0 {
        (count + delta) as usize
    } else {
        0
    }
}

/// The change a connection event makes to a subnetwork's counts.
pub open spec fn event_deltas(e: ConnectionEvent) -> (isize, isize) {
    match e {
        ConnectionEvent::OpenInbound(_) => (1, 0),
        ConnectionEvent::OpenOutbound(_) => (0, 1),
        ConnectionEvent::CloseInbound(_) => (-1isize, 0isize),
        ConnectionEvent::CloseOutbound(_) => (0isize, -1isize),
    }
}

/// Counts after a change.
pub open spec fn shifted(s: SubnetworkStats, inbound: isize, outbound: isize) -> SubnetworkStats {
    SubnetworkStats { inbound: clamp_add(s.inbound, inbound), outbound: clamp_add(s.outbound, outbound) }
}

/// Counts that the signed arithmetic of the balancer can hold.
pub open spec fn stats_bounded(s: SubnetworkStats) -> bool {
    s.inbound <= isize::MAX && s.outbound <= isize::MAX
}

/// How many connections a deviation asks for.
pub open spec fn missing_count(d: ConnectionDeviation) -> int {
    match d {
        ConnectionDeviation::Missing(k) => k as int,
        ConnectionDeviation::TooMany(_) => 0,
    }
}

/// `pick` holds `count` peers of `available`, or all of them when there
/// are fewer, each once.
pub open spec fn valid_pick(pick: Seq<Seq<u8>>, available: Set<Seq<u8>>, count: int) -> bool {
    &&& pick.no_duplicates()
    &&& forall|i: int| 0 <= i < pick.len() ==> available.contains(#[trigger] pick[i])
    &&& pick.len() == if count <= available.len() {
        count
    } else {
        available.len() as int
    }
}

/// The picks of each subnetwork, outbound then inbound, one after the other.
pub open spec fn flatten_picks(picks: Seq<(Seq<Seq<u8>>, Seq<Seq<u8>>)>) -> Seq<Seq<u8>>
    decreases picks.len(),
{
    if picks.len() == 0 {
        Seq::empty()
    } else {
        flatten_picks(picks.drop_last()) + picks.last().0 + picks.last().1
    }
}

/// Keeps the subnetworks supplied with connections: counts the live
/// connections of each subnetwork and, on each tick, picks members to dial
/// where the policy finds connections missing.
pub struct DAConnectionBalancer<Membership: MembershipHandler, Policy: SubnetworkConnectionPolicy> {
    membership: Membership,
    policy: Policy,
    subnetwork_stats: HashMap<SubnetworkId, SubnetworkStats>,
    connected_peers: PeerMap<()>,
}

impl<Membership: MembershipHandler, Policy: SubnetworkConnectionPolicy> DAConnectionBalancer<Membership, Policy> {
    #[verifier::type_invariant]
    closed spec fn inv(self) -> bool {
        &&& forall|s: SubnetworkId| #[trigger]
            self.subnetwork_stats@.contains_key(s) ==> stats_bounded(self.subnetwork_stats@[s])
        &&& forall|s: SubnetworkId| s < self.policy.subnetwork_number_view() ==> #[trigger]
            self.membership.has_network(s)
    }

    pub closed spec fn membership_view(&self) -> Membership {
        self.membership
    }

    pub closed spec fn policy_view(&self) -> Policy {
        self.policy
    }

    /// The live counts recorded for each subnetwork.
    pub closed spec fn stats_view(&self) -> Map<SubnetworkId, SubnetworkStats> {
        self.subnetwork_stats@
    }

    /// The peers with a live connection.
    pub closed spec fn connected_view(&self) -> Set<Seq<u8>> {
        self.connected_peers@.dom()
    }

    /// The counts of a subnetwork, zero when none were recorded.
    pub open spec fn stats_of(&self, s: SubnetworkId) -> SubnetworkStats {
        if self.stats_view().contains_key(s) {
            self.stats_view()[s]
        } else {
            SubnetworkStats { inbound: 0, outbound: 0 }
        }
    }

    /// Members of a subnetwork that have no live connection.
    pub open spec fn available(&self, s: SubnetworkId) -> Set<Seq<u8>> {
        self.membership_view().members_of_view(s).difference(self.connected_view())
    }

    /// What the policy says of a subnetwork given its counts.
    pub open spec fn deviation_at(&self, s: SubnetworkId) -> SubnetworkDeviation {
        self.policy_view().deviation_view(s, self.stats_of(s))
    }

    /// `picks` holds, for each subnetwork in turn, a pick for its missing
    /// outbound connections and one for its missing inbound connections.
    pub open spec fn valid_picks(&self, picks: Seq<(Seq<Seq<u8>>, Seq<Seq<u8>>)>) -> bool {
        &&& picks.len() == self.policy_view().subnetwork_number_view()
        &&& forall|i: int|
            0 <= i < picks.len() ==> {
                &&& valid_pick(
                    #[trigger] picks[i].0,
                    self.available(i as SubnetworkId),
                    missing_count(self.deviation_at(i as SubnetworkId).outbound),
                )
                &&& valid_pick(
                    picks[i].1,
                    self.available(i as SubnetworkId),
                    missing_count(self.deviation_at(i as SubnetworkId).inbound),
                )
            }
    }

    /// Recording `e` keeps the counts of the subnetworks of its peer within
    /// signed range.
    pub open spec fn can_record(&self, e: ConnectionEvent) -> bool {
        forall|s: SubnetworkId| #[trigger]
            self.membership_view().membership_view(connection_peer(e)).contains(s) ==> {
                let d = event_deltas(e);
                &&& self.stats_of(s).inbound + d.0 <= isize::MAX
                &&& self.stats_of(s).outbound + d.1 <= isize::MAX
            }
    }

    /// A balancer with no connection; the policy's subnetworks must be known
    /// to the membership.
    pub fn new(membership: Membership, policy: Policy) -> (b: Self)
        requires
            forall|s: SubnetworkId| s < policy.subnetwork_number_view() ==> #[trigger] membership.has_network(s),
        ensures
            b.membership_view() == membership,
            b.policy_view() == policy,
            b.stats_view() == Map::<SubnetworkId, SubnetworkStats>::empty(),
            b.connected_view() == Set::<Seq<u8>>::empty(),
    {
        let b = DAConnectionBalancer {
            membership,
            policy,
            subnetwork_stats: HashMap::new(),
            connected_peers: PeerMap::new(),
        };
        assert(b.connected_peers@.dom() =~= Set::<Seq<u8>>::empty());
        b
    }

    /// The counts of a subnetwork, zero when none were recorded.
    pub fn subnetwork_stats(&self, subnetwork_id: SubnetworkId) -> (r: SubnetworkStats)
        ensures
            r == self.stats_of(subnetwork_id),
    {
        match self.subnetwork_stats.get(&subnetwork_id) {
            Some(s) => *s,
            None => SubnetworkStats { inbound: 0, outbound: 0 },
        }
    }

    /// Moves the counts of a subnetwork, never below zero.
    fn update_subnetwork_stats(&mut self, subnetwork_id: SubnetworkId, inbound: isize, outbound: isize)
        requires
            old(self).stats_of(subnetwork_id).inbound + inbound <= isize::MAX,
            old(self).stats_of(subnetwork_id).outbound + outbound <= isize::MAX,
            inbound >= -1,
            outbound >= -1,
        ensures
            final(self).stats_view() == old(self).stats_view().insert(
                subnetwork_id,
                shifted(old(self).stats_of(subnetwork_id), inbound, outbound),
            ),
            final(self).membership_view() == old(self).membership_view(),
            final(self).policy_view() == old(self).policy_view(),
            final(self).connected_view() == old(self).connected_view(),
    {
        proof {
            use_type_invariant(&*self);
        }
        let current = self.subnetwork_stats(subnetwork_id);
        let new_inbound = current.inbound as isize + inbound;
        let new_outbound = current.outbound as isize + outbound;
        let updated = SubnetworkStats {
            inbound: if new_inbound > 0 {
                new_inbound as usize
            } else {
                0
            },
            outbound: if new_outbound > 0 {
                new_outbound as usize
            } else {
                0
            },
        };
        let mut stats: HashMap<SubnetworkId, SubnetworkStats> = HashMap::new();
        std::mem::swap(&mut stats, &mut self.subnetwork_stats);
        stats.insert(subnetwork_id, updated);
        self.subnetwork_stats = stats;
    }

    /// Records a connection event: the peer is marked connected or not, and
    /// the counts of each subnetwork it is a member of move by one in the
    /// event's direction, never below zero.
    pub fn record_event(&mut self, event: ConnectionEvent)
        requires
            old(self).can_record(event),
        ensures
            final(self).membership_view() == old(self).membership_view(),
            final(self).policy_view() == old(self).policy_view(),
            opens(event) ==> final(self).connected_view() == old(self).connected_view().insert(
                connection_peer(event),
            ),
            !opens(event) ==> final(self).connected_view() == old(self).connected_view().remove(
                connection_peer(event),
            ),
            forall|s: SubnetworkId| #[trigger]
                final(self).stats_of(s) == if old(self).membership_view().membership_view(
                    connection_peer(event),
                ).contains(s) {
                    shifted(old(self).stats_of(s), event_deltas(event).0, event_deltas(event).1)
                } else {
                    old(self).stats_of(s)
                },
    {
        proof {
            use_type_invariant(&*self);
        }
        let ghost start = *self;
        let (peer, inbound, outbound, open): (&PeerKey, isize, isize, bool) = match &event {
            ConnectionEvent::OpenInbound(p) => (p, 1, 0, true),
            ConnectionEvent::OpenOutbound(p) => (p, 0, 1, true),
            ConnectionEvent::CloseInbound(p) => (p, -1, 0, false),
            ConnectionEvent::CloseOutbound(p) => (p, 0, -1, false),
        };
        let mut connected: PeerMap<()> = PeerMap::new();
        std::mem::swap(&mut connected, &mut self.connected_peers);
        if open {
            connected.insert(peer.duplicate(), ());
        } else {
            connected.remove(peer);
        }
        self.connected_peers = connected;
        proof {
            assert(self.connected_peers@.dom() =~= if open {
                start.connected_peers@.dom().insert(peer@)
            } else {
                start.connected_peers@.dom().remove(peer@)
            });
        }
        let subnetworks = self.membership.membership(peer);
        let mut i: usize = 0;
        while i < subnetworks.len()
            invariant
                i <= subnetworks@.len(),
                subnetworks@.to_set() == start.membership_view().membership_view(peer@),
                subnetworks@.no_duplicates(),
                peer@ == connection_peer(event),
                (inbound, outbound) == event_deltas(event),
                start.can_record(event),
                self.membership_view() == start.membership_view(),
                self.policy_view() == start.policy_view(),
                self.connected_view() == (if open {
                    start.connected_view().insert(peer@)
                } else {
                    start.connected_view().remove(peer@)
                }),
                forall|s: SubnetworkId| #[trigger]
                    self.stats_of(s) == if subnetworks@.subrange(0, i as int).contains(s) {
                        shifted(start.stats_of(s), inbound, outbound)
                    } else {
                        start.stats_of(s)
                    },
            decreases subnetworks@.len() - i,
        {
            let s = subnetworks[i];
            proof {
                assert(subnetworks@.contains(s));
                assert(start.membership_view().membership_view(peer@).contains(s));
                assert(!subnetworks@.subrange(0, i as int).contains(s)) by {
                    if subnetworks@.subrange(0, i as int).contains(s) {
                        let j = choose|j: int| 0 <= j < i && subnetworks@.subrange(0, i as int)[j] == s;
                        assert(subnetworks@[j] == subnetworks@[i as int]);
                    }
                }
                assert(self.stats_of(s) == start.stats_of(s));
            }
            let ghost before = *self;
            self.update_subnetwork_stats(s, inbound, outbound);
            proof {
                assert forall|t: SubnetworkId| #[trigger]
                    self.stats_of(t) == if subnetworks@.subrange(0, i + 1).contains(t) {
                        shifted(start.stats_of(t), inbound, outbound)
                    } else {
                        start.stats_of(t)
                    } by {
                    assert(subnetworks@.subrange(0, i + 1) =~= subnetworks@.subrange(0, i as int).push(s));
                    let full = subnetworks@.subrange(0, i + 1);
                    assert(full[i as int] == s);
                    assert(full.contains(s));
                    if t != s {
                        assert(self.stats_of(t) == before.stats_of(t));
                        let pre1 = subnetworks@.subrange(0, i + 1);
                        let pre0 = subnetworks@.subrange(0, i as int);
                        assert(pre1.contains(t) == pre0.contains(t)) by {
                            if pre1.contains(t) {
                                let j = choose|j: int| 0 <= j < pre1.len() && #[trigger] pre1[j] == t;
                                assert(pre0[j] == t);
                            }
                            if pre0.contains(t) {
                                let j = choose|j: int| 0 <= j < pre0.len() && #[trigger] pre0[j] == t;
                                assert(pre1[j] == t);
                            }
                        }
                    } else {
                        assert(self.stats_of(s) == shifted(before.stats_of(s), inbound, outbound));
                    }
                }
            }
            i = i + 1;
        }
        proof {
            assert(subnetworks@.subrange(0, i as int) =~= subnetworks@);
            assert forall|s: SubnetworkId| #[trigger]
                self.stats_of(s) == if start.membership_view().membership_view(peer@).contains(s) {
                    shifted(start.stats_of(s), inbound, outbound)
                } else {
                    start.stats_of(s)
                } by {
                assert(subnetworks@.contains(s) == subnetworks@.to_set().contains(s));
            }
        }
    }

    /// Up to `missing_count` members of `subnetwork_id` without a live
    /// connection, drawn at random, each once; all of them when there are
    /// fewer.
    fn select_missing_peers(&self, subnetwork_id: SubnetworkId, missing_count: usize) -> (r: Vec<PeerKey>)
        requires
            subnetwork_id < self.policy_view().subnetwork_number_view(),
        ensures
            valid_pick(keys_view(r@), self.available(subnetwork_id), missing_count as int),
    {
        proof {
            use_type_invariant(self);
        }
        let candidates = self.membership.members_of(&subnetwork_id);
        let mut available: Vec<PeerKey> = Vec::new();
        let mut i: usize = 0;
        proof {
            lemma_key_set_empty();
            assert(key_set(candidates@.subrange(0, 0)) =~= Set::<Seq<u8>>::empty());
        }
        while i < candidates.len()
            invariant
                i <= candidates@.len(),
                distinct_keys(candidates@),
                distinct_keys(available@),
                key_set(available@) == key_set(candidates@.subrange(0, i as int)).difference(
                    self.connected_view(),
                ),
            decreases candidates@.len() - i,
        {
            let c = &candidates[i];
            let ghost prefix = candidates@.subrange(0, i as int);
            proof {
                assert(candidates@.subrange(0, i + 1) =~= prefix.push(*c));
                lemma_key_set_push(prefix, *c);
                if holds_key(prefix, c@) {
                    let j = choose|j: int| 0 <= j < prefix.len() && #[trigger] prefix[j]@ == c@;
                    assert(candidates@[j]@ != candidates@[i as int]@);
                }
            }
            if !self.connected_peers.contains(c) {
                let k = c.duplicate();
                proof {
                    lemma_key_set_push(available@, k);
                    assert(!key_set(available@).contains(k@));
                    lemma_distinct_push(available@, k);
                }
                available.push(k);
            }
            proof {
                assert(key_set(available@) =~= key_set(candidates@.subrange(0, i + 1)).difference(
                    self.connected_view(),
                ));
            }
            i = i + 1;
        }
        proof {
            assert(candidates@.subrange(0, i as int) =~= candidates@);
            lemma_key_set_len(available@);
            assert(key_set(available@) =~= self.available(subnetwork_id));
        }
        let amount = if missing_count <= available.len() {
            missing_count
        } else {
            available.len()
        };
        let picked = choose_multiple_indices(available.len(), amount);
        let mut out: Vec<PeerKey> = Vec::new();
        let mut j: usize = 0;
        while j < picked.len()
            invariant
                j <= picked@.len(),
                picked@.no_duplicates(),
                forall|a: int| 0 <= a < picked@.len() ==> picked@[a] < available@.len(),
                out@.len() == j,
                forall|a: int| 0 <= a < j ==> #[trigger] out@[a]@ == available@[picked@[a] as int]@,
            decreases picked@.len() - j,
        {
            out.push(available[picked[j]].duplicate());
            j = j + 1;
        }
        proof {
            let kv = keys_view(out@);
            assert forall|a: int, b: int| 0 <= a < kv.len() && 0 <= b < kv.len() && a != b implies kv[a]
                != kv[b] by {
                assert(kv[a] == out@[a]@);
                assert(kv[b] == out@[b]@);
                assert(picked@[a] != picked@[b]);
            }
            assert forall|a: int| 0 <= a < kv.len() implies self.available(subnetwork_id).contains(
                #[trigger] kv[a],
            ) by {
                assert(kv[a] == out@[a]@);
                assert(holds_key(available@, available@[picked@[a] as int]@));
            }
        }
        out
    }

    /// On a tick, the peers to dial: for each subnetwork in turn, members
    /// drawn for its missing outbound connections, then for its missing
    /// inbound ones. Nothing without a tick or when nothing is missing.
    pub fn poll(&self, tick: bool) -> (r: Option<Vec<PeerKey>>)
        ensures
            !tick ==> r is None,
            tick ==> exists|picks: Seq<(Seq<Seq<u8>>, Seq<Seq<u8>>)>|
                #![trigger self.valid_picks(picks)]
                self.valid_picks(picks) && if flatten_picks(picks).len() == 0 {
                    r is None
                } else {
                    r matches Some(v) && keys_view(v@) == flatten_picks(picks)
                },
    {
        if !tick {
            return None;
        }
        proof {
            use_type_invariant(self);
        }
        let n = self.policy.subnetwork_number();
        let mut peers_to_connect: Vec<PeerKey> = Vec::new();
        let ghost mut picks: Seq<(Seq<Seq<u8>>, Seq<Seq<u8>>)> = Seq::empty();
        let mut subnetwork_id: SubnetworkId = 0;
        while subnetwork_id < n
            invariant
                n == self.policy_view().subnetwork_number_view(),
                subnetwork_id <= n,
                picks.len() == subnetwork_id,
                forall|i: int|
                    0 <= i < picks.len() ==> {
                        &&& valid_pick(
                            #[trigger] picks[i].0,
                            self.available(i as SubnetworkId),
                            missing_count(self.deviation_at(i as SubnetworkId).outbound),
                        )
                        &&& valid_pick(
                            picks[i].1,
                            self.available(i as SubnetworkId),
                            missing_count(self.deviation_at(i as SubnetworkId).inbound),
                        )
                    },
                keys_view(peers_to_connect@) == flatten_picks(picks),
            decreases n - subnetwork_id,
        {
            let stats = self.subnetwork_stats(subnetwork_id);
            proof {
                use_type_invariant(self);
                if self.subnetwork_stats@.contains_key(subnetwork_id) {
                    assert(stats_bounded(self.subnetwork_stats@[subnetwork_id]));
                }
            }
            let deviation = self.policy.connection_number_deviation(subnetwork_id, &stats);
            let outbound = match deviation.outbound {
                ConnectionDeviation::Missing(k) => self.select_missing_peers(subnetwork_id, k),
                ConnectionDeviation::TooMany(_) => self.select_missing_peers(subnetwork_id, 0),
            };
            let inbound = match deviation.inbound {
                ConnectionDeviation::Missing(k) => self.select_missing_peers(subnetwork_id, k),
                ConnectionDeviation::TooMany(_) => self.select_missing_peers(subnetwork_id, 0),
            };
            let ghost before = peers_to_connect@;
            let ghost entry = (keys_view(outbound@), keys_view(inbound@));
            let mut outbound = outbound;
            let mut inbound = inbound;
            peers_to_connect.append(&mut outbound);
            peers_to_connect.append(&mut inbound);
            proof {
                let next = picks.push(entry);
                assert(next.drop_last() =~= picks);
                assert(keys_view(peers_to_connect@) =~= keys_view(before) + entry.0 + entry.1);
                assert(deviation == self.deviation_at(subnetwork_id));
                assert forall|i: int|
                    0 <= i < next.len() implies {
                        &&& valid_pick(
                            #[trigger] next[i].0,
                            self.available(i as SubnetworkId),
                            missing_count(self.deviation_at(i as SubnetworkId).outbound),
                        )
                        &&& valid_pick(
                            next[i].1,
                            self.available(i as SubnetworkId),
                            missing_count(self.deviation_at(i as SubnetworkId).inbound),
                        )
                    } by {
                    if i < picks.len() {
                        assert(next[i] == picks[i]);
                    } else {
                        assert(next[i] == entry);
                        assert(i as SubnetworkId == subnetwork_id);
                    }
                }
                picks = next;
            }
            subnetwork_id = subnetwork_id + 1;
        }
        proof {
            assert(self.valid_picks(picks));
        }
        if peers_to_connect.len() == 0 {
            None
        } else {
            Some(peers_to_connect)
        }
    }
}

/// The keys of the peers a poll asked to dial, if it asked for any.
pub open spec fn polled_keys(r: Option<Vec<PeerKey>>) -> Option<Seq<Seq<u8>>> {
    match r {
        Some(v) => Some(keys_view(v@)),
        None => None,
    }
}

/// Tracks connections and says which peers to dial.
pub trait ConnectionBalancer: Sized {
    /// Whether recording `event` is within the balancer's arithmetic limits.
    spec fn accepts(&self, event: ConnectionEvent) -> bool;

    /// `after` is this balancer once `event` was recorded.
    spec fn records(&self, event: ConnectionEvent, after: Self) -> bool;

    /// `after` is this balancer once polled on a tick `tick`, asking to dial
    /// the peers of `peers`, if any.
    spec fn polls(&self, tick: bool, after: Self, peers: Option<Seq<Seq<u8>>>) -> bool;

    /// Records that a connection opened or closed.
    fn record_event(&mut self, event: ConnectionEvent)
        requires
            old(self).accepts(event),
        ensures
            old(self).records(event, *final(self)),
    ;

    /// On a tick, the peers to dial, if there are any.
    fn poll(&mut self, tick: bool) -> (r: Option<Vec<PeerKey>>)
        ensures
            r matches Some(v) ==> v@.len() > 0,
            old(self).polls(tick, *final(self), polled_keys(r)),
    ;
}

impl<Membership: MembershipHandler, Policy: SubnetworkConnectionPolicy> ConnectionBalancer for DAConnectionBalancer<
    Membership,
    Policy,
> {
    open spec fn accepts(&self, event: ConnectionEvent) -> bool {
        self.can_record(event)
    }

    /// The counts and connected peers move as
    /// [`DAConnectionBalancer::record_event`] says.
    open spec fn records(&self, event: ConnectionEvent, after: Self) -> bool {
        &&& after.membership_view() == self.membership_view()
        &&& after.policy_view() == self.policy_view()
        &&& opens(event) ==> after.connected_view() == self.connected_view().insert(connection_peer(event))
        &&& !opens(event) ==> after.connected_view() == self.connected_view().remove(connection_peer(event))
        &&& forall|s: SubnetworkId| #[trigger]
            after.stats_of(s) == if self.membership_view().membership_view(connection_peer(event)).contains(s) {
                shifted(self.stats_of(s), event_deltas(event).0, event_deltas(event).1)
            } else {
                self.stats_of(s)
            }
    }

    /// Nothing changes; on a tick the peers are the valid picks of each
    /// subnetwork, one after the other (see [`DAConnectionBalancer::poll`]).
    open spec fn polls(&self, tick: bool, after: Self, peers: Option<Seq<Seq<u8>>>) -> bool {
        &&& after == *self
        &&& !tick ==> peers is None
        &&& tick ==> exists|picks: Seq<(Seq<Seq<u8>>, Seq<Seq<u8>>)>|
            #![trigger self.valid_picks(picks)]
            self.valid_picks(picks) && if flatten_picks(picks).len() == 0 {
                peers is None
            } else {
                peers == Some(flatten_picks(picks))
            }
    }

    fn record_event(&mut self, event: ConnectionEvent) {
        DAConnectionBalancer::record_event(self, event)
    }

    fn poll(&mut self, tick: bool) -> (r: Option<Vec<PeerKey>>) {
        let r = DAConnectionBalancer::poll(self, tick);
        proof {
            if tick {
                let picks = choose|picks: Seq<(Seq<Seq<u8>>, Seq<Seq<u8>>)>|
                    #![trigger self.valid_picks(picks)]
                    self.valid_picks(picks) && if flatten_picks(picks).len() == 0 {
                        r is None
                    } else {
                        r matches Some(v) && keys_view(v@) == flatten_picks(picks)
                    };
                if r is Some {
                    assert(keys_view(r->0@).len() == r->0@.len());
                }
                assert(self.valid_picks(picks) && if flatten_picks(picks).len() == 0 {
                    polled_keys(r) is None
                } else {
                    polled_keys(r) == Some(flatten_picks(picks))
                });
            }
        }
        r
    }
}

/// `r` is what is dialed when a poll asked for `peers`: nothing when it
/// asked for none; otherwise the first of them with a known address, with
/// that address, and nothing when none has one.
pub open spec fn dial_choice(
    addresses: Map<Seq<u8>, Seq<u8>>,
    peers: Option<Seq<Seq<u8>>>,
    r: Option<(PeerKey, Address)>,
) -> bool {
    match peers {
        None => r is None,
        Some(ps) => if r is Some {
            let p = (r->0).0;
            let a = (r->0).1;
            exists|i: int|
                #![trigger ps[i]]
                0 <= i < ps.len() && ps[i] == p@ && addresses.contains_key(p@) && a@ == addresses[p@] && forall|
                    j: int,
                | #![trigger ps[j]] 0 <= j < i ==> !addresses.contains_key(ps[j])
        } else {
            forall|j: int| 0 <= j < ps.len() ==> !addresses.contains_key(#[trigger] ps[j])
        },
    }
}

/// A dial of the `i`-th asked peer, the first with a known address, is
/// the dial chosen.
proof fn lemma_dial_choice_found(
    addresses: Map<Seq<u8>, Seq<u8>>,
    ps: Seq<Seq<u8>>,
    r: Option<(PeerKey, Address)>,
    i: int,
)
    requires
        r is Some,
        0 <= i < ps.len(),
        ps[i] == (r->0).0@,
        addresses.contains_key((r->0).0@),
        (r->0).1@ == addresses[(r->0).0@],
        forall|j: int| 0 <= j < i ==> !addresses.contains_key(#[trigger] ps[j]),
    ensures
        dial_choice(addresses, Some(ps), r),
{
    let p = (r->0).0;
    let a = (r->0).1;
    let goal = exists|k: int|
        #![trigger ps[k]]
        0 <= k < ps.len() && ps[k] == p@ && addresses.contains_key(p@) && a@ == addresses[p@] && forall|j: int|
            #![trigger ps[j]]
            0 <= j < k ==> !addresses.contains_key(ps[j]);
    assert(goal);
    let peers: Option<Seq<Seq<u8>>> = Some(ps);
    assert(peers is Some && peers->0 == ps);
    assert(dial_choice(addresses, peers, r) == goal);
}

/// The peer to dial among `peers`, tried in order: the first one with a
/// known address, with that address.
pub fn dial_target(addresses: &AddressBook, peers: Vec<PeerKey>) -> (r: Option<(PeerKey, Address)>)
    requires
        addresses.well_formed(),
    ensures
        match r {
            Some((p, a)) => exists|i: int|
                0 <= i < peers@.len() && #[trigger] peers@[i]@ == p@ && addresses@.contains_key(p@)
                    && a@ == addresses@[p@] && forall|j: int|
                    0 <= j < i ==> !addresses@.contains_key(#[trigger] peers@[j]@),
            None => forall|j: int| 0 <= j < peers@.len() ==> !addresses@.contains_key(#[trigger] peers@[j]@),
        },
{
    let mut i: usize = 0;
    while i < peers.len()
        invariant
            i <= peers@.len(),
            addresses.well_formed(),
            forall|j: int| 0 <= j < i ==> !addresses@.contains_key(#[trigger] peers@[j]@),
        decreases peers@.len() - i,
    {
        match addresses.get_address(&peers[i]) {
            Some(a) => {
                let addr = a.clone();
                assert(addr@ =~= a@);
                let p = peers[i].duplicate();
                assert(peers@[i as int]@ == p@);
                return Some((p, addr));
            },
            None => {},
        }
        i = i + 1;
    }
    None
}

/// Dials the peers its balancer asks for, at their known addresses, and
/// tells the balancer of connections opening and closing.
pub struct ConnectionBalancerBehaviour<Balancer> {
    addresses: AddressBook,
    balancer: Balancer,
}

impl<Balancer: ConnectionBalancer> ConnectionBalancerBehaviour<Balancer> {
    pub closed spec fn addresses_view(&self) -> Map<Seq<u8>, Seq<u8>> {
        self.addresses@
    }

    pub closed spec fn balancer_view(&self) -> Balancer {
        self.balancer
    }

    pub closed spec fn well_formed(&self) -> bool {
        self.addresses.well_formed()
    }

    pub fn new(addresses: AddressBook, balancer: Balancer) -> (b: Self)
        requires
            addresses.well_formed(),
        ensures
            b.well_formed(),
            b.addresses_view() == addresses@,
            b.balancer_view() == balancer,
    {
        ConnectionBalancerBehaviour { addresses, balancer }
    }

    /// Replaces the known addresses.
    pub fn update_addresses(&mut self, addresses: AddressBook)
        requires
            addresses.well_formed(),
        ensures
            final(self).well_formed(),
            final(self).addresses_view() == addresses@,
            final(self).balancer_view() == old(self).balancer_view(),
    {
        self.addresses = addresses;
    }

    /// Passes a connection event on to the balancer.
    pub fn record_event(&mut self, event: ConnectionEvent)
        requires
            old(self).balancer_view().accepts(event),
        ensures
            final(self).addresses_view() == old(self).addresses_view(),
            final(self).well_formed() == old(self).well_formed(),
            old(self).balancer_view().records(event, final(self).balancer_view()),
    {
        self.balancer.record_event(event);
    }

    /// On a tick, asks the balancer for peers and returns the first of them
    /// with a known address, with that address, to be dialed.
    pub fn poll(&mut self, tick: bool) -> (r: Option<(PeerKey, Address)>)
        requires
            old(self).well_formed(),
        ensures
            final(self).well_formed(),
            final(self).addresses_view() == old(self).addresses_view(),
            r matches Some((p, a)) ==> old(self).addresses_view().contains_key(p@) && a@ == old(
                self,
            ).addresses_view()[p@],
            exists|peers: Option<Seq<Seq<u8>>>|
                #![trigger old(self).balancer_view().polls(tick, final(self).balancer_view(), peers)]
                old(self).balancer_view().polls(tick, final(self).balancer_view(), peers) && dial_choice(
                    old(self).addresses_view(),
                    peers,
                    r,
                ),
    {
        let polled = self.balancer.poll(tick);
        let ghost peers = polled_keys(polled);
        let r = match polled {
            Some(v) => {
                let ghost vs = v@;
                let r = dial_target(&self.addresses, v);
                proof {
                    let ps = keys_view(vs);
                    assert(ps.len() == vs.len());
                    assert forall|j: int| 0 <= j < vs.len() implies #[trigger] ps[j] == vs[j]@ by {}
                    if r is Some {
                        let p = (r->0).0;
                        let a = (r->0).1;
                        let i = choose|i: int|
                            0 <= i < vs.len() && #[trigger] vs[i]@ == p@ && self.addresses@.contains_key(p@) && a@
                                == self.addresses@[p@] && forall|j: int|
                                0 <= j < i ==> !self.addresses@.contains_key(#[trigger] vs[j]@);
                        assert(ps[i] == p@);
                        assert forall|j: int| 0 <= j < i implies !self.addresses@.contains_key(#[trigger] ps[j]) by {
                            assert(ps[j] == vs[j]@);
                        }
                        lemma_dial_choice_found(self.addresses@, ps, r, i);
                    } else {
                        assert forall|j: int| 0 <= j < ps.len() implies !self.addresses@.contains_key(
                            #[trigger] ps[j],
                        ) by {
                            assert(ps[j] == vs[j]@);
                        }
                        let asked: Option<Seq<Seq<u8>>> = Some(ps);
                        assert(asked is Some && asked->0 == ps);
                        assert(dial_choice(self.addresses@, asked, r));
                    }
                    assert(peers == Some(ps));
                }
                r
            },
            None => None,
        };
        proof {
            assert(old(self).balancer_view().polls(tick, self.balancer_view(), peers));
            assert(dial_choice(old(self).addresses_view(), peers, r));
        }
        r
    }
}

} // verus!
