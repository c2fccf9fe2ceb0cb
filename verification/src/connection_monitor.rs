use vstd::prelude::*;
use std::collections::VecDeque;
use crate::peer::{PeerKey, keys_view};
use crate::peer_map::PeerMap;

verus! {

/// Health status of a peer.
#[derive(Debug, PartialEq, Eq, Structural, Clone, Copy)]
pub enum PeerStatus {
    Malicious,
    Unhealthy,
    Healthy,
}

/// The status a monitor gives a peer on recording an event.
#[derive(Debug)]
pub struct ConnectionMonitorOutput {
    pub peer_id: PeerKey,
    pub peer_status: PeerStatus,
}

/// Keeps statistics on peers and judges their health.
pub trait ConnectionMonitor: Sized {
    type Event;

    /// Whether recording `event` is within the monitor's arithmetic limits.
    spec fn accepts(&self, event: &Self::Event) -> bool;

    /// `after` is this monitor once `event` was recorded, and `output` the
    /// status it gives of the peer the event concerns, if any.
    spec fn records(&self, event: Self::Event, after: Self, output: Option<ConnectionMonitorOutput>) -> bool;

    /// `after` is this monitor once it forgot what it recorded of `peer`.
    spec fn resets(&self, peer: Seq<u8>, after: Self) -> bool;

    /// Records an event and returns the status of the peer it concerns, if
    /// any.
    fn record_event(&mut self, event: Self::Event) -> (r: Option<ConnectionMonitorOutput>)
        requires
            old(self).accepts(&event),
        ensures
            old(self).records(event, *final(self), r),
    ;

    /// Forgets everything recorded about a peer.
    fn reset_peer(&mut self, peer_id: &PeerKey)
        ensures
            old(self).resets(peer_id@, *final(self)),
    ;
}

/// A connection to this peer was refused because it is in the block list.
#[derive(Debug)]
pub struct Blocked {
    pub peer: PeerKey,
}

/// A connection to this peer was refused because it is unhealthy and its
/// cooldown has not passed.
#[derive(Debug)]
pub struct TemporarilyBlocked {
    pub peer: PeerKey,
}

/// Why a connection was refused.
#[derive(Debug)]
pub enum ConnectionDenied {
    Blocked(Blocked),
    TemporarilyBlocked(TemporarilyBlocked),
}

/// Requests that the node sends to the behaviour.
#[derive(Debug)]
pub enum PeerCommand {
    /// Block a peer; answered with whether it was newly blocked.
    Block(PeerKey),
    /// Unblock connections to a peer; answered with whether it was blocked
    /// or cooling down.
    Unblock(PeerKey),
    /// List the blocked peers.
    BlacklistedPeers,
}

/// Answer to a [`PeerCommand`].
#[derive(Debug)]
pub enum PeerCommandReply {
    Done(bool),
    Peers(Vec<PeerKey>),
}

/// The unhealthy peers whose cooldown has not ended at `now`.
pub open spec fn live_unhealthy(unhealthy: Map<Seq<u8>, u64>, now: u64) -> Map<Seq<u8>, u64> {
    unhealthy.restrict(Set::new(|p: Seq<u8>| unhealthy.contains_key(p) && now <= unhealthy[p]))
}

/// Blocks connections to malicious peers for good and to unhealthy peers
/// until their cooldown ends, and asks the swarm to close the connections to
/// peers it blocks. Times are in nanoseconds on the node's clock.
pub struct ConnectionMonitorBehaviour<Monitor> {
    monitor: Monitor,
    malicious_peers: PeerMap<()>,
    unhealthy_peers: PeerMap<u64>,
    close_connections: VecDeque<PeerKey>,
    redial_cooldown: u64,
}

impl<Monitor: ConnectionMonitor> ConnectionMonitorBehaviour<Monitor> {
    /// The blocked (malicious) peers.
    pub closed spec fn blocked_view(&self) -> Set<Seq<u8>> {
        self.malicious_peers@.dom()
    }

    /// The temporarily blocked peers, with the time their cooldown ends.
    pub closed spec fn unhealthy_view(&self) -> Map<Seq<u8>, u64> {
        self.unhealthy_peers@
    }

    /// Peers whose connections are still to be closed, oldest first.
    pub closed spec fn close_queue(&self) -> Seq<Seq<u8>> {
        keys_view(self.close_connections@)
    }

    pub closed spec fn cooldown_view(&self) -> u64 {
        self.redial_cooldown
    }

    pub closed spec fn monitor_view(&self) -> Monitor {
        self.monitor
    }

    pub fn new(monitor: Monitor, redial_cooldown: u64) -> (b: Self)
        ensures
            b.blocked_view() == Set::<Seq<u8>>::empty(),
            b.unhealthy_view() == Map::<Seq<u8>, u64>::empty(),
            b.close_queue() == Seq::<Seq<u8>>::empty(),
            b.cooldown_view() == redial_cooldown,
            b.monitor_view() == monitor,
    {
        let b = ConnectionMonitorBehaviour {
            monitor,
            malicious_peers: PeerMap::new(),
            unhealthy_peers: PeerMap::new(),
            close_connections: VecDeque::new(),
            redial_cooldown,
        };
        assert(b.blocked_view() =~= Set::<Seq<u8>>::empty());
        assert(b.close_queue() =~= Seq::<Seq<u8>>::empty());
        b
    }

    /// Blocks connections to a peer and queues the closing of its
    /// connections. Returns whether the peer was newly blocked; does nothing
    /// if it already was.
    pub fn block_peer(&mut self, peer: PeerKey) -> (inserted: bool)
        ensures
            inserted == !old(self).blocked_view().contains(peer@),
            final(self).blocked_view() == old(self).blocked_view().insert(peer@),
            final(self).close_queue() == if inserted {
                old(self).close_queue().push(peer@)
            } else {
                old(self).close_queue()
            },
            final(self).unhealthy_view() == old(self).unhealthy_view(),
            final(self).cooldown_view() == old(self).cooldown_view(),
            final(self).monitor_view() == old(self).monitor_view(),
    {
        let inserted = !self.malicious_peers.contains(&peer);
        if inserted {
            let copy = peer.duplicate();
            self.malicious_peers.insert(peer, ());
            let ghost q = self.close_connections@;
            self.close_connections.push_back(copy);
            assert(keys_view(self.close_connections@) =~= keys_view(q).push(copy@));
        } else {
            assert(self.malicious_peers@.dom() =~= self.malicious_peers@.dom().insert(peer@));
        }
        inserted
    }

    /// Blocks a peer until `now` plus the redial cooldown and queues the
    /// closing of its connections. That time must fit the clock.
    pub fn temporarily_block_peer(&mut self, peer: PeerKey, now: u64)
        requires
            now as int + old(self).cooldown_view() as int <= u64::MAX,
        ensures
            final(self).unhealthy_view() == old(self).unhealthy_view().insert(
                peer@,
                (now + old(self).cooldown_view()) as u64,
            ),
            final(self).close_queue() == old(self).close_queue().push(peer@),
            final(self).blocked_view() == old(self).blocked_view(),
            final(self).cooldown_view() == old(self).cooldown_view(),
            final(self).monitor_view() == old(self).monitor_view(),
    {
        let until = now + self.redial_cooldown;
        let copy = peer.duplicate();
        self.unhealthy_peers.insert(peer, until);
        let ghost q = self.close_connections@;
        self.close_connections.push_back(copy);
        assert(keys_view(self.close_connections@) =~= keys_view(q).push(copy@));
    }

    /// Unblocks connections to a peer: it leaves both the block list and the
    /// cooldown list. Returns whether it was in either; otherwise nothing
    /// changes.
    pub fn unblock_peer(&mut self, peer: PeerKey) -> (removed: bool)
        ensures
            removed == (old(self).blocked_view().contains(peer@) || old(self).unhealthy_view().contains_key(
                peer@,
            )),
            final(self).blocked_view() == old(self).blocked_view().remove(peer@),
            final(self).unhealthy_view() == old(self).unhealthy_view().remove(peer@),
            final(self).close_queue() == old(self).close_queue(),
            final(self).cooldown_view() == old(self).cooldown_view(),
            final(self).monitor_view() == old(self).monitor_view(),
    {
        let was_blocked = self.malicious_peers.remove(&peer).is_some();
        let was_cooling_down = self.unhealthy_peers.remove(&peer).is_some();
        assert(self.malicious_peers@.dom() =~= old(self).malicious_peers@.dom().remove(peer@));
        was_blocked || was_cooling_down
    }

    /// `self` is `before` once the monitor's `output` was acted on at `now`
    /// (see [`Self::apply_output`]).
    pub open spec fn acted_on(&self, before: &Self, output: Option<ConnectionMonitorOutput>, now: u64) -> bool {
        &&& match output {
            Some(o) => match o.peer_status {
                PeerStatus::Malicious => {
                    &&& self.blocked_view() == before.blocked_view().insert(o.peer_id@)
                    &&& self.close_queue() == if before.blocked_view().contains(o.peer_id@) {
                        before.close_queue()
                    } else {
                        before.close_queue().push(o.peer_id@)
                    }
                    &&& self.unhealthy_view() == before.unhealthy_view()
                },
                PeerStatus::Unhealthy => {
                    &&& self.unhealthy_view() == before.unhealthy_view().insert(
                        o.peer_id@,
                        (now + before.cooldown_view()) as u64,
                    )
                    &&& self.close_queue() == before.close_queue().push(o.peer_id@)
                    &&& self.blocked_view() == before.blocked_view()
                },
                PeerStatus::Healthy => {
                    &&& self.blocked_view() == before.blocked_view()
                    &&& self.unhealthy_view() == before.unhealthy_view()
                    &&& self.close_queue() == before.close_queue()
                },
            },
            None => {
                &&& self.blocked_view() == before.blocked_view()
                &&& self.unhealthy_view() == before.unhealthy_view()
                &&& self.close_queue() == before.close_queue()
            },
        }
        &&& self.cooldown_view() == before.cooldown_view()
    }

    /// Applies a decision of the monitor: blocks a malicious peer, temporarily blocks an
    /// unhealthy one, and leaves a healthy one alone.
    pub fn apply_output(&mut self, output: Option<ConnectionMonitorOutput>, now: u64)
        requires
            now as int + old(self).cooldown_view() as int <= u64::MAX,
        ensures
            match output {
                Some(o) => match o.peer_status {
                    PeerStatus::Malicious => {
                        &&& final(self).blocked_view() == old(self).blocked_view().insert(o.peer_id@)
                        &&& final(self).close_queue() == if old(self).blocked_view().contains(
                            o.peer_id@,
                        ) {
                            old(self).close_queue()
                        } else {
                            old(self).close_queue().push(o.peer_id@)
                        }
                        &&& final(self).unhealthy_view() == old(self).unhealthy_view()
                    },
                    PeerStatus::Unhealthy => {
                        &&& final(self).unhealthy_view() == old(self).unhealthy_view().insert(
                            o.peer_id@,
                            (now + old(self).cooldown_view()) as u64,
                        )
                        &&& final(self).close_queue() == old(self).close_queue().push(o.peer_id@)
                        &&& final(self).blocked_view() == old(self).blocked_view()
                    },
                    PeerStatus::Healthy => {
                        &&& final(self).blocked_view() == old(self).blocked_view()
                        &&& final(self).unhealthy_view() == old(self).unhealthy_view()
                        &&& final(self).close_queue() == old(self).close_queue()
                    },
                },
                None => {
                    &&& final(self).blocked_view() == old(self).blocked_view()
                    &&& final(self).unhealthy_view() == old(self).unhealthy_view()
                    &&& final(self).close_queue() == old(self).close_queue()
                },
            },
            final(self).cooldown_view() == old(self).cooldown_view(),
            final(self).monitor_view() == old(self).monitor_view(),
    {
        if let Some(output) = output {
            match output.peer_status {
                PeerStatus::Malicious => {
                    self.block_peer(output.peer_id);
                },
                PeerStatus::Unhealthy => {
                    self.temporarily_block_peer(output.peer_id, now);
                },
                PeerStatus::Healthy => {},
            }
        }
    }

    /// Records an event with the monitor and acts on the status it gives (see
    /// [`Self::apply_output`]); returns that status.
    pub fn record_event(&mut self, event: Monitor::Event, now: u64) -> (r: Option<
        ConnectionMonitorOutput,
    >)
        requires
            old(self).monitor_view().accepts(&event),
            now as int + old(self).cooldown_view() as int <= u64::MAX,
        ensures
            match r {
                Some(o) => match o.peer_status {
                    PeerStatus::Malicious => {
                        &&& final(self).blocked_view() == old(self).blocked_view().insert(o.peer_id@)
                        &&& final(self).close_queue() == if old(self).blocked_view().contains(
                            o.peer_id@,
                        ) {
                            old(self).close_queue()
                        } else {
                            old(self).close_queue().push(o.peer_id@)
                        }
                        &&& final(self).unhealthy_view() == old(self).unhealthy_view()
                    },
                    PeerStatus::Unhealthy => {
                        &&& final(self).unhealthy_view() == old(self).unhealthy_view().insert(
                            o.peer_id@,
                            (now + old(self).cooldown_view()) as u64,
                        )
                        &&& final(self).close_queue() == old(self).close_queue().push(o.peer_id@)
                        &&& final(self).blocked_view() == old(self).blocked_view()
                    },
                    PeerStatus::Healthy => {
                        &&& final(self).blocked_view() == old(self).blocked_view()
                        &&& final(self).unhealthy_view() == old(self).unhealthy_view()
                        &&& final(self).close_queue() == old(self).close_queue()
                    },
                },
                None => {
                    &&& final(self).blocked_view() == old(self).blocked_view()
                    &&& final(self).unhealthy_view() == old(self).unhealthy_view()
                    &&& final(self).close_queue() == old(self).close_queue()
                },
            },
            final(self).cooldown_view() == old(self).cooldown_view(),
            old(self).monitor_view().records(event, final(self).monitor_view(), r),
    {
        let output = self.monitor.record_event(event);
        let copy = match &output {
            Some(o) => Some(ConnectionMonitorOutput { peer_id: o.peer_id.duplicate(), peer_status: o.peer_status }),
            None => None,
        };
        self.apply_output(copy, now);
        output
    }

    /// Drops the unhealthy peers whose cooldown ended before `now`.
    fn expire_unhealthy(&mut self, now: u64)
        ensures
            final(self).unhealthy_view() == live_unhealthy(old(self).unhealthy_view(), now),
            final(self).blocked_view() == old(self).blocked_view(),
            final(self).close_queue() == old(self).close_queue(),
            final(self).cooldown_view() == old(self).cooldown_view(),
            final(self).monitor_view() == old(self).monitor_view(),
    {
        let keys = self.unhealthy_peers.keys();
        let ghost orig = self.unhealthy_peers@;
        let ghost ko = self.unhealthy_peers.key_order();
        let mut i: usize = 0;
        while i < keys.len()
            invariant
                i <= keys@.len(),
                keys@.map_values(|k: PeerKey| k@) == ko,
                ko.to_set() == orig.dom(),
                ko.no_duplicates(),
                self.blocked_view() == old(self).blocked_view(),
                self.close_queue() == old(self).close_queue(),
                self.cooldown_view() == old(self).cooldown_view(),
                self.monitor_view() == old(self).monitor_view(),
                orig == old(self).unhealthy_view(),
                forall|p: Seq<u8>|
                    #[trigger] self.unhealthy_peers@.contains_key(p) <==> orig.contains_key(p) && (
                    ko.subrange(0, i as int).contains(p) ==> now <= orig[p]),
                forall|p: Seq<u8>|
                    #[trigger] self.unhealthy_peers@.contains_key(p) ==> self.unhealthy_peers@[p]
                        == orig[p],
            decreases keys@.len() - i,
        {
            let k = &keys[i];
            let ghost kv = k@;
            assert(ko[i as int] == kv);
            assert(!ko.subrange(0, i as int).contains(kv)) by {
                let a = ko.subrange(0, i as int);
                if a.contains(kv) {
                    let j = choose|j: int| 0 <= j < a.len() && a[j] == kv;
                    assert(ko[j] == ko[i as int]);
                }
            }
            let expired = match self.unhealthy_peers.get(k) {
                Some(until) => now > *until,
                None => false,
            };
            if expired {
                self.unhealthy_peers.remove(k);
            }
            proof {
                let a = ko.subrange(0, i as int);
                let b = ko.subrange(0, i + 1);
                assert(b =~= a.push(kv));
                assert forall|p: Seq<u8>| #[trigger] b.contains(p) <==> a.contains(p) || p == kv by {
                    if b.contains(p) {
                        let j = choose|j: int| 0 <= j < b.len() && b[j] == p;
                        if j < a.len() {
                            assert(a[j] == p);
                        }
                    }
                    if a.contains(p) {
                        let j = choose|j: int| 0 <= j < a.len() && a[j] == p;
                        assert(b[j] == p);
                    }
                    if p == kv {
                        assert(b[a.len() as int] == p);
                    }
                }
                assert(orig.contains_key(kv)) by {
                    assert(ko.contains(kv));
                    assert(ko.to_set().contains(kv));
                }
            }
            i = i + 1;
        }
        proof {
            assert(ko.subrange(0, i as int) =~= ko);
            assert forall|p: Seq<u8>| orig.contains_key(p) implies ko.contains(p) by {
                assert(ko.to_set().contains(p));
            }
            assert(self.unhealthy_peers@ =~= live_unhealthy(orig, now));
        }
    }

    /// Decides whether a connection with `peer` may go ahead at `now`: first
    /// forgets the unhealthy peers whose cooldown has ended, then refuses a
    /// blocked peer, then a peer still cooling down.
    pub fn enforce(&mut self, peer: &PeerKey, now: u64) -> (r: Result<(), ConnectionDenied>)
        ensures
            final(self).unhealthy_view() == live_unhealthy(old(self).unhealthy_view(), now),
            final(self).blocked_view() == old(self).blocked_view(),
            final(self).close_queue() == old(self).close_queue(),
            final(self).cooldown_view() == old(self).cooldown_view(),
            final(self).monitor_view() == old(self).monitor_view(),
            old(self).blocked_view().contains(peer@) ==> (r matches Err(ConnectionDenied::Blocked(
                b,
            )) && b.peer@ == peer@),
            !old(self).blocked_view().contains(peer@) && live_unhealthy(
                old(self).unhealthy_view(),
                now,
            ).contains_key(peer@) ==> (r matches Err(ConnectionDenied::TemporarilyBlocked(b))
                && b.peer@ == peer@),
            !old(self).blocked_view().contains(peer@) && !live_unhealthy(
                old(self).unhealthy_view(),
                now,
            ).contains_key(peer@) ==> r is Ok,
    {
        self.expire_unhealthy(now);
        if self.malicious_peers.contains(peer) {
            return Err(ConnectionDenied::Blocked(Blocked { peer: peer.duplicate() }));
        }
        if self.unhealthy_peers.contains(peer) {
            return Err(
                ConnectionDenied::TemporarilyBlocked(TemporarilyBlocked { peer: peer.duplicate() }),
            );
        }
        Ok(())
    }

    /// Carries out a request from the node and returns its answer.
    pub fn handle_command(&mut self, command: PeerCommand) -> (reply: PeerCommandReply)
        ensures
            match command {
                PeerCommand::Block(p) => {
                    &&& reply matches PeerCommandReply::Done(b) && b == !old(self).blocked_view().contains(p@)
                    &&& final(self).blocked_view() == old(self).blocked_view().insert(p@)
                    &&& final(self).close_queue() == if old(self).blocked_view().contains(p@) {
                        old(self).close_queue()
                    } else {
                        old(self).close_queue().push(p@)
                    }
                    &&& final(self).unhealthy_view() == old(self).unhealthy_view()
                },
                PeerCommand::Unblock(p) => {
                    &&& reply matches PeerCommandReply::Done(b) && b == (old(self).blocked_view().contains(p@)
                        || old(self).unhealthy_view().contains_key(p@))
                    &&& final(self).blocked_view() == old(self).blocked_view().remove(p@)
                    &&& final(self).unhealthy_view() == old(self).unhealthy_view().remove(p@)
                    &&& final(self).close_queue() == old(self).close_queue()
                },
                PeerCommand::BlacklistedPeers => {
                    &&& reply matches PeerCommandReply::Peers(peers) && keys_view(peers@).to_set() == old(
                        self,
                    ).blocked_view() && keys_view(peers@).no_duplicates()
                    &&& final(self).blocked_view() == old(self).blocked_view()
                    &&& final(self).unhealthy_view() == old(self).unhealthy_view()
                    &&& final(self).close_queue() == old(self).close_queue()
                },
            },
            final(self).cooldown_view() == old(self).cooldown_view(),
            final(self).monitor_view() == old(self).monitor_view(),
    {
        match command {
            PeerCommand::Block(peer) => PeerCommandReply::Done(self.block_peer(peer)),
            PeerCommand::Unblock(peer) => PeerCommandReply::Done(self.unblock_peer(peer)),
            PeerCommand::BlacklistedPeers => {
                let peers = self.malicious_peers.keys();
                proof {
                    assert(keys_view(peers@) =~= peers@.map_values(|k: PeerKey| k@));
                }
                PeerCommandReply::Peers(peers)
            },
        }
    }

    /// The next peer whose connections must be closed, if any.
    pub fn next_connection_to_close(&mut self) -> (r: Option<PeerKey>)
        ensures
            old(self).close_queue().len() == 0 ==> r is None && final(self).close_queue() == old(
                self,
            ).close_queue(),
            old(self).close_queue().len() > 0 ==> (r matches Some(p) && p@ == old(
                self,
            ).close_queue()[0]) && final(self).close_queue() == old(self).close_queue().drop_first(),
            final(self).blocked_view() == old(self).blocked_view(),
            final(self).unhealthy_view() == old(self).unhealthy_view(),
            final(self).cooldown_view() == old(self).cooldown_view(),
    {
        let ghost q = self.close_connections@;
        let r = self.close_connections.pop_front();
        assert(keys_view(self.close_connections@) =~= keys_view(q).drop_first() || q.len() == 0);
        r
    }

    /// The monitor.
    pub fn monitor(&self) -> (m: &Monitor)
        ensures
            *m == self.monitor_view(),
    {
        &self.monitor
    }
}

} // verus!
