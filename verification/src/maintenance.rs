use vstd::prelude::*;
use std::collections::VecDeque;
use crate::connection_monitor::Blocked;
use crate::peer::{PeerKey, keys_view};
use crate::peer_map::PeerMap;

verus! {

/// Keeps a block list: refuses connections with blocked peers and asks the
/// swarm to close the connections of a peer when it gets blocked.
pub struct ConnectionMaintenanceBehaviour<Monitor> {
    monitor: Monitor,
    blocked_peers: PeerMap<()>,
    close_connections: VecDeque<PeerKey>,
}

impl<Monitor> ConnectionMaintenanceBehaviour<Monitor> {
    /// The blocked peers.
    pub closed spec fn blocked_view(&self) -> Set<Seq<u8>> {
        self.blocked_peers@.dom()
    }

    /// Peers whose connections are still to be closed, oldest first.
    pub closed spec fn close_queue(&self) -> Seq<Seq<u8>> {
        keys_view(self.close_connections@)
    }

    pub closed spec fn monitor_view(&self) -> Monitor {
        self.monitor
    }

    /// A behaviour that blocks no one.
    pub fn new(monitor: Monitor) -> (b: Self)
        ensures
            b.blocked_view() == Set::<Seq<u8>>::empty(),
            b.close_queue() == Seq::<Seq<u8>>::empty(),
            b.monitor_view() == monitor,
    {
        let b = ConnectionMaintenanceBehaviour {
            monitor,
            blocked_peers: PeerMap::new(),
            close_connections: VecDeque::new(),
        };
        assert(b.blocked_view() =~= Set::<Seq<u8>>::empty());
        assert(b.close_queue() =~= Seq::<Seq<u8>>::empty());
        b
    }

    /// The blocked peers, each once.
    pub fn blocked_peers(&self) -> (r: Vec<PeerKey>)
        ensures
            keys_view(r@).to_set() == self.blocked_view(),
            keys_view(r@).no_duplicates(),
    {
        let r = self.blocked_peers.keys();
        assert(keys_view(r@) =~= r@.map_values(|k: PeerKey| k@));
        r
    }

    /// Blocks a peer and queues the closing of its connections. Returns
    /// whether it was newly blocked; does nothing if it already was.
    pub fn block_peer(&mut self, peer: PeerKey) -> (inserted: bool)
        ensures
            inserted == !old(self).blocked_view().contains(peer@),
            final(self).blocked_view() == old(self).blocked_view().insert(peer@),
            final(self).close_queue() == if inserted {
                old(self).close_queue().push(peer@)
            } else {
                old(self).close_queue()
            },
            final(self).monitor_view() == old(self).monitor_view(),
    {
        let inserted = !self.blocked_peers.contains(&peer);
        if inserted {
            let copy = peer.duplicate();
            self.blocked_peers.insert(peer, ());
            let ghost q = self.close_connections@;
            self.close_connections.push_back(copy);
            assert(keys_view(self.close_connections@) =~= keys_view(q).push(copy@));
        } else {
            assert(self.blocked_peers@.dom() =~= self.blocked_peers@.dom().insert(peer@));
        }
        inserted
    }

    /// Unblocks a peer. Returns whether it was blocked.
    pub fn unblock_peer(&mut self, peer: PeerKey) -> (removed: bool)
        ensures
            removed == old(self).blocked_view().contains(peer@),
            final(self).blocked_view() == old(self).blocked_view().remove(peer@),
            final(self).close_queue() == old(self).close_queue(),
            final(self).monitor_view() == old(self).monitor_view(),
    {
        let removed = self.blocked_peers.remove(&peer).is_some();
        assert(self.blocked_peers@.dom() =~= old(self).blocked_peers@.dom().remove(peer@));
        removed
    }

    /// Refuses a connection with a blocked peer.
    pub fn enforce(&self, peer: &PeerKey) -> (r: Result<(), Blocked>)
        ensures
            self.blocked_view().contains(peer@) ==> (r matches Err(b) && b.peer@ == peer@),
            !self.blocked_view().contains(peer@) ==> r is Ok,
    {
        if self.blocked_peers.contains(peer) {
            return Err(Blocked { peer: peer.duplicate() });
        }
        Ok(())
    }

    /// The next peer whose connections must be closed, if any.
    pub fn poll(&mut self) -> (r: Option<PeerKey>)
        ensures
            old(self).close_queue().len() == 0 ==> r is None && final(self).close_queue() == old(
                self,
            ).close_queue(),
            old(self).close_queue().len() > 0 ==> (r matches Some(p) && p@ == old(
                self,
            ).close_queue()[0]) && final(self).close_queue() == old(self).close_queue().drop_first(),
            final(self).blocked_view() == old(self).blocked_view(),
            final(self).monitor_view() == old(self).monitor_view(),
    {
        let ghost q = self.close_connections@;
        let r = self.close_connections.pop_front();
        assert(keys_view(self.close_connections@) =~= keys_view(q).drop_first() || q.len() == 0);
        r
    }
}

} // verus!
