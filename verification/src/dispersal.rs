use vstd::prelude::*;
use std::collections::{HashMap, HashSet};
use crate::address_book::{Address, AddressBook};
use crate::assignations::MembershipHandler;
use crate::errors::DispersalError;
use crate::messages::{Blob, BlobId, SubnetworkId, same_blob};
use crate::peer::{PeerKey, keys_view, key_set, holds_key, distinct_keys, contains_key, lemma_key_set_push,
    lemma_distinct_push, lemma_key_set_empty};
use crate::peer_map::PeerMap;
use crate::proto::{DispersalRes, DispersalResType};
use crate::random::choose_index;

verus! {

broadcast use vstd::std_specs::hash::group_hash_axioms;

/// What the executor's dispersal protocol reports to the node.
#[derive(Debug)]
pub enum DispersalExecutorEvent {
    /// A blob reached a member of its subnetwork.
    DispersalSuccess { blob_id: BlobId, subnetwork_id: SubnetworkId },
    /// Something went wrong delivering a blob.
    DispersalError { error: DispersalError },
}

/// A blob to write now to the stream of a peer, for a subnetwork.
#[derive(Debug)]
pub struct DispersalTask {
    pub peer_id: PeerKey,
    pub subnetwork_id: SubnetworkId,
    pub blob: Blob,
}

/// The blobs of `q` that belong to subnetwork `s`, in order.
pub open spec fn blobs_of_subnetwork(q: Seq<(SubnetworkId, Blob)>, s: SubnetworkId) -> Seq<Blob>
    decreases q.len(),
{
    if q.len() == 0 {
        Seq::empty()
    } else {
        let rest = blobs_of_subnetwork(q.drop_last(), s);
        if q.last().0 == s {
            rest.push(q.last().1)
        } else {
            rest
        }
    }
}

/// Each blob of `blobs` paired with subnetwork `s`.
pub open spec fn tagged(blobs: Seq<Blob>, s: SubnetworkId) -> Seq<(SubnetworkId, Blob)>
    decreases blobs.len(),
{
    if blobs.len() == 0 {
        Seq::empty()
    } else {
        tagged(blobs.drop_last(), s).push((s, blobs.last()))
    }
}

/// The blobs pending for subnetwork `s`, none when it has no entry.
pub open spec fn pending_blobs(pending: Map<SubnetworkId, Seq<Blob>>, s: SubnetworkId) -> Seq<Blob> {
    if pending.contains_key(s) {
        pending[s]
    } else {
        Seq::empty()
    }
}

/// The pending blobs of the subnetworks of `order`, in that order, each
/// paired with its subnetwork.
pub open spec fn drained(pending: Map<SubnetworkId, Seq<Blob>>, order: Seq<SubnetworkId>) -> Seq<
    (SubnetworkId, Blob),
>
    decreases order.len(),
{
    if order.len() == 0 {
        Seq::empty()
    } else {
        let s = order.last();
        drained(pending, order.drop_last()) + tagged(pending_blobs(pending, s), s)
    }
}

/// The members of subnetwork `s` other than `peer_id` and `local`.
pub open spec fn other_members_of<M: MembershipHandler>(
    m: M,
    local: Seq<u8>,
    s: SubnetworkId,
    peer_id: Seq<u8>,
) -> Set<Seq<u8>> {
    m.members_of_view(s).remove(peer_id).remove(local)
}

/// The peers to open streams to when `peer_id` drops out of
/// `subnetworks`: the members, other than it and `local`, of all those
/// subnetworks at once, or, when no peer is in all of them, the members of
/// any of them. None for no subnetwork.
pub open spec fn stream_candidates<M: MembershipHandler>(
    m: M,
    local: Seq<u8>,
    peer_id: Seq<u8>,
    subnetworks: Seq<SubnetworkId>,
) -> Set<Seq<u8>> {
    let shared = Set::new(
        |p: Seq<u8>|
            forall|i: int|
                0 <= i < subnetworks.len() ==> #[trigger] other_members_of(m, local, subnetworks[i], peer_id).contains(p),
    );
    let any = Set::new(
        |p: Seq<u8>|
            exists|i: int|
                0 <= i < subnetworks.len() && #[trigger] other_members_of(m, local, subnetworks[i], peer_id).contains(p),
    );
    if subnetworks.len() == 0 {
        Set::empty()
    } else if exists|p: Seq<u8>| #[trigger] shared.contains(p) {
        shared
    } else {
        any
    }
}

/// Decisions of the executor's dispersal protocol: where each blob goes,
/// which blobs wait for a stream, which peers a stream is opened to, and
/// what becomes of pending blobs when a peer disconnects. The node drives
/// the streams and reports what happens to them.
pub struct DispersalExecutorBehaviour<Membership> {
    local_peer_id: PeerKey,
    membership: Membership,
    addresses: AddressBook,
    to_disperse: PeerMap<Vec<(SubnetworkId, Blob)>>,
    disconnected_pending_blobs: HashMap<SubnetworkId, Vec<Blob>>,
    connected_peers: PeerMap<u64>,
    subnetwork_open_streams: HashSet<SubnetworkId>,
    idle_streams: PeerMap<()>,
}

impl<Membership: MembershipHandler> DispersalExecutorBehaviour<Membership> {
    pub closed spec fn local_view(&self) -> Seq<u8> {
        self.local_peer_id@
    }

    pub closed spec fn membership_view(&self) -> Membership {
        self.membership
    }

    pub closed spec fn addresses_view(&self) -> Map<Seq<u8>, Seq<u8>> {
        self.addresses@
    }

    pub closed spec fn well_formed(&self) -> bool {
        self.addresses.well_formed()
    }

    /// The blobs waiting for the stream of each peer, with their
    /// subnetworks, oldest first.
    pub closed spec fn queues_view(&self) -> Map<Seq<u8>, Vec<(SubnetworkId, Blob)>> {
        self.to_disperse@
    }

    /// The blobs of each subnetwork that wait for a stream to it.
    pub closed spec fn pending_view(&self) -> Map<SubnetworkId, Vec<Blob>> {
        self.disconnected_pending_blobs@
    }

    /// The connected peers.
    pub closed spec fn connected_view(&self) -> Set<Seq<u8>> {
        self.connected_peers@.dom()
    }

    /// The subnetworks with a working stream.
    pub closed spec fn open_view(&self) -> Set<SubnetworkId> {
        self.subnetwork_open_streams@
    }

    /// The peers whose stream has nothing to do.
    pub closed spec fn idle_view(&self) -> Set<Seq<u8>> {
        self.idle_streams@.dom()
    }

    /// The blobs waiting for the stream of `p`, oldest first.
    pub open spec fn queue_of(&self, p: Seq<u8>) -> Seq<(SubnetworkId, Blob)> {
        if self.queues_view().contains_key(p) {
            self.queues_view()[p]@
        } else {
            Seq::empty()
        }
    }

    /// The blobs of subnetwork `s` waiting for a stream to it.
    pub open spec fn pending_of(&self, s: SubnetworkId) -> Seq<Blob> {
        if self.pending_view().contains_key(s) {
            self.pending_view()[s]@
        } else {
            Seq::empty()
        }
    }

    /// The pending blobs of each subnetwork, as sequences.
    pub open spec fn pending_seqs(&self) -> Map<SubnetworkId, Seq<Blob>> {
        self.pending_view().map_values(|v: Vec<Blob>| v@)
    }

    /// Nothing pending, nothing connected.
    pub fn new(local_peer_id: PeerKey, membership: Membership, addresses: AddressBook) -> (b: Self)
        requires
            addresses.well_formed(),
        ensures
            b.well_formed(),
            b.local_view() == local_peer_id@,
            b.membership_view() == membership,
            b.addresses_view() == addresses@,
            forall|p: Seq<u8>| #[trigger] b.queue_of(p) == Seq::<(SubnetworkId, Blob)>::empty(),
            forall|s: SubnetworkId| #[trigger] b.pending_of(s) == Seq::<Blob>::empty(),
            b.connected_view() == Set::<Seq<u8>>::empty(),
            b.open_view() == Set::<SubnetworkId>::empty(),
            b.idle_view() == Set::<Seq<u8>>::empty(),
    {
        let b = DispersalExecutorBehaviour {
            local_peer_id,
            membership,
            addresses,
            to_disperse: PeerMap::new(),
            disconnected_pending_blobs: HashMap::new(),
            connected_peers: PeerMap::new(),
            subnetwork_open_streams: HashSet::new(),
            idle_streams: PeerMap::new(),
        };
        assert(b.connected_peers@.dom() =~= Set::<Seq<u8>>::empty());
        assert(b.idle_streams@.dom() =~= Set::<Seq<u8>>::empty());
        b
    }

    /// Replaces the membership.
    pub fn update_membership(&mut self, membership: Membership)
        ensures
            final(self).membership_view() == membership,
            final(self).local_view() == old(self).local_view(),
            final(self).addresses_view() == old(self).addresses_view(),
            final(self).well_formed() == old(self).well_formed(),
            final(self).queues_view() == old(self).queues_view(),
            final(self).pending_view() == old(self).pending_view(),
            final(self).connected_view() == old(self).connected_view(),
            final(self).open_view() == old(self).open_view(),
            final(self).idle_view() == old(self).idle_view(),
    {
        self.membership = membership;
    }

    /// Takes the oldest blob waiting for the stream of `peer_id`, if any.
    pub fn next_request(&mut self, peer_id: &PeerKey) -> (r: Option<(SubnetworkId, Blob)>)
        ensures
            old(self).queue_of(peer_id@).len() == 0 ==> r is None,
            old(self).queue_of(peer_id@).len() > 0 ==> r == Some(old(self).queue_of(peer_id@)[0]),
            final(self).queue_of(peer_id@) == if old(self).queue_of(peer_id@).len() == 0 {
                old(self).queue_of(peer_id@)
            } else {
                old(self).queue_of(peer_id@).drop_first()
            },
            forall|p: Seq<u8>| p != peer_id@ ==> #[trigger] final(self).queue_of(p) == old(self).queue_of(p),
            final(self).local_view() == old(self).local_view(),
            final(self).membership_view() == old(self).membership_view(),
            final(self).addresses_view() == old(self).addresses_view(),
            final(self).well_formed() == old(self).well_formed(),
            final(self).pending_view() == old(self).pending_view(),
            final(self).connected_view() == old(self).connected_view(),
            final(self).open_view() == old(self).open_view(),
            final(self).idle_view() == old(self).idle_view(),
    {
        match self.to_disperse.remove(peer_id) {
            None => None,
            Some(mut queue) => {
                if queue.len() == 0 {
                    self.to_disperse.insert(peer_id.duplicate(), queue);
                    None
                } else {
                    let first = queue.remove(0);
                    self.to_disperse.insert(peer_id.duplicate(), queue);
                    Some(first)
                }
            },
        }
    }

    /// A stream to `peer_id` got free: the oldest blob waiting for it, to be
    /// written now; with none, the stream is parked as idle.
    pub fn handle_stream(&mut self, peer_id: &PeerKey) -> (r: Option<(SubnetworkId, Blob)>)
        ensures
            old(self).queue_of(peer_id@).len() == 0 ==> r is None && final(self).idle_view()
                == old(self).idle_view().insert(peer_id@),
            old(self).queue_of(peer_id@).len() > 0 ==> r == Some(old(self).queue_of(peer_id@)[0])
                && final(self).idle_view() == old(self).idle_view(),
            final(self).queue_of(peer_id@) == if old(self).queue_of(peer_id@).len() == 0 {
                old(self).queue_of(peer_id@)
            } else {
                old(self).queue_of(peer_id@).drop_first()
            },
            forall|p: Seq<u8>| p != peer_id@ ==> #[trigger] final(self).queue_of(p) == old(self).queue_of(p),
            final(self).local_view() == old(self).local_view(),
            final(self).membership_view() == old(self).membership_view(),
            final(self).addresses_view() == old(self).addresses_view(),
            final(self).well_formed() == old(self).well_formed(),
            final(self).pending_view() == old(self).pending_view(),
            final(self).connected_view() == old(self).connected_view(),
            final(self).open_view() == old(self).open_view(),
    {
        let next = self.next_request(peer_id);
        let ghost mid = *self;
        if next.is_none() {
            self.idle_streams.insert(peer_id.duplicate(), ());
            assert(self.idle_streams@.dom() =~= old(self).idle_streams@.dom().insert(peer_id@));
        }
        assert forall|p: Seq<u8>| p != peer_id@ implies #[trigger] self.queue_of(p) == old(self).queue_of(p) by {
            assert(self.queue_of(p) == mid.queue_of(p));
        }
        next
    }

    /// Appends a blob to the queue of `peer_id`.
    fn enqueue(&mut self, peer_id: &PeerKey, subnetwork_id: SubnetworkId, blob: Blob)
        ensures
            final(self).queue_of(peer_id@) == old(self).queue_of(peer_id@).push((subnetwork_id, blob)),
            forall|p: Seq<u8>| p != peer_id@ ==> #[trigger] final(self).queue_of(p) == old(self).queue_of(p),
            final(self).local_view() == old(self).local_view(),
            final(self).membership_view() == old(self).membership_view(),
            final(self).addresses_view() == old(self).addresses_view(),
            final(self).well_formed() == old(self).well_formed(),
            final(self).pending_view() == old(self).pending_view(),
            final(self).connected_view() == old(self).connected_view(),
            final(self).open_view() == old(self).open_view(),
            final(self).idle_view() == old(self).idle_view(),
    {
        let mut queue = match self.to_disperse.remove(peer_id) {
            Some(q) => q,
            None => Vec::new(),
        };
        queue.push((subnetwork_id, blob));
        self.to_disperse.insert(peer_id.duplicate(), queue);
    }

    /// `after` is `before` once `blob` went to the connected members of
    /// subnetwork `subnetwork_id` (see [`Self::disperse_blob`]), with
    /// `tasks` the writes to do now.
    pub open spec fn blob_dispersed(
        before: Self,
        after: Self,
        subnetwork_id: SubnetworkId,
        blob: Blob,
        tasks: Seq<DispersalTask>,
    ) -> bool {
        let targets = before.membership_view().members_of_view(subnetwork_id).intersect(
            before.connected_view(),
        );
        let ready = targets.intersect(before.idle_view());
        &&& keys_view(tasks.map_values(|t: DispersalTask| t.peer_id)).no_duplicates()
        &&& keys_view(tasks.map_values(|t: DispersalTask| t.peer_id)).to_set() == ready
        &&& forall|i: int|
            #![trigger tasks[i]]
            0 <= i < tasks.len() ==> tasks[i].subnetwork_id == subnetwork_id && same_blob(tasks[i].blob, blob)
        &&& after.idle_view() == before.idle_view().difference(targets)
        &&& forall|p: Seq<u8>|
            #![trigger after.queue_of(p)]
            targets.contains(p) && !before.idle_view().contains(p) ==> {
                &&& after.queue_of(p).drop_last() == before.queue_of(p)
                &&& after.queue_of(p).len() == before.queue_of(p).len() + 1
                &&& after.queue_of(p).last().0 == subnetwork_id
                &&& same_blob(after.queue_of(p).last().1, blob)
            }
        &&& forall|p: Seq<u8>|
            !(targets.contains(p) && !before.idle_view().contains(p)) ==> #[trigger] after.queue_of(p)
                == before.queue_of(p)
    }

    /// Sends a blob to the connected members of its subnetwork: for each of
    /// them with an idle stream, a task to write it now (the stream is no
    /// longer idle); for the others, the blob joins their queue.
    pub fn disperse_blob(&mut self, subnetwork_id: SubnetworkId, blob: Blob) -> (tasks: Vec<DispersalTask>)
        requires
            old(self).membership_view().has_network(subnetwork_id),
        ensures
            ({
                let targets = old(self).membership_view().members_of_view(subnetwork_id).intersect(
                    old(self).connected_view(),
                );
                let ready = targets.intersect(old(self).idle_view());
                &&& keys_view(tasks@.map_values(|t: DispersalTask| t.peer_id)).no_duplicates()
                &&& keys_view(tasks@.map_values(|t: DispersalTask| t.peer_id)).to_set() == ready
                &&& forall|i: int|
                    #![trigger tasks@[i]]
                    0 <= i < tasks@.len() ==> tasks@[i].subnetwork_id == subnetwork_id && same_blob(
                        tasks@[i].blob,
                        blob,
                    )
                &&& final(self).idle_view() == old(self).idle_view().difference(targets)
                &&& forall|p: Seq<u8>|
                    #![trigger final(self).queue_of(p)]
                    targets.contains(p) && !old(self).idle_view().contains(p) ==> {
                        &&& final(self).queue_of(p).drop_last() == old(self).queue_of(p)
                        &&& final(self).queue_of(p).len() == old(self).queue_of(p).len() + 1
                        &&& final(self).queue_of(p).last().0 == subnetwork_id
                        &&& same_blob(final(self).queue_of(p).last().1, blob)
                    }
                &&& forall|p: Seq<u8>|
                    !(targets.contains(p) && !old(self).idle_view().contains(p)) ==> #[trigger] final(self).queue_of(p)
                        == old(self).queue_of(p)
            }),
            final(self).local_view() == old(self).local_view(),
            final(self).membership_view() == old(self).membership_view(),
            final(self).addresses_view() == old(self).addresses_view(),
            final(self).well_formed() == old(self).well_formed(),
            final(self).pending_view() == old(self).pending_view(),
            final(self).connected_view() == old(self).connected_view(),
            final(self).open_view() == old(self).open_view(),
    {
        let ghost start = *self;
        let ghost targets = start.membership_view().members_of_view(subnetwork_id).intersect(
            start.connected_view(),
        );
        let members = self.membership.members_of(&subnetwork_id);
        let mut tasks: Vec<DispersalTask> = Vec::new();
        let mut i: usize = 0;
        while i < members.len()
            invariant
                i <= members@.len(),
                distinct_keys(members@),
                key_set(members@) == start.membership_view().members_of_view(subnetwork_id),
                targets == start.membership_view().members_of_view(subnetwork_id).intersect(
                    start.connected_view(),
                ),
                self.local_view() == start.local_view(),
                self.membership_view() == start.membership_view(),
                self.addresses_view() == start.addresses_view(),
                self.well_formed() == start.well_formed(),
                self.pending_view() == start.pending_view(),
                self.connected_view() == start.connected_view(),
                self.open_view() == start.open_view(),
                keys_view(tasks@.map_values(|t: DispersalTask| t.peer_id)).no_duplicates(),
                keys_view(tasks@.map_values(|t: DispersalTask| t.peer_id)).to_set() == key_set(
                    members@.subrange(0, i as int),
                ).intersect(targets).intersect(start.idle_view()),
                forall|k: int|
                    #![trigger tasks@[k]]
                    0 <= k < tasks@.len() ==> tasks@[k].subnetwork_id == subnetwork_id && same_blob(
                        tasks@[k].blob,
                        blob,
                    ),
                self.idle_view() == start.idle_view().difference(
                    key_set(members@.subrange(0, i as int)).intersect(targets),
                ),
                forall|p: Seq<u8>|
                    #![trigger self.queue_of(p)]
                    key_set(members@.subrange(0, i as int)).intersect(targets).contains(p)
                        && !start.idle_view().contains(p) ==> {
                        &&& self.queue_of(p).drop_last() == start.queue_of(p)
                        &&& self.queue_of(p).len() == start.queue_of(p).len() + 1
                        &&& self.queue_of(p).last().0 == subnetwork_id
                        &&& same_blob(self.queue_of(p).last().1, blob)
                    },
                forall|p: Seq<u8>|
                    !(key_set(members@.subrange(0, i as int)).intersect(targets).contains(p)
                        && !start.idle_view().contains(p)) ==> #[trigger] self.queue_of(p) == start.queue_of(p),
            decreases members@.len() - i,
        {
            let m = &members[i];
            let ghost prefix = members@.subrange(0, i as int);
            let ghost done = key_set(prefix).intersect(targets);
            let ghost next_done = key_set(members@.subrange(0, i + 1)).intersect(targets);
            proof {
                assert(members@.subrange(0, i + 1) =~= prefix.push(*m));
                lemma_key_set_push(prefix, *m);
                if holds_key(prefix, m@) {
                    let j = choose|j: int| 0 <= j < prefix.len() && #[trigger] prefix[j]@ == m@;
                    assert(members@[j]@ != members@[i as int]@);
                }
                assert(!done.contains(m@));
                assert(key_set(members@).contains(m@)) by {
                    assert(members@[i as int]@ == m@);
                }
            }
            let ghost before_tasks = tasks@;
            let ghost mid = *self;
            if self.connected_peers.contains(m) {
                proof {
                    assert(targets.contains(m@));
                    assert(next_done =~= done.insert(m@));
                }
                if self.idle_streams.remove(m).is_some() {
                    let task = DispersalTask { peer_id: m.duplicate(), subnetwork_id, blob: blob.duplicate() };
                    assert(same_blob(task.blob, blob) && task.peer_id@ == m@);
                    tasks.push(task);
                    assert(tasks@[before_tasks.len() as int] == task);
                    proof {
                        assert(self.idle_streams@.dom() =~= mid.idle_streams@.dom().remove(m@));
                        assert(start.idle_view().contains(m@));
                        let tv = keys_view(tasks@.map_values(|t: DispersalTask| t.peer_id));
                        let bv = keys_view(before_tasks.map_values(|t: DispersalTask| t.peer_id));
                        assert(tv =~= bv.push(m@));
                        assert(!bv.to_set().contains(m@));
                        assert(!bv.contains(m@));
                        bv.lemma_push_to_set_commute(m@);
                        assert(tv.to_set() =~= bv.to_set().insert(m@));
                        assert(self.idle_view() =~= start.idle_view().difference(next_done));
                        assert forall|p: Seq<u8>|
                            !(next_done.contains(p) && !start.idle_view().contains(p)) implies #[trigger] self.queue_of(p)
                                == start.queue_of(p) by {
                            assert(self.queue_of(p) == mid.queue_of(p));
                        }
                        assert forall|p: Seq<u8>|
                            #![trigger self.queue_of(p)]
                            next_done.contains(p) && !start.idle_view().contains(p) implies {
                                &&& self.queue_of(p).drop_last() == start.queue_of(p)
                                &&& self.queue_of(p).len() == start.queue_of(p).len() + 1
                                &&& self.queue_of(p).last().0 == subnetwork_id
                                &&& same_blob(self.queue_of(p).last().1, blob)
                            } by {
                            assert(p != m@);
                            assert(done.contains(p));
                            assert(self.queue_of(p) == mid.queue_of(p));
                        }
                        assert forall|k: int|
                            #![trigger tasks@[k]]
                            0 <= k < tasks@.len() implies tasks@[k].subnetwork_id == subnetwork_id
                                && same_blob(tasks@[k].blob, blob) by {
                            if k < before_tasks.len() {
                                assert(tasks@[k] == before_tasks[k]);
                                assert(before_tasks[k].subnetwork_id == subnetwork_id && same_blob(
                                    before_tasks[k].blob,
                                    blob,
                                ));
                            } else {
                                assert(tasks@[k] == task);
                            }
                        }
                    }
                } else {
                    proof {
                        assert(self.idle_streams@.dom() =~= mid.idle_streams@.dom());
                        assert(!start.idle_view().contains(m@));
                    }
                    self.enqueue(m, subnetwork_id, blob.duplicate());
                    proof {
                        assert(self.idle_view() =~= start.idle_view().difference(next_done));
                        assert(keys_view(tasks@.map_values(|t: DispersalTask| t.peer_id)).to_set()
                            =~= next_done.intersect(start.idle_view()));
                        assert forall|p: Seq<u8>|
                            #![trigger self.queue_of(p)]
                            next_done.contains(p) && !start.idle_view().contains(p) implies {
                                &&& self.queue_of(p).drop_last() == start.queue_of(p)
                                &&& self.queue_of(p).len() == start.queue_of(p).len() + 1
                                &&& self.queue_of(p).last().0 == subnetwork_id
                                &&& same_blob(self.queue_of(p).last().1, blob)
                            } by {
                            if p == m@ {
                                assert(mid.queue_of(p) == start.queue_of(p));
                                assert(self.queue_of(p).drop_last() =~= mid.queue_of(p));
                            } else {
                                assert(self.queue_of(p) == mid.queue_of(p));
                            }
                        }
                        assert forall|p: Seq<u8>|
                            !(next_done.contains(p) && !start.idle_view().contains(p)) implies #[trigger] self.queue_of(p)
                                == start.queue_of(p) by {
                            assert(p != m@);
                            assert(self.queue_of(p) == mid.queue_of(p));
                        }
                    }
                }
            } else {
                proof {
                    assert(!targets.contains(m@));
                    assert(next_done =~= done);
                }
            }
            i = i + 1;
        }
        proof {
            assert(members@.subrange(0, i as int) =~= members@);
            assert(key_set(members@).intersect(targets) =~= targets);
        }
        tasks
    }

    /// A stream to `peer_id` opened: the blobs waiting for a stream to each
    /// subnetwork of the peer join the peer's queue, subnetwork after
    /// subnetwork, and no longer wait for a stream.
    pub fn reschedule_blobs_for_peer_stream(&mut self, peer_id: &PeerKey)
        ensures
            exists|order: Seq<SubnetworkId>|
                #![trigger drained(old(self).pending_seqs(), order)]
                order.to_set() == old(self).membership_view().membership_view(peer_id@) && order.no_duplicates()
                    && final(self).queue_of(peer_id@) == old(self).queue_of(peer_id@) + drained(
                    old(self).pending_seqs(),
                    order,
                ),
            forall|s: SubnetworkId| #[trigger]
                final(self).pending_of(s) == if old(self).membership_view().membership_view(peer_id@).contains(s) {
                    Seq::<Blob>::empty()
                } else {
                    old(self).pending_of(s)
                },
            forall|p: Seq<u8>| p != peer_id@ ==> #[trigger] final(self).queue_of(p) == old(self).queue_of(p),
            final(self).local_view() == old(self).local_view(),
            final(self).membership_view() == old(self).membership_view(),
            final(self).addresses_view() == old(self).addresses_view(),
            final(self).well_formed() == old(self).well_formed(),
            final(self).connected_view() == old(self).connected_view(),
            final(self).open_view() == old(self).open_view(),
            final(self).idle_view() == old(self).idle_view(),
    {
        let ghost start = *self;
        let ghost pend = start.pending_seqs();
        let subnetworks = self.membership.membership(peer_id);
        let mut queue = match self.to_disperse.remove(peer_id) {
            Some(q) => q,
            None => Vec::new(),
        };
        let ghost base = start.queue_of(peer_id@);
        let mut j: usize = 0;
        while j < subnetworks.len()
            invariant
                j <= subnetworks@.len(),
                subnetworks@.no_duplicates(),
                pend == start.pending_seqs(),
                queue@ == base + drained(pend, subnetworks@.subrange(0, j as int)),
                forall|s: SubnetworkId| #[trigger]
                    self.pending_of(s) == if subnetworks@.subrange(0, j as int).contains(s) {
                        Seq::<Blob>::empty()
                    } else {
                        start.pending_of(s)
                    },
                forall|p: Seq<u8>| p != peer_id@ ==> #[trigger] self.queue_of(p) == start.queue_of(p),
                self.local_view() == start.local_view(),
                self.membership_view() == start.membership_view(),
                self.addresses_view() == start.addresses_view(),
                self.well_formed() == start.well_formed(),
                self.connected_view() == start.connected_view(),
                self.open_view() == start.open_view(),
                self.idle_view() == start.idle_view(),
            decreases subnetworks@.len() - j,
        {
            let s = subnetworks[j];
            let ghost pre = subnetworks@.subrange(0, j as int);
            let ghost nxt = subnetworks@.subrange(0, j + 1);
            proof {
                assert(nxt.drop_last() =~= pre);
                assert(nxt.last() == s);
                assert(!pre.contains(s)) by {
                    if pre.contains(s) {
                        let a = choose|a: int| 0 <= a < pre.len() && pre[a] == s;
                        assert(subnetworks@[a] == subnetworks@[j as int]);
                    }
                }
                assert forall|t: SubnetworkId| t != s implies nxt.contains(t) == pre.contains(t) by {
                    if nxt.contains(t) {
                        let a = choose|a: int| 0 <= a < nxt.len() && nxt[a] == t;
                        assert(pre[a] == t);
                    }
                    if pre.contains(t) {
                        let a = choose|a: int| 0 <= a < pre.len() && pre[a] == t;
                        assert(nxt[a] == t);
                    }
                }
                assert(nxt[j as int] == s);
                assert(self.pending_of(s) == start.pending_of(s));
            }
            let ghost mid = *self;
            let ghost mid_queue = queue@;
            match self.disconnected_pending_blobs.remove(&s) {
                Some(blobs) => {
                    let ghost all = blobs@;
                    proof {
                        assert(mid.pending_of(s) == all);
                        assert(pending_blobs(pend, s) == start.pending_of(s));
                    }
                    let mut blobs = blobs;
                    let mut k: usize = 0;
                    let count = blobs.len();
                    let ghost n = all.len();
                    assert(n == count);
                    while blobs.len() > 0
                        invariant
                            k <= n,
                            n == all.len(),
                            n <= usize::MAX,
                            k + blobs@.len() == n,
                            blobs@ == all.subrange(k as int, n as int),
                            queue@ == mid_queue + tagged(all.subrange(0, k as int), s),
                        decreases blobs@.len(),
                    {
                        let b = blobs.remove(0);
                        proof {
                            assert(b == all[k as int]);
                            let t0 = all.subrange(0, k as int);
                            let t1 = all.subrange(0, k + 1);
                            assert(t1.drop_last() =~= t0);
                            assert(t1.last() == b);
                        }
                        queue.push((s, b));
                        k = k + 1;
                        proof {
                            assert(blobs@ =~= all.subrange(k as int, n as int));
                            assert(queue@ =~= mid_queue + tagged(all.subrange(0, k as int), s));
                        }
                    }
                    proof {
                        assert(all.subrange(0, k as int) =~= all);
                    }
                },
                None => {
                    proof {
                        assert(mid.pending_of(s) == Seq::<Blob>::empty());
                        assert(pending_blobs(pend, s) == start.pending_of(s));
                        assert(tagged(Seq::<Blob>::empty(), s) =~= Seq::<(SubnetworkId, Blob)>::empty());
                        assert(queue@ =~= mid_queue + tagged(Seq::<Blob>::empty(), s));
                    }
                },
            }
            proof {
                assert(queue@ =~= base + drained(pend, nxt));
                assert forall|p: Seq<u8>| p != peer_id@ implies #[trigger] self.queue_of(p) == start.queue_of(p) by {
                    assert(self.queue_of(p) == mid.queue_of(p));
                }
                assert forall|t: SubnetworkId| #[trigger]
                    self.pending_of(t) == if nxt.contains(t) {
                        Seq::<Blob>::empty()
                    } else {
                        start.pending_of(t)
                    } by {
                    if t != s {
                        assert(self.pending_of(t) == mid.pending_of(t));
                    }
                }
            }
            j = j + 1;
        }
        let ghost before_insert = *self;
        self.to_disperse.insert(peer_id.duplicate(), queue);
        proof {
            assert(subnetworks@.subrange(0, j as int) =~= subnetworks@);
            assert forall|p: Seq<u8>| p != peer_id@ implies #[trigger] self.queue_of(p) == start.queue_of(p) by {
                assert(self.queue_of(p) == before_insert.queue_of(p));
            }
            assert forall|s: SubnetworkId| #[trigger]
                self.pending_of(s) == if start.membership_view().membership_view(peer_id@).contains(s) {
                    Seq::<Blob>::empty()
                } else {
                    start.pending_of(s)
                } by {
                assert(subnetworks@.contains(s) == subnetworks@.to_set().contains(s));
                assert(self.pending_of(s) == before_insert.pending_of(s));
            }
            assert(drained(start.pending_seqs(), subnetworks@) == drained(pend, subnetworks@));
        }
    }

    /// A peer disconnected: the blobs waiting for its stream go back to
    /// waiting for a stream to their subnetworks, in order.
    pub fn recover_blobs_for_disconnected_subnetworks(&mut self, peer_id: &PeerKey)
        ensures
            final(self).queue_of(peer_id@) == Seq::<(SubnetworkId, Blob)>::empty(),
            forall|p: Seq<u8>| p != peer_id@ ==> #[trigger] final(self).queue_of(p) == old(self).queue_of(p),
            forall|s: SubnetworkId| #[trigger]
                final(self).pending_of(s) == old(self).pending_of(s) + blobs_of_subnetwork(
                    old(self).queue_of(peer_id@),
                    s,
                ),
            final(self).local_view() == old(self).local_view(),
            final(self).membership_view() == old(self).membership_view(),
            final(self).addresses_view() == old(self).addresses_view(),
            final(self).well_formed() == old(self).well_formed(),
            final(self).connected_view() == old(self).connected_view(),
            final(self).open_view() == old(self).open_view(),
            final(self).idle_view() == old(self).idle_view(),
    {
        let ghost start = *self;
        let mut queue = match self.to_disperse.remove(peer_id) {
            Some(q) => q,
            None => Vec::new(),
        };
        let ghost all = queue@;
        assert(all == start.queue_of(peer_id@));
        let count = queue.len();
        let ghost n = all.len();
        let mut k: usize = 0;
        proof {
            assert forall|s: SubnetworkId| #[trigger]
                self.pending_of(s) == start.pending_of(s) + blobs_of_subnetwork(all.subrange(0, 0), s) by {
                assert(blobs_of_subnetwork(all.subrange(0, 0), s) =~= Seq::<Blob>::empty());
                assert(start.pending_of(s) + Seq::<Blob>::empty() =~= start.pending_of(s));
            }
        }
        while queue.len() > 0
            invariant
                k <= n,
                n == all.len(),
                n == count,
                k + queue@.len() == n,
                queue@ == all.subrange(k as int, n as int),
                forall|s: SubnetworkId| #[trigger]
                    self.pending_of(s) == start.pending_of(s) + blobs_of_subnetwork(all.subrange(0, k as int), s),
                self.queue_of(peer_id@) == Seq::<(SubnetworkId, Blob)>::empty(),
                forall|p: Seq<u8>| p != peer_id@ ==> #[trigger] self.queue_of(p) == start.queue_of(p),
                self.local_view() == start.local_view(),
                self.membership_view() == start.membership_view(),
                self.addresses_view() == start.addresses_view(),
                self.well_formed() == start.well_formed(),
                self.connected_view() == start.connected_view(),
                self.open_view() == start.open_view(),
                self.idle_view() == start.idle_view(),
            decreases queue@.len(),
        {
            let (s, b) = queue.remove(0);
            let ghost mid = *self;
            proof {
                assert((s, b) == all[k as int]);
                let t1 = all.subrange(0, k + 1);
                assert(t1.drop_last() =~= all.subrange(0, k as int));
                assert(t1.last() == (s, b));
            }
            let mut blobs = match self.disconnected_pending_blobs.remove(&s) {
                Some(v) => v,
                None => Vec::new(),
            };
            proof {
                assert(blobs@ == mid.pending_of(s));
            }
            blobs.push(b);
            self.disconnected_pending_blobs.insert(s, blobs);
            k = k + 1;
            proof {
                assert(queue@ =~= all.subrange(k as int, n as int));
                assert forall|t: SubnetworkId| #[trigger]
                    self.pending_of(t) == start.pending_of(t) + blobs_of_subnetwork(all.subrange(0, k as int), t) by {
                    let t0 = all.subrange(0, k - 1);
                    let t1 = all.subrange(0, k as int);
                    assert(t1.drop_last() =~= t0);
                    if t == s {
                        assert(self.pending_of(t) == mid.pending_of(t).push(b));
                        assert(blobs_of_subnetwork(t1, t) == blobs_of_subnetwork(t0, t).push(b));
                        assert(start.pending_of(t) + blobs_of_subnetwork(t1, t) =~= (start.pending_of(t)
                            + blobs_of_subnetwork(t0, t)).push(b));
                    } else {
                        assert(self.pending_of(t) == mid.pending_of(t));
                        assert(blobs_of_subnetwork(t1, t) == blobs_of_subnetwork(t0, t));
                    }
                }
                assert(self.queue_of(peer_id@) == mid.queue_of(peer_id@));
                assert forall|p: Seq<u8>| p != peer_id@ implies #[trigger] self.queue_of(p) == start.queue_of(p) by {
                    assert(self.queue_of(p) == mid.queue_of(p));
                }
            }
        }
        proof {
            assert(all.subrange(0, k as int) =~= all);
        }
    }


    /// The members of subnetwork `s` other than `peer_id` and the local
    /// peer, each once.
    fn filter_peers_for_subnetwork(&self, peer_id: &PeerKey, subnetwork_id: SubnetworkId) -> (r: Vec<PeerKey>)
        requires
            self.membership_view().has_network(subnetwork_id),
        ensures
            key_set(r@) == other_members_of(self.membership_view(), self.local_view(), subnetwork_id, peer_id@),
            distinct_keys(r@),
    {
        let members = self.membership.members_of(&subnetwork_id);
        let mut r: Vec<PeerKey> = Vec::new();
        let mut i: usize = 0;
        proof {
            lemma_key_set_empty();
            assert(key_set(members@.subrange(0, 0)) =~= Set::<Seq<u8>>::empty());
        }
        while i < members.len()
            invariant
                i <= members@.len(),
                distinct_keys(members@),
                distinct_keys(r@),
                key_set(members@) == self.membership_view().members_of_view(subnetwork_id),
                key_set(r@) == key_set(members@.subrange(0, i as int)).remove(peer_id@).remove(self.local_view()),
            decreases members@.len() - i,
        {
            let m = &members[i];
            let ghost prefix = members@.subrange(0, i as int);
            proof {
                assert(members@.subrange(0, i + 1) =~= prefix.push(*m));
                lemma_key_set_push(prefix, *m);
                if holds_key(prefix, m@) {
                    let j = choose|j: int| 0 <= j < prefix.len() && #[trigger] prefix[j]@ == m@;
                    assert(members@[j]@ != members@[i as int]@);
                }
            }
            if !m.same_as(peer_id) && !m.same_as(&self.local_peer_id) {
                let k = m.duplicate();
                proof {
                    assert(!key_set(r@).contains(k@));
                    lemma_key_set_push(r@, k);
                    lemma_distinct_push(r@, k);
                }
                r.push(k);
            }
            proof {
                assert(key_set(r@) =~= key_set(members@.subrange(0, i + 1)).remove(peer_id@).remove(
                    self.local_view(),
                ));
            }
            i = i + 1;
        }
        proof {
            assert(members@.subrange(0, i as int) =~= members@);
        }
        r
    }

    /// The peers to open streams to when `peer_id` drops out of
    /// `subnetworks` (see [`stream_candidates`]).
    pub open spec fn candidates(&self, peer_id: Seq<u8>, subnetworks: Seq<SubnetworkId>) -> Set<Seq<u8>> {
        stream_candidates(self.membership_view(), self.local_view(), peer_id, subnetworks)
    }

    /// The peers to open streams to when `peer_id` drops out of
    /// `subnetworks` (see [`Self::candidates`]), each once.
    pub fn find_subnetworks_candidates_excluding_peer(
        &self,
        peer_id: &PeerKey,
        subnetworks: &Vec<SubnetworkId>,
    ) -> (r: Vec<PeerKey>)
        requires
            forall|i: int| 0 <= i < subnetworks@.len() ==> self.membership_view().has_network(#[trigger] subnetworks@[i]),
        ensures
            key_set(r@) == self.candidates(peer_id@, subnetworks@),
            distinct_keys(r@),
            !key_set(r@).contains(self.local_view()),
            !key_set(r@).contains(peer_id@),
    {
        proof {
            crate::laws::lemma_candidates_exclude_local_and_peer(
                self.membership_view(),
                self.local_view(),
                peer_id@,
                subnetworks@,
            );
        }
        if subnetworks.len() == 0 {
            proof {
                lemma_key_set_empty();
                assert(self.candidates(peer_id@, subnetworks@) =~= Set::<Seq<u8>>::empty());
            }
            return Vec::new();
        }
        let ghost subs = subnetworks@;
        let ghost shared = Set::new(
            |p: Seq<u8>|
                forall|i: int|
                    0 <= i < subs.len() ==> #[trigger] other_members_of(
                        self.membership_view(),
                        self.local_view(),
                        subs[i],
                        peer_id@,
                    ).contains(p),
        );
        let mut common = self.filter_peers_for_subnetwork(peer_id, subnetworks[0]);
        let mut j: usize = 1;
        while j < subnetworks.len()
            invariant
                1 <= j <= subs.len(),
                subs == subnetworks@,
                forall|i: int| 0 <= i < subs.len() ==> self.membership_view().has_network(#[trigger] subs[i]),
                distinct_keys(common@),
                forall|p: Seq<u8>|
                    key_set(common@).contains(p) == forall|i: int|
                        0 <= i < j ==> #[trigger] other_members_of(self.membership_view(), self.local_view(), subs[i], peer_id@).contains(p),
            decreases subs.len() - j,
        {
            let others = self.filter_peers_for_subnetwork(peer_id, subnetworks[j]);
            let mut kept: Vec<PeerKey> = Vec::new();
            let mut k: usize = 0;
            proof {
                lemma_key_set_empty();
            }
            while k < common.len()
                invariant
                    k <= common@.len(),
                    distinct_keys(common@),
                    distinct_keys(kept@),
                    key_set(others@) == other_members_of(self.membership_view(), self.local_view(), subs[j as int], peer_id@),
                    forall|p: Seq<u8>|
                        key_set(kept@).contains(p) == (key_set(common@.subrange(0, k as int)).contains(p)
                            && key_set(others@).contains(p)),
                decreases common@.len() - k,
            {
                let c = &common[k];
                let ghost prefix = common@.subrange(0, k as int);
                proof {
                    assert(common@.subrange(0, k + 1) =~= prefix.push(*c));
                    lemma_key_set_push(prefix, *c);
                    if holds_key(prefix, c@) {
                        let a = choose|a: int| 0 <= a < prefix.len() && #[trigger] prefix[a]@ == c@;
                        assert(common@[a]@ != common@[k as int]@);
                    }
                }
                if contains_key(&others, c) {
                    let d = c.duplicate();
                    proof {
                        assert(!key_set(kept@).contains(d@));
                        lemma_key_set_push(kept@, d);
                        lemma_distinct_push(kept@, d);
                    }
                    kept.push(d);
                }
                k = k + 1;
            }
            proof {
                assert(common@.subrange(0, k as int) =~= common@);
                assert forall|p: Seq<u8>|
                    key_set(kept@).contains(p) == forall|i: int|
                        0 <= i < j + 1 ==> #[trigger] other_members_of(self.membership_view(), self.local_view(), subs[i], peer_id@).contains(p) by {
                    if key_set(kept@).contains(p) {
                        assert forall|i: int| 0 <= i < j + 1 implies #[trigger] other_members_of(self.membership_view(), self.local_view(), 
                            subs[i],
                            peer_id@,
                        ).contains(p) by {
                            if i == j {
                                assert(key_set(others@).contains(p));
                            }
                        }
                    }
                    if forall|i: int| 0 <= i < j + 1 ==> #[trigger] other_members_of(self.membership_view(), self.local_view(), subs[i], peer_id@).contains(p) {
                        assert(other_members_of(self.membership_view(), self.local_view(), subs[j as int], peer_id@).contains(p));
                        assert forall|i: int| 0 <= i < j implies #[trigger] other_members_of(self.membership_view(), self.local_view(), 
                            subs[i],
                            peer_id@,
                        ).contains(p) by {
                            assert(0 <= i < j + 1);
                        }
                    }
                }
            }
            common = kept;
            j = j + 1;
        }
        if common.len() > 0 {
            proof {
                assert(key_set(common@) =~= shared);
                assert(shared.contains(common@[0]@)) by {
                    assert(holds_key(common@, common@[0]@));
                }
                assert(self.candidates(peer_id@, subs) =~= shared);
            }
            return common;
        }
        proof {
            assert forall|p: Seq<u8>| !shared.contains(p) by {
                if shared.contains(p) {
                    assert(key_set(common@).contains(p));
                    let a = choose|a: int| 0 <= a < common@.len() && #[trigger] common@[a]@ == p;
                }
            }
        }
        let ghost any = Set::new(
            |p: Seq<u8>|
                exists|i: int|
                    0 <= i < subs.len() && #[trigger] other_members_of(
                        self.membership_view(),
                        self.local_view(),
                        subs[i],
                        peer_id@,
                    ).contains(p),
        );
        let mut union: Vec<PeerKey> = Vec::new();
        let mut j: usize = 0;
        proof {
            lemma_key_set_empty();
        }
        while j < subnetworks.len()
            invariant
                j <= subs.len(),
                subs == subnetworks@,
                forall|i: int| 0 <= i < subs.len() ==> self.membership_view().has_network(#[trigger] subs[i]),
                distinct_keys(union@),
                forall|p: Seq<u8>|
                    key_set(union@).contains(p) == exists|i: int|
                        0 <= i < j && #[trigger] other_members_of(self.membership_view(), self.local_view(), subs[i], peer_id@).contains(p),
            decreases subs.len() - j,
        {
            let others = self.filter_peers_for_subnetwork(peer_id, subnetworks[j]);
            let ghost before = union@;
            let mut k: usize = 0;
            while k < others.len()
                invariant
                    k <= others@.len(),
                    distinct_keys(union@),
                    key_set(others@) == other_members_of(self.membership_view(), self.local_view(), subs[j as int], peer_id@),
                    forall|p: Seq<u8>|
                        key_set(union@).contains(p) == (key_set(before).contains(p) || key_set(
                            others@.subrange(0, k as int),
                        ).contains(p)),
                decreases others@.len() - k,
            {
                let o = &others[k];
                let ghost prefix = others@.subrange(0, k as int);
                proof {
                    assert(others@.subrange(0, k + 1) =~= prefix.push(*o));
                    lemma_key_set_push(prefix, *o);
                }
                let ghost u0 = union@;
                if !contains_key(&union, o) {
                    let d = o.duplicate();
                    proof {
                        lemma_key_set_push(union@, d);
                        lemma_distinct_push(union@, d);
                    }
                    union.push(d);
                }
                proof {
                    assert forall|p: Seq<u8>|
                        #[trigger] key_set(union@).contains(p) == (key_set(before).contains(p) || key_set(
                            others@.subrange(0, k + 1),
                        ).contains(p)) by {
                        assert(key_set(u0).contains(p) == (key_set(before).contains(p) || key_set(prefix).contains(
                            p,
                        )));
                        assert(key_set(others@.subrange(0, k + 1)).contains(p) == (key_set(prefix).contains(p)
                            || p == o@));
                        if p == o@ {
                            assert(key_set(union@).contains(p) == holds_key(union@, p));
                        }
                    }
                }
                k = k + 1;
            }
            proof {
                assert(others@.subrange(0, k as int) =~= others@);
                assert forall|p: Seq<u8>|
                    key_set(union@).contains(p) == exists|i: int|
                        0 <= i < j + 1 && #[trigger] other_members_of(self.membership_view(), self.local_view(), subs[i], peer_id@).contains(p) by {
                    assert(key_set(before).contains(p) == exists|i: int|
                        0 <= i < j && #[trigger] other_members_of(self.membership_view(), self.local_view(), subs[i], peer_id@).contains(p));
                    assert(key_set(union@).contains(p) == (key_set(before).contains(p) || key_set(others@).contains(
                        p,
                    )));
                    if key_set(union@).contains(p) && !key_set(before).contains(p) {
                        assert(other_members_of(self.membership_view(), self.local_view(), subs[j as int], peer_id@).contains(p));
                    }
                    if key_set(before).contains(p) {
                        let i = choose|i: int|
                            0 <= i < j && #[trigger] other_members_of(self.membership_view(), self.local_view(), subs[i], peer_id@).contains(p);
                        assert(0 <= i < j + 1);
                    }
                    if exists|i: int| 0 <= i < j + 1 && #[trigger] other_members_of(self.membership_view(), self.local_view(), subs[i], peer_id@).contains(p) {
                        let i = choose|i: int|
                            0 <= i < j + 1 && #[trigger] other_members_of(self.membership_view(), self.local_view(), subs[i], peer_id@).contains(p);
                        if i == j {
                            assert(key_set(others@).contains(p));
                        }
                    }
                }
            }
            j = j + 1;
        }
        proof {
            assert(key_set(union@) =~= any);
            assert(!exists|p: Seq<u8>| #[trigger] shared.contains(p));
            assert(self.candidates(peer_id@, subs) =~= any);
        }
        union
    }

    /// A member of subnetwork `subnetwork_id` other than the local peer,
    /// drawn at random, to open a stream to; `None` when there is none.
    pub fn try_ensure_stream_from_missing_subnetwork(&self, subnetwork_id: SubnetworkId) -> (r: Option<PeerKey>)
        requires
            self.membership_view().has_network(subnetwork_id),
        ensures
            r is None <==> self.membership_view().members_of_view(subnetwork_id).remove(self.local_view())
                == Set::<Seq<u8>>::empty(),
            r matches Some(p) ==> self.membership_view().members_of_view(subnetwork_id).remove(
                self.local_view(),
            ).contains(p@),
    {
        let members = self.membership.members_of(&subnetwork_id);
        let mut candidates: Vec<PeerKey> = Vec::new();
        let mut i: usize = 0;
        proof {
            lemma_key_set_empty();
            assert(key_set(members@.subrange(0, 0)) =~= Set::<Seq<u8>>::empty());
        }
        while i < members.len()
            invariant
                i <= members@.len(),
                key_set(candidates@) == key_set(members@.subrange(0, i as int)).remove(self.local_view()),
            decreases members@.len() - i,
        {
            let m = &members[i];
            proof {
                assert(members@.subrange(0, i + 1) =~= members@.subrange(0, i as int).push(*m));
                lemma_key_set_push(members@.subrange(0, i as int), *m);
            }
            if !m.same_as(&self.local_peer_id) {
                let d = m.duplicate();
                proof {
                    lemma_key_set_push(candidates@, d);
                }
                candidates.push(d);
            }
            proof {
                assert(key_set(candidates@) =~= key_set(members@.subrange(0, i + 1)).remove(self.local_view()));
            }
            i = i + 1;
        }
        proof {
            assert(members@.subrange(0, i as int) =~= members@);
            if candidates@.len() == 0 {
                assert(key_set(candidates@) =~= Set::<Seq<u8>>::empty());
            } else {
                assert(key_set(candidates@).contains(candidates@[0]@)) by {
                    assert(holds_key(candidates@, candidates@[0]@));
                }
            }
        }
        match choose_index(candidates.len()) {
            Some(k) => {
                let p = candidates[k].duplicate();
                proof {
                    assert(holds_key(candidates@, candidates@[k as int]@));
                }
                Some(p)
            },
            None => None,
        }
    }

    /// The peers to open streams to when `peer_id` drops out of its
    /// subnetworks (see [`Self::candidates`]).
    pub fn open_streams_for_disconnected_subnetworks_selected_peer(&self, peer_id: &PeerKey) -> (r: Vec<PeerKey>)
        ensures
            exists|subs: Seq<SubnetworkId>|
                #![trigger self.candidates(peer_id@, subs)]
                subs.to_set() == self.membership_view().membership_view(peer_id@) && key_set(r@)
                    == self.candidates(peer_id@, subs),
            distinct_keys(r@),
    {
        let subnetworks = self.membership.membership(peer_id);
        proof {
            assert forall|i: int| 0 <= i < subnetworks@.len() implies self.membership_view().has_network(
                #[trigger] subnetworks@[i],
            ) by {
                assert(subnetworks@.contains(subnetworks@[i]));
            }
        }
        self.find_subnetworks_candidates_excluding_peer(peer_id, &subnetworks)
    }

    /// A connection with `peer_id` was established.
    pub fn handle_connection_established(&mut self, peer_id: &PeerKey, connection_id: u64)
        ensures
            final(self).connected_view() == old(self).connected_view().insert(peer_id@),
            forall|p: Seq<u8>| #[trigger] final(self).queue_of(p) == old(self).queue_of(p),
            final(self).pending_view() == old(self).pending_view(),
            final(self).local_view() == old(self).local_view(),
            final(self).membership_view() == old(self).membership_view(),
            final(self).addresses_view() == old(self).addresses_view(),
            final(self).well_formed() == old(self).well_formed(),
            final(self).open_view() == old(self).open_view(),
            final(self).idle_view() == old(self).idle_view(),
    {
        self.connected_peers.insert(peer_id.duplicate(), connection_id);
        assert(self.connected_peers@.dom() =~= old(self).connected_peers@.dom().insert(peer_id@));
    }

    /// The connection with `peer_id` closed: its subnetworks no longer
    /// count as having a stream; if it was connected, the blobs waiting for
    /// it go back to waiting for their subnetworks, and the peers returned
    /// are those to open streams to instead (see [`Self::candidates`]).
    pub fn handle_connection_closed(&mut self, peer_id: &PeerKey) -> (r: Vec<PeerKey>)
        ensures
            final(self).open_view() == old(self).open_view().difference(
                old(self).membership_view().membership_view(peer_id@),
            ),
            final(self).connected_view() == old(self).connected_view().remove(peer_id@),
            old(self).connected_view().contains(peer_id@) ==> {
                &&& final(self).queue_of(peer_id@) == Seq::<(SubnetworkId, Blob)>::empty()
                &&& forall|s: SubnetworkId| #[trigger]
                    final(self).pending_of(s) == old(self).pending_of(s) + blobs_of_subnetwork(
                        old(self).queue_of(peer_id@),
                        s,
                    )
                &&& exists|subs: Seq<SubnetworkId>|
                    #![trigger old(self).candidates(peer_id@, subs)]
                    subs.to_set() == old(self).membership_view().membership_view(peer_id@) && key_set(r@)
                        == old(self).candidates(peer_id@, subs)
            },
            !old(self).connected_view().contains(peer_id@) ==> {
                &&& r@.len() == 0
                &&& forall|p: Seq<u8>| #[trigger] final(self).queue_of(p) == old(self).queue_of(p)
                &&& final(self).pending_view() == old(self).pending_view()
            },
            forall|p: Seq<u8>| p != peer_id@ ==> #[trigger] final(self).queue_of(p) == old(self).queue_of(p),
            final(self).local_view() == old(self).local_view(),
            final(self).membership_view() == old(self).membership_view(),
            final(self).addresses_view() == old(self).addresses_view(),
            final(self).well_formed() == old(self).well_formed(),
            final(self).idle_view() == old(self).idle_view(),
            !key_set(r@).contains(old(self).local_view()),
            !key_set(r@).contains(peer_id@),
    {
        let ghost start = *self;
        let peer_subnetworks = self.membership.membership(peer_id);
        let mut i: usize = 0;
        while i < peer_subnetworks.len()
            invariant
                i <= peer_subnetworks@.len(),
                self.open_view() == start.open_view().difference(peer_subnetworks@.subrange(0, i as int).to_set()),
                self.connected_view() == start.connected_view(),
                forall|p: Seq<u8>| #[trigger] self.queue_of(p) == start.queue_of(p),
                self.pending_view() == start.pending_view(),
                self.local_view() == start.local_view(),
                self.membership_view() == start.membership_view(),
                self.addresses_view() == start.addresses_view(),
                self.well_formed() == start.well_formed(),
                self.idle_view() == start.idle_view(),
            decreases peer_subnetworks@.len() - i,
        {
            let s = peer_subnetworks[i];
            let ghost before = *self;
            self.subnetwork_open_streams.remove(&s);
            proof {
                assert forall|p: Seq<u8>| #[trigger] self.queue_of(p) == start.queue_of(p) by {
                    assert(self.queue_of(p) == before.queue_of(p));
                }
                let a = peer_subnetworks@.subrange(0, i as int);
                let b = peer_subnetworks@.subrange(0, i + 1);
                assert(b =~= a.push(s));
                a.lemma_push_to_set_commute(s);
                assert(self.open_view() =~= start.open_view().difference(b.to_set()));
            }
            i = i + 1;
        }
        proof {
            assert(peer_subnetworks@.subrange(0, i as int) =~= peer_subnetworks@);
        }
        let ghost before = *self;
        let was_connected = self.connected_peers.remove(peer_id).is_some();
        assert(self.connected_peers@.dom() =~= start.connected_peers@.dom().remove(peer_id@));
        assert forall|p: Seq<u8>| #[trigger] self.queue_of(p) == start.queue_of(p) by {
            assert(self.queue_of(p) == before.queue_of(p));
        }
        if was_connected {
            let peers = self.open_streams_for_disconnected_subnetworks_selected_peer(peer_id);
            proof {
                let subs = choose|subs: Seq<SubnetworkId>|
                    #![trigger self.candidates(peer_id@, subs)]
                    subs.to_set() == self.membership_view().membership_view(peer_id@) && key_set(peers@)
                        == self.candidates(peer_id@, subs);
                assert(start.candidates(peer_id@, subs) == self.candidates(peer_id@, subs));
                crate::laws::lemma_candidates_exclude_local_and_peer(
                    start.membership_view(),
                    start.local_view(),
                    peer_id@,
                    subs,
                );
            }
            self.recover_blobs_for_disconnected_subnetworks(peer_id);
            peers
        } else {
            proof {
                lemma_key_set_empty();
            }
            Vec::new()
        }
    }

    /// A dispersal task finished. On success the stream is handed to the
    /// next blob waiting for it, if any (otherwise parked as idle), and the
    /// answer becomes an event: success, or the error the validator
    /// answered. A failed task is reported as is.
    pub fn on_task_result(
        &mut self,
        result: Result<(BlobId, SubnetworkId, DispersalRes, PeerKey), DispersalError>,
    ) -> (r: (Option<DispersalTask>, DispersalExecutorEvent))
        ensures
            match result {
                Ok((blob_id, subnetwork_id, response, peer)) => {
                    &&& match r.0 {
                        Some(t) => old(self).queue_of(peer@).len() > 0 && t.peer_id@ == peer@ && (
                        t.subnetwork_id, t.blob) == old(self).queue_of(peer@)[0],
                        None => old(self).queue_of(peer@).len() == 0,
                    }
                    &&& match response.message_type {
                        Some(DispersalResType::Error(e)) => r.1 matches DispersalExecutorEvent::DispersalError {
                            error: DispersalError::Protocol { subnetwork_id: s, error: err },
                        } && s == subnetwork_id && err == e,
                        _ => r.1 == DispersalExecutorEvent::DispersalSuccess { blob_id, subnetwork_id },
                    }
                    &&& final(self).queue_of(peer@) == if old(self).queue_of(peer@).len() == 0 {
                        old(self).queue_of(peer@)
                    } else {
                        old(self).queue_of(peer@).drop_first()
                    }
                    &&& forall|p: Seq<u8>| p != peer@ ==> #[trigger] final(self).queue_of(p) == old(self).queue_of(p)
                    &&& final(self).idle_view() == if old(self).queue_of(peer@).len() == 0 {
                        old(self).idle_view().insert(peer@)
                    } else {
                        old(self).idle_view()
                    }
                },
                Err(e) => r.0 is None && r.1 == DispersalExecutorEvent::DispersalError { error: e }
                    && *final(self) == *old(self),
            },
            final(self).local_view() == old(self).local_view(),
            final(self).membership_view() == old(self).membership_view(),
            final(self).addresses_view() == old(self).addresses_view(),
            final(self).well_formed() == old(self).well_formed(),
            final(self).pending_view() == old(self).pending_view(),
            final(self).connected_view() == old(self).connected_view(),
            final(self).open_view() == old(self).open_view(),
    {
        match result {
            Ok((blob_id, subnetwork_id, response, peer)) => {
                let next = self.handle_stream(&peer);
                let task = match next {
                    Some((s, blob)) => Some(DispersalTask { peer_id: peer, subnetwork_id: s, blob }),
                    None => None,
                };
                let event = match response.error() {
                    Some(error) => DispersalExecutorEvent::DispersalError {
                        error: DispersalError::Protocol { subnetwork_id, error },
                    },
                    None => DispersalExecutorEvent::DispersalSuccess { blob_id, subnetwork_id },
                };
                (task, event)
            },
            Err(error) => (None, DispersalExecutorEvent::DispersalError { error }),
        }
    }

    /// A blob to disperse arrived. When its subnetwork has a working stream
    /// it goes to the subnetwork's connected members (see
    /// [`Self::disperse_blob`]); otherwise it waits for a stream to the
    /// subnetwork, and a member is drawn to open one to (see
    /// [`Self::try_ensure_stream_from_missing_subnetwork`]).
    pub fn on_new_blob(&mut self, subnetwork_id: SubnetworkId, blob: Blob) -> (r: (Vec<DispersalTask>, Option<PeerKey>))
        requires
            old(self).membership_view().has_network(subnetwork_id),
        ensures
            old(self).open_view().contains(subnetwork_id) ==> {
                &&& r.1 is None
                &&& Self::blob_dispersed(*old(self), *final(self), subnetwork_id, blob, r.0@)
                &&& final(self).pending_view() == old(self).pending_view()
            },
            !old(self).open_view().contains(subnetwork_id) ==> {
                &&& r.0@.len() == 0
                &&& final(self).pending_of(subnetwork_id) == old(self).pending_of(subnetwork_id).push(blob)
                &&& forall|s: SubnetworkId| s != subnetwork_id ==> #[trigger] final(self).pending_of(s) == old(
                    self,
                ).pending_of(s)
                &&& forall|p: Seq<u8>| #[trigger] final(self).queue_of(p) == old(self).queue_of(p)
                &&& final(self).idle_view() == old(self).idle_view()
                &&& (r.1 is None <==> old(self).membership_view().members_of_view(subnetwork_id).remove(
                    old(self).local_view(),
                ) == Set::<Seq<u8>>::empty())
                &&& r.1 matches Some(p) ==> old(self).membership_view().members_of_view(subnetwork_id).remove(
                    old(self).local_view(),
                ).contains(p@)
            },
            final(self).local_view() == old(self).local_view(),
            final(self).membership_view() == old(self).membership_view(),
            final(self).addresses_view() == old(self).addresses_view(),
            final(self).well_formed() == old(self).well_formed(),
            final(self).connected_view() == old(self).connected_view(),
            final(self).open_view() == old(self).open_view(),
    {
        if self.subnetwork_open_streams.contains(&subnetwork_id) {
            (self.disperse_blob(subnetwork_id, blob), None)
        } else {
            let ghost start = *self;
            let mut blobs = match self.disconnected_pending_blobs.remove(&subnetwork_id) {
                Some(v) => v,
                None => Vec::new(),
            };
            blobs.push(blob);
            self.disconnected_pending_blobs.insert(subnetwork_id, blobs);
            assert forall|s: SubnetworkId| s != subnetwork_id implies #[trigger] self.pending_of(s) == start.pending_of(
                s,
            ) by {}
            (Vec::new(), self.try_ensure_stream_from_missing_subnetwork(subnetwork_id))
        }
    }

    /// A stream opened, or failed to. An opened stream to a peer makes the
    /// peer's subnetworks count as having a stream, brings the blobs waiting
    /// for those subnetworks into the peer's queue (see
    /// [`Self::reschedule_blobs_for_peer_stream`]) and is handed the oldest
    /// of its queue (see [`Self::handle_stream`]). A failure is returned as
    /// is, to be reported.
    pub fn on_stream_opened(&mut self, result: Result<PeerKey, DispersalError>) -> (r: Result<
        Option<DispersalTask>,
        DispersalError,
    >)
        ensures
            match result {
                Ok(peer) => {
                    &&& final(self).open_view() == old(self).open_view().union(
                        old(self).membership_view().membership_view(peer@),
                    )
                    &&& exists|order: Seq<SubnetworkId>|
                        #![trigger drained(old(self).pending_seqs(), order)]
                        order.to_set() == old(self).membership_view().membership_view(peer@)
                            && order.no_duplicates() && {
                            let q = old(self).queue_of(peer@) + drained(old(self).pending_seqs(), order);
                            &&& q.len() == 0 ==> {
                                &&& r == Ok::<Option<DispersalTask>, DispersalError>(None)
                                &&& final(self).queue_of(peer@) == q
                                &&& final(self).idle_view() == old(self).idle_view().insert(peer@)
                            }
                            &&& q.len() > 0 ==> {
                                &&& r matches Ok(Some(task)) && task.peer_id@ == peer@ && (
                                task.subnetwork_id, task.blob) == q[0]
                                &&& final(self).queue_of(peer@) == q.drop_first()
                                &&& final(self).idle_view() == old(self).idle_view()
                            }
                        }
                    &&& forall|s: SubnetworkId| #[trigger]
                        final(self).pending_of(s) == if old(self).membership_view().membership_view(
                            peer@,
                        ).contains(s) {
                            Seq::<Blob>::empty()
                        } else {
                            old(self).pending_of(s)
                        }
                    &&& forall|p: Seq<u8>| p != peer@ ==> #[trigger] final(self).queue_of(p) == old(self).queue_of(p)
                },
                Err(e) => r == Err::<Option<DispersalTask>, DispersalError>(e) && *final(self) == *old(self),
            },
            final(self).local_view() == old(self).local_view(),
            final(self).membership_view() == old(self).membership_view(),
            final(self).addresses_view() == old(self).addresses_view(),
            final(self).well_formed() == old(self).well_formed(),
            final(self).connected_view() == old(self).connected_view(),
    {
        match result {
            Ok(peer) => {
                let ghost start = *self;
                let subnetworks = self.membership.membership(&peer);
                let mut i: usize = 0;
                while i < subnetworks.len()
                    invariant
                        i <= subnetworks@.len(),
                        self.open_view() == start.open_view().union(subnetworks@.subrange(0, i as int).to_set()),
                        self.local_view() == start.local_view(),
                        self.membership_view() == start.membership_view(),
                        self.addresses_view() == start.addresses_view(),
                        self.well_formed() == start.well_formed(),
                        self.connected_view() == start.connected_view(),
                        self.queues_view() == start.queues_view(),
                        self.pending_view() == start.pending_view(),
                        self.idle_view() == start.idle_view(),
                    decreases subnetworks@.len() - i,
                {
                    let s = subnetworks[i];
                    self.subnetwork_open_streams.insert(s);
                    proof {
                        let a = subnetworks@.subrange(0, i as int);
                        let b = subnetworks@.subrange(0, i + 1);
                        assert(b =~= a.push(s));
                        a.lemma_push_to_set_commute(s);
                        assert(self.open_view() =~= start.open_view().union(b.to_set()));
                    }
                    i = i + 1;
                }
                proof {
                    assert(subnetworks@.subrange(0, i as int) =~= subnetworks@);
                    assert forall|p: Seq<u8>| #[trigger] self.queue_of(p) == start.queue_of(p) by {}
                    assert(self.pending_seqs() == start.pending_seqs());
                }
                let ghost opened = *self;
                self.reschedule_blobs_for_peer_stream(&peer);
                let ghost rescheduled = *self;
                let next = self.handle_stream(&peer);
                proof {
                    let order = choose|order: Seq<SubnetworkId>|
                        #![trigger drained(opened.pending_seqs(), order)]
                        order.to_set() == opened.membership_view().membership_view(peer@) && order.no_duplicates()
                            && rescheduled.queue_of(peer@) == opened.queue_of(peer@) + drained(
                            opened.pending_seqs(),
                            order,
                        );
                    assert(drained(start.pending_seqs(), order) == drained(opened.pending_seqs(), order));
                    assert forall|s: SubnetworkId| #[trigger] self.pending_of(s) == rescheduled.pending_of(s) by {}
                    assert forall|s: SubnetworkId| #[trigger] opened.pending_of(s) == start.pending_of(s) by {}
                    assert forall|p: Seq<u8>| p != peer@ implies #[trigger] self.queue_of(p) == start.queue_of(p) by {
                        assert(self.queue_of(p) == rescheduled.queue_of(p));
                        assert(rescheduled.queue_of(p) == opened.queue_of(p));
                    }
                }
                match next {
                    Some((s, blob)) => Ok(Some(DispersalTask { peer_id: peer, subnetwork_id: s, blob })),
                    None => Ok(None),
                }
            },
            Err(error) => Err(error),
        }
    }

    /// The known address of a peer to dial, if any.
    pub fn dial_address(&self, peer_id: &PeerKey) -> (r: Option<Address>)
        requires
            self.well_formed(),
        ensures
            match r {
                Some(a) => self.addresses_view().contains_key(peer_id@) && a@ == self.addresses_view()[peer_id@],
                None => !self.addresses_view().contains_key(peer_id@),
            },
    {
        match self.addresses.get_address(peer_id) {
            Some(a) => {
                let copy = a.clone();
                assert(copy@ =~= a@);
                Some(copy)
            },
            None => None,
        }
    }
}

} // verus!
