use vstd::prelude::*;
use std::collections::VecDeque;
use indexmap::IndexMap;
use std::collections::hash_map::RandomState;
use std::time::Duration;
use cached::{Cached, LruTtlCache};
use crate::assignations::MembershipHandler;
use crate::errors::ReplicationError;
use crate::messages::{ReplicationRequest, ReplicationResponseId, SubnetworkId, same_request, replication_id_bytes};
use crate::peer::{PeerKey, key_set, holds_key, distinct_keys, contains_key};
use crate::peer_map::PeerMap;

verus! {

#[verifier::external_type_specification]
#[verifier::external_body]
#[verifier::reject_recursive_types(K)]
#[verifier::reject_recursive_types(V)]
#[verifier::reject_recursive_types(S)]
pub struct ExIndexMap<K, V, S>(IndexMap<K, V, S>);

/// Pending outbound messages per peer, keyed by the bytes of the peer id,
/// in the order the peers were first given a message.
pub type PendingQueues = IndexMap<Vec<u8>, VecDeque<ReplicationRequest>>;

/// The entries of a map of pending queues, in the map's order: each peer
/// with its queue, oldest message first.
pub uninterp spec fn pending_queues(m: IndexMap<Vec<u8>, VecDeque<ReplicationRequest>>) -> Seq<
    (Seq<u8>, Seq<ReplicationRequest>),
>;

/// No peer has two entries.
pub open spec fn distinct_queue_keys(e: Seq<(Seq<u8>, Seq<ReplicationRequest>)>) -> bool {
    forall|i: int, j: int| 0 <= i < j < e.len() ==> #[trigger] e[i].0 != #[trigger] e[j].0
}

/// Whether `k` has an entry.
pub open spec fn has_queue(e: Seq<(Seq<u8>, Seq<ReplicationRequest>)>, k: Seq<u8>) -> bool {
    exists|i: int| 0 <= i < e.len() && #[trigger] e[i].0 == k
}

/// The position of the entry of `k`, when it has one.
pub open spec fn queue_index(e: Seq<(Seq<u8>, Seq<ReplicationRequest>)>, k: Seq<u8>) -> int {
    choose|i: int| 0 <= i < e.len() && #[trigger] e[i].0 == k
}

/// `IndexMap::new`: a map with no entry.
#[verifier::external_body]
fn queues_new() -> (m: PendingQueues)
    ensures
        pending_queues(m) == Seq::<(Seq<u8>, Seq<ReplicationRequest>)>::empty(),
{
    IndexMap::new()
}

/// `IndexMap::len`: the number of entries.
#[verifier::external_body]
fn queues_len(m: &PendingQueues) -> (n: usize)
    ensures
        n == pending_queues(*m).len(),
{
    m.len()
}

/// `IndexMap::get_index_of`: the position of the entry of a key, `None`
/// when it has none.
#[verifier::external_body]
fn queues_index_of(m: &PendingQueues, key: &Vec<u8>) -> (r: Option<usize>)
    ensures
        match r {
            Some(i) => i < pending_queues(*m).len() && pending_queues(*m)[i as int].0 == key@,
            None => !has_queue(pending_queues(*m), key@),
        },
{
    m.get_index_of(key)
}

/// A borrowed entry of a map of pending queues: key and queue.
pub type QueueEntry<'a> = (&'a Vec<u8>, &'a VecDeque<ReplicationRequest>);

/// `IndexMap::get_index`: the key and queue at a position, `None` past the
/// end.
#[verifier::external_body]
fn queues_get_index<'a>(m: &'a PendingQueues, index: usize) -> (r: Option<QueueEntry<'a>>)
    ensures
        index < pending_queues(*m).len() ==> r is Some && (r->0).0@ == pending_queues(*m)[index as int].0
            && (r->0).1@ == pending_queues(*m)[index as int].1,
        index >= pending_queues(*m).len() ==> r is None,
{
    m.get_index(index)
}

/// `IndexMap::insert`: a key already present keeps its position and gets
/// the new queue, and the old queue is returned; a new key is added last.
#[verifier::external_body]
fn queues_insert(m: &mut PendingQueues, key: Vec<u8>, queue: VecDeque<ReplicationRequest>) -> (r: Option<
    VecDeque<ReplicationRequest>,
>)
    ensures
        has_queue(pending_queues(*old(m)), key@) ==> {
            let i = queue_index(pending_queues(*old(m)), key@);
            &&& pending_queues(*final(m)) == pending_queues(*old(m)).update(i, (key@, queue@))
            &&& r matches Some(q) && q@ == pending_queues(*old(m))[i].1
        },
        !has_queue(pending_queues(*old(m)), key@) ==> {
            &&& pending_queues(*final(m)) == pending_queues(*old(m)).push((key@, queue@))
            &&& r is None
        },
{
    m.insert(key, queue)
}

/// `IndexMap::shift_remove`: removes the entry of a key, shifting the later
/// entries down one position, and returns its queue.
#[verifier::external_body]
fn queues_shift_remove(m: &mut PendingQueues, key: &Vec<u8>) -> (r: Option<VecDeque<ReplicationRequest>>)
    ensures
        has_queue(pending_queues(*old(m)), key@) ==> {
            let i = queue_index(pending_queues(*old(m)), key@);
            &&& pending_queues(*final(m)) == pending_queues(*old(m)).remove(i)
            &&& r matches Some(q) && q@ == pending_queues(*old(m))[i].1
        },
        !has_queue(pending_queues(*old(m)), key@) ==> {
            &&& pending_queues(*final(m)) == pending_queues(*old(m))
            &&& r is None
        },
{
    m.shift_remove(key)
}

/// Whether the write half of the stream to a peer is free.
#[derive(Debug, PartialEq, Eq, Structural, Clone, Copy)]
pub enum WriteHalfState {
    Idle,
    Busy,
}

impl WriteHalfState {
    /// Takes the state out, leaving `Busy` behind.
    pub fn take(&mut self) -> (r: WriteHalfState)
        ensures
            r == *old(self),
            *final(self) == WriteHalfState::Busy,
    {
        let r = *self;
        *self = WriteHalfState::Busy;
        r
    }
}

/// A peer's stream can take a message: its write half is idle or the stream
/// is not open yet.
pub open spec fn is_idle(streams: Map<Seq<u8>, WriteHalfState>, peer: Seq<u8>) -> bool {
    !streams.contains_key(peer) || streams[peer] == WriteHalfState::Idle
}

/// The entry at `k` has a pending message and a stream that can take it.
pub open spec fn ready(
    e: Seq<(Seq<u8>, Seq<ReplicationRequest>)>,
    streams: Map<Seq<u8>, WriteHalfState>,
    k: int,
) -> bool {
    e[k].1.len() > 0 && is_idle(streams, e[k].0)
}

/// The `t`-th position visited when scanning `n` positions in a cycle from
/// `start`.
pub open spec fn scan_pos(start: int, t: int, n: int) -> int {
    if start + t < n {
        start + t
    } else {
        start + t - n
    }
}

/// The first ready position among the `t`-th and later positions of the
/// scan.
pub open spec fn first_ready_from(
    e: Seq<(Seq<u8>, Seq<ReplicationRequest>)>,
    streams: Map<Seq<u8>, WriteHalfState>,
    start: int,
    t: int,
) -> Option<int>
    decreases e.len() - t,
{
    if t >= e.len() || t < 0 {
        None
    } else if ready(e, streams, scan_pos(start, t, e.len() as int)) {
        Some(scan_pos(start, t, e.len() as int))
    } else {
        first_ready_from(e, streams, start, t + 1)
    }
}

/// Where the round-robin scan starts: just after the previous peer, or at
/// the first peer when there is none.
pub open spec fn scan_start(e: Seq<(Seq<u8>, Seq<ReplicationRequest>)>, previous: Option<Seq<u8>>) -> int {
    match previous {
        Some(p) => queue_index(e, p) + 1,
        None => 0,
    }
}

/// The peer that round-robin scheduling picks next: scanning all peers once,
/// starting after `previous` and wrapping around to end with it, the first
/// one with a pending message and a free stream.
pub open spec fn round_robin(
    e: Seq<(Seq<u8>, Seq<ReplicationRequest>)>,
    streams: Map<Seq<u8>, WriteHalfState>,
    previous: Option<Seq<u8>>,
) -> Option<Seq<u8>> {
    match first_ready_from(e, streams, scan_start(e, previous), 0) {
        Some(k) => Some(e[k].0),
        None => None,
    }
}

/// The next peer whose pending message can be written: see [`round_robin`].
/// The previous peer must have an entry.
pub fn next_peer(
    previous: Option<&PeerKey>,
    pending_outbound_messages: &PendingQueues,
    streams: &PeerMap<WriteHalfState>,
) -> (r: Option<PeerKey>)
    requires
        distinct_queue_keys(pending_queues(*pending_outbound_messages)),
        previous matches Some(p) ==> has_queue(pending_queues(*pending_outbound_messages), p@),
    ensures
        match round_robin(
            pending_queues(*pending_outbound_messages),
            streams@,
            match previous {
                Some(p) => Some(p@),
                None => None,
            },
        ) {
            Some(k) => r matches Some(p) && p@ == k,
            None => r is None,
        },
{
    let ghost e = pending_queues(*pending_outbound_messages);
    let ghost prev = match previous {
        Some(p) => Some(p@),
        None => None,
    };
    let n = queues_len(pending_outbound_messages);
    let start: usize = match previous {
        Some(p) => {
            let i = queues_index_of(pending_outbound_messages, &p.bytes).unwrap();
            proof {
                assert(e[queue_index(e, p@)].0 == p@);
                assert(e[i as int].0 == p@);
                if queue_index(e, p@) != i as int {
                    let a = queue_index(e, p@);
                    if a < i {
                        assert(e[a].0 != e[i as int].0);
                    } else {
                        assert(e[i as int].0 != e[a].0);
                    }
                }
            }
            i + 1
        },
        None => 0,
    };
    assert(start == scan_start(e, prev));
    let mut t: usize = 0;
    while t < n
        invariant
            n == e.len(),
            e == pending_queues(*pending_outbound_messages),
            start <= n,
            t <= n,
            start == scan_start(e, prev),
            prev == match previous {
                Some(p) => Some(p@),
                None => None,
            },
            first_ready_from(e, streams@, start as int, 0) == first_ready_from(
                e,
                streams@,
                start as int,
                t as int,
            ),
        decreases n - t,
    {
        let k: usize = if t < n - start {
            start + t
        } else {
            t - (n - start)
        };
        assert(k as int == scan_pos(start as int, t as int, n as int));
        let (key, queue) = queues_get_index(pending_outbound_messages, k).unwrap();
        if queue.len() > 0 {
            let p = PeerKey::from_bytes(key.clone());
            assert(p@ =~= key@);
            let idle = match streams.get(&p) {
                Some(state) => *state == WriteHalfState::Idle,
                None => true,
            };
            if idle {
                assert(e[k as int].0 == p@);
                assert(ready(e, streams@, k as int));
                assert(first_ready_from(e, streams@, start as int, t as int) == Some(k as int));
                return Some(p);
            }
        }
        t = t + 1;
    }
    None
}

/// Where the round-robin marker `marker` stands once `disconnected` lost its
/// queue, `before` and `after` being the queues around that: a marker on
/// another peer stays; a marker on the disconnected peer moves back to the
/// peer before it, wrapping to the last one, and goes when no queue is left.
pub open spec fn marker_after_disconnect(
    before: Seq<(Seq<u8>, Seq<ReplicationRequest>)>,
    after: Seq<(Seq<u8>, Seq<ReplicationRequest>)>,
    marker: Option<Seq<u8>>,
    disconnected: Seq<u8>,
) -> Option<Seq<u8>> {
    match marker {
        None => None,
        Some(p) => if p == disconnected {
            let i = queue_index(before, p);
            if i == 0 {
                if after.len() == 0 {
                    None
                } else {
                    Some(after.last().0)
                }
            } else {
                Some(after[i - 1].0)
            }
        } else {
            Some(p)
        },
    }
}


/// The pending queues after a peer disconnects, and the corrected marker
/// of the last scheduled peer: the disconnected peer's entry goes; when the
/// marker pointed at it, the marker moves back one entry, wrapping around
/// to the last entry, or clears when no entry is left; otherwise the marker
/// stays.
pub fn on_disconnected(
    messages: &mut PendingQueues,
    last_scheduled: Option<PeerKey>,
    disconnected: &PeerKey,
) -> (r: Option<PeerKey>)
    requires
        distinct_queue_keys(pending_queues(*old(messages))),
        last_scheduled matches Some(p) ==> has_queue(pending_queues(*old(messages)), p@),
    ensures
        has_queue(pending_queues(*old(messages)), disconnected@) ==> pending_queues(*final(messages))
            == pending_queues(*old(messages)).remove(
            queue_index(pending_queues(*old(messages)), disconnected@),
        ),
        !has_queue(pending_queues(*old(messages)), disconnected@) ==> pending_queues(
            *final(messages),
        ) == pending_queues(*old(messages)),
        distinct_queue_keys(pending_queues(*final(messages))),
        match last_scheduled {
            None => r is None,
            Some(p) => if p@ == disconnected@ {
                let i = queue_index(pending_queues(*old(messages)), p@);
                let after = pending_queues(*final(messages));
                if i == 0 {
                    if after.len() == 0 {
                        r is None
                    } else {
                        r matches Some(q) && q@ == after.last().0
                    }
                } else {
                    r matches Some(q) && q@ == after[i - 1].0
                }
            } else {
                r matches Some(q) && q@ == p@
            },
        },
        r matches Some(q) ==> has_queue(pending_queues(*final(messages)), q@),
{
    let ghost before = pending_queues(*messages);
    let marker_index = match &last_scheduled {
        Some(p) => queues_index_of(messages, &p.bytes),
        None => None,
    };
    queues_shift_remove(messages, &disconnected.bytes);
    let ghost after = pending_queues(*messages);
    proof {
        assert forall|i: int, j: int| 0 <= i < j < after.len() implies #[trigger] after[i].0
            != #[trigger] after[j].0 by {
            if has_queue(before, disconnected@) {
                let d = queue_index(before, disconnected@);
                if i < d {
                    if j < d {
                        assert(after[j] == before[j]);
                    } else {
                        assert(after[j] == before[j + 1]);
                    }
                } else {
                    assert(after[i] == before[i + 1]);
                    assert(after[j] == before[j + 1]);
                }
            }
        }
    }
    match last_scheduled {
        None => None,
        Some(p) => {
            let i = marker_index.unwrap();
            proof {
                let a = queue_index(before, p@);
                assert(before[a].0 == p@);
                if a != i as int {
                    if a < i {
                        assert(before[a].0 != before[i as int].0);
                    } else {
                        assert(before[i as int].0 != before[a].0);
                    }
                }
            }
            if p.same_as(disconnected) {
                if i == 0 {
                    let n = queues_len(messages);
                    if n == 0 {
                        None
                    } else {
                        let (key, _) = queues_get_index(messages, n - 1).unwrap();
                        let q = PeerKey::from_bytes(key.clone());
                        assert(q@ =~= key@);
                        assert(after[n - 1].0 == q@);
                        Some(q)
                    }
                } else {
                    let (key, _) = queues_get_index(messages, i - 1).unwrap();
                    let q = PeerKey::from_bytes(key.clone());
                    assert(q@ =~= key@);
                    assert(after[i - 1].0 == q@);
                    Some(q)
                }
            } else {
                proof {
                    let d = queue_index(before, disconnected@);
                    if has_queue(before, disconnected@) {
                        if i < d {
                            assert(after[i as int] == before[i as int]);
                        } else {
                            assert(i != d);
                            assert(after[i - 1] == before[i as int]);
                        }
                    }
                }
                Some(p)
            }
        },
    }
}

/// The queue of `k`, empty when it has no entry.
pub open spec fn queue_of(e: Seq<(Seq<u8>, Seq<ReplicationRequest>)>, k: Seq<u8>) -> Seq<ReplicationRequest> {
    if has_queue(e, k) {
        e[queue_index(e, k)].1
    } else {
        Seq::empty()
    }
}

/// In a map without repeated keys, the entry found at `i` is the entry of
/// its key.
pub proof fn lemma_queue_index_unique(e: Seq<(Seq<u8>, Seq<ReplicationRequest>)>, i: int)
    requires
        distinct_queue_keys(e),
        0 <= i < e.len(),
    ensures
        has_queue(e, e[i].0),
        queue_index(e, e[i].0) == i,
{
    let k = e[i].0;
    assert(has_queue(e, k));
    let a = queue_index(e, k);
    if a != i {
        if a < i {
            assert(e[a].0 != e[i].0);
        } else {
            assert(e[i].0 != e[a].0);
        }
    }
}

/// Replacing the queue of an entry, or adding an entry for a new key, keeps
/// the keys distinct and changes only that key's queue.
pub proof fn lemma_queue_of_set(
    before: Seq<(Seq<u8>, Seq<ReplicationRequest>)>,
    after: Seq<(Seq<u8>, Seq<ReplicationRequest>)>,
    k: Seq<u8>,
    q: Seq<ReplicationRequest>,
)
    requires
        distinct_queue_keys(before),
        has_queue(before, k) ==> after == before.update(queue_index(before, k), (k, q)),
        !has_queue(before, k) ==> after == before.push((k, q)),
    ensures
        distinct_queue_keys(after),
        after.len() >= before.len(),
        forall|i: int| 0 <= i < before.len() ==> #[trigger] after[i].0 == before[i].0,
        queue_of(after, k) == q,
        has_queue(after, k),
        forall|x: Seq<u8>| x != k ==> #[trigger] has_queue(after, x) == has_queue(before, x),
        forall|x: Seq<u8>| x != k ==> #[trigger] queue_of(after, x) == queue_of(before, x),
{
    assert forall|i: int, j: int| 0 <= i < j < after.len() implies #[trigger] after[i].0
        != #[trigger] after[j].0 by {
        if has_queue(before, k) {
            let a = queue_index(before, k);
            if i != a && j != a {
                assert(before[i].0 != before[j].0);
            } else if i == a {
                assert(before[a].0 == k);
                assert(before[i].0 != before[j].0);
            } else {
                assert(before[a].0 == k);
                assert(before[i].0 != before[j].0);
            }
        } else {
            if j < before.len() {
                assert(before[i].0 != before[j].0);
            } else {
                assert(after[i].0 == before[i].0);
                assert(before[i].0 != k);
            }
        }
    }
    let n = if has_queue(before, k) {
        queue_index(before, k)
    } else {
        before.len() as int
    };
    assert(after[n].0 == k);
    lemma_queue_index_unique(after, n);
    assert forall|x: Seq<u8>| x != k implies #[trigger] has_queue(after, x) == has_queue(before, x)
        && queue_of(after, x) == queue_of(before, x) by {
        if has_queue(before, k) {
            assert(before[n].0 == k);
        }
        if has_queue(before, x) {
            let b = queue_index(before, x);
            assert(before[b].0 == x);
            assert(b != n);
            assert(after[b] == before[b]);
            lemma_queue_index_unique(after, b);
        }
        if has_queue(after, x) {
            let b = queue_index(after, x);
            assert(after[b].0 == x);
            assert(b != n);
            assert(after[b] == before[b]);
            lemma_queue_index_unique(before, b);
        }
    }
}

/// The peer a request could not be dequeued for has no queue.
#[derive(Debug)]
pub struct PeerNotFound;

/// Holds pending outbound messages for each peer and picks which peer's
/// next message is written next: peers take turns, one message at a time.
pub struct PendingOutbound {
    messages: PendingQueues,
    last_scheduled: Option<PeerKey>,
}

impl PendingOutbound {
    /// The peers with their queues, in the order they were first given a
    /// message.
    pub closed spec fn entries(&self) -> Seq<(Seq<u8>, Seq<ReplicationRequest>)> {
        pending_queues(self.messages)
    }

    /// The last peer scheduled.
    pub closed spec fn marker(&self) -> Option<Seq<u8>> {
        match self.last_scheduled {
            Some(p) => Some(p@),
            None => None,
        }
    }

    /// No peer has two queues and the last scheduled peer has one.
    #[verifier::type_invariant]
    spec fn queues_consistent(self) -> bool {
        &&& distinct_queue_keys(self.entries())
        &&& self.marker() matches Some(p) ==> has_queue(self.entries(), p)
    }

    /// No pending message and no peer scheduled yet.
    pub fn new() -> (p: PendingOutbound)
        ensures
            p.entries() == Seq::<(Seq<u8>, Seq<ReplicationRequest>)>::empty(),
            p.marker() is None,
    {
        PendingOutbound { messages: queues_new(), last_scheduled: None }
    }

    /// Appends a message to the peer's queue, giving the peer a queue, last
    /// in order, if it has none.
    pub fn enqueue_message(&mut self, peer_id: &PeerKey, message: ReplicationRequest)
        ensures
            final(self).marker() == old(self).marker(),
            queue_of(final(self).entries(), peer_id@) == queue_of(old(self).entries(), peer_id@).push(
                message,
            ),
            has_queue(final(self).entries(), peer_id@),
            forall|x: Seq<u8>| x != peer_id@ ==> #[trigger] queue_of(final(self).entries(), x) == queue_of(
                old(self).entries(),
                x,
            ),
            forall|x: Seq<u8>| x != peer_id@ ==> #[trigger] has_queue(final(self).entries(), x) == has_queue(
                old(self).entries(),
                x,
            ),
            final(self).entries().len() >= old(self).entries().len(),
            forall|i: int|
                0 <= i < old(self).entries().len() ==> #[trigger] final(self).entries()[i].0 == old(
                    self,
                ).entries()[i].0,
    {
        proof {
            use_type_invariant(&*self);
        }
        let mut taken = PendingOutbound::new();
        std::mem::swap(self, &mut taken);
        let PendingOutbound { mut messages, last_scheduled } = taken;
        let ghost before = pending_queues(messages);
        let key = peer_id.duplicate().bytes;
        match queues_index_of(&messages, &key) {
            Some(i) => {
                proof {
                    lemma_queue_index_unique(before, i as int);
                }
                let mut queue = queues_insert(&mut messages, key.clone(), VecDeque::new()).unwrap();
                let ghost mid = pending_queues(messages);
                proof {
                    assert(mid[i as int].0 == key@);
                    assert forall|a: int, b: int| 0 <= a < b < mid.len() implies #[trigger] mid[a].0
                        != #[trigger] mid[b].0 by {
                        assert(mid[a].0 == before[a].0 && mid[b].0 == before[b].0);
                    }
                    lemma_queue_index_unique(mid, i as int);
                }
                queue.push_back(message);
                let ghost q = queue@;
                let key2 = key.clone();
                assert(key2@ =~= key@);
                queues_insert(&mut messages, key2, queue);
                proof {
                    assert(pending_queues(messages) =~= before.update(i as int, (key@, q)));
                    lemma_queue_of_set(before, pending_queues(messages), key@, q);
                }
            },
            None => {
                let mut queue: VecDeque<ReplicationRequest> = VecDeque::new();
                queue.push_back(message);
                let ghost q = queue@;
                queues_insert(&mut messages, key, queue);
                proof {
                    assert(q =~= Seq::<ReplicationRequest>::empty().push(message));
                    lemma_queue_of_set(before, pending_queues(messages), peer_id@, q);
                }
            },
        }
        proof {
            let after = pending_queues(messages);
            if last_scheduled is Some {
                let m = last_scheduled->0@;
                if m != peer_id@ {
                    assert(has_queue(after, m) == has_queue(before, m));
                }
            }
        }
        *self = PendingOutbound { messages, last_scheduled };
    }

    /// Takes the oldest message of the peer's queue: `Ok(None)` when the
    /// queue is empty, `Err` when the peer has no queue.
    pub fn dequeue_message(&mut self, peer_id: &PeerKey) -> (r: Result<Option<ReplicationRequest>, PeerNotFound>)
        ensures
            final(self).marker() == old(self).marker(),
            !has_queue(old(self).entries(), peer_id@) ==> r is Err && final(self).entries() == old(self).entries(),
            has_queue(old(self).entries(), peer_id@) ==> {
                let q = queue_of(old(self).entries(), peer_id@);
                let i = queue_index(old(self).entries(), peer_id@);
                if q.len() == 0 {
                    r == Ok::<Option<ReplicationRequest>, PeerNotFound>(None) && final(self).entries()
                        == old(self).entries()
                } else {
                    &&& r == Ok::<Option<ReplicationRequest>, PeerNotFound>(Some(q[0]))
                    &&& final(self).entries() == old(self).entries().update(i, (peer_id@, q.drop_first()))
                }
            },
    {
        proof {
            use_type_invariant(&*self);
        }
        let mut taken = PendingOutbound::new();
        std::mem::swap(self, &mut taken);
        let PendingOutbound { mut messages, last_scheduled } = taken;
        let ghost before = pending_queues(messages);
        let key = peer_id.duplicate().bytes;
        match queues_index_of(&messages, &key) {
            None => {
                *self = PendingOutbound { messages, last_scheduled };
                Err(PeerNotFound)
            },
            Some(i) => {
                proof {
                    lemma_queue_index_unique(before, i as int);
                }
                let mut queue = queues_insert(&mut messages, key.clone(), VecDeque::new()).unwrap();
                let ghost mid = pending_queues(messages);
                proof {
                    assert(mid[i as int].0 == key@);
                    assert forall|a: int, b: int| 0 <= a < b < mid.len() implies #[trigger] mid[a].0
                        != #[trigger] mid[b].0 by {
                        assert(mid[a].0 == before[a].0 && mid[b].0 == before[b].0);
                    }
                    lemma_queue_index_unique(mid, i as int);
                }
                let ghost q0 = queue@;
                let message = queue.pop_front();
                let ghost q = queue@;
                let key2 = key.clone();
                assert(key2@ =~= key@);
                queues_insert(&mut messages, key2, queue);
                proof {
                    let after = pending_queues(messages);
                    assert(after =~= before.update(i as int, (key@, q)));
                    if q0.len() == 0 {
                        assert(before[i as int] == (key@, q0));
                        assert(after =~= before);
                    }
                    lemma_queue_of_set(before, after, key@, q);
                    if last_scheduled is Some {
                        let m = last_scheduled->0@;
                        if m != peer_id@ {
                            assert(has_queue(after, m) == has_queue(before, m));
                        }
                    }
                }
                *self = PendingOutbound { messages, last_scheduled };
                Ok(message)
            },
        }
    }

    /// Drops the queue of a disconnected peer; a marker on it moves back one
    /// peer (see [`on_disconnected`]).
    pub fn on_disconnected(&mut self, peer_id: &PeerKey)
        ensures
            has_queue(old(self).entries(), peer_id@) ==> final(self).entries() == old(self).entries().remove(
                queue_index(old(self).entries(), peer_id@),
            ),
            !has_queue(old(self).entries(), peer_id@) ==> final(self).entries() == old(self).entries(),
            final(self).marker() == marker_after_disconnect(
                old(self).entries(),
                final(self).entries(),
                old(self).marker(),
                peer_id@,
            ),
    {
        proof {
            use_type_invariant(&*self);
        }
        let mut taken = PendingOutbound::new();
        std::mem::swap(self, &mut taken);
        let PendingOutbound { mut messages, last_scheduled } = taken;
        let last_scheduled = on_disconnected(&mut messages, last_scheduled, peer_id);
        *self = PendingOutbound { messages, last_scheduled };
    }

    /// The next peer whose pending message can be written, in round-robin
    /// order after the last one scheduled (see [`round_robin`]); it becomes
    /// the last one scheduled.
    pub fn next_peer(&mut self, streams: &PeerMap<WriteHalfState>) -> (r: Option<PeerKey>)
        ensures
            final(self).entries() == old(self).entries(),
            match round_robin(old(self).entries(), streams@, old(self).marker()) {
                Some(k) => r matches Some(p) && p@ == k,
                None => r is None,
            },
            final(self).marker() == match r {
                Some(p) => Some(p@),
                None => None,
            },
    {
        proof {
            use_type_invariant(&*self);
        }
        let next = next_peer(self.last_scheduled.as_ref(), &self.messages, streams);
        let marker = match &next {
            Some(p) => Some(p.duplicate()),
            None => None,
        };
        proof {
            let e = pending_queues(self.messages);
            let s = scan_start(e, self.marker());
            if let Some(k) = first_ready_from(e, streams@, s, 0) {
                lemma_first_ready_in_range(e, streams@, s, 0);
                assert(has_queue(e, e[k].0));
            }
        }
        self.last_scheduled = marker;
        next
    }

    /// Whether no peer has a queue.
    pub fn is_empty(&self) -> (r: bool)
        ensures
            r == (self.entries().len() == 0),
    {
        queues_len(&self.messages) == 0
    }
}

/// A position found by the scan is a position of the map.
pub proof fn lemma_first_ready_in_range(
    e: Seq<(Seq<u8>, Seq<ReplicationRequest>)>,
    streams: Map<Seq<u8>, WriteHalfState>,
    start: int,
    t: int,
)
    requires
        0 <= start <= e.len(),
        0 <= t,
    ensures
        first_ready_from(e, streams, start, t) matches Some(k) ==> 0 <= k < e.len() && ready(
            e,
            streams,
            k,
        ),
    decreases e.len() - t,
{
    if t < e.len() {
        lemma_first_ready_in_range(e, streams, start, t + 1);
    }
}

#[verifier::external_type_specification]
#[verifier::external_body]
#[verifier::reject_recursive_types(K)]
#[verifier::reject_recursive_types(V)]
#[verifier::reject_recursive_types(S)]
pub struct ExLruTtlCache<K, V, S>(LruTtlCache<K, V, S>);

/// Cache of the ids of messages already seen: least recently used entries
/// go when it is full, and entries expire a set time after they were last
/// looked up.
pub type SeenCache = LruTtlCache<ReplicationResponseId, (), RandomState>;

/// The whole seconds of a duration, as `Duration::as_secs` gives them.
pub uninterp spec fn duration_whole_secs(ttl: Duration) -> u64;

/// `Duration::as_secs`: the whole seconds of `ttl`, fractions dropped.
/// `Duration` is opaque here, so the result is only named.
#[verifier::external_body]
fn whole_seconds(ttl: Duration) -> (secs: u64)
    ensures
        secs == duration_whole_secs(ttl),
{
    ttl.as_secs()
}

/// The ids held by a cache of seen messages (by their bytes), expired or
/// not: an expired id stays until a lookup or the size limit drops it.
pub uninterp spec fn seen_ids(cache: SeenCache) -> Set<Seq<u8>>;

/// The number of entries a cache of seen messages was built to hold.
pub uninterp spec fn seen_capacity(cache: SeenCache) -> nat;

/// Builds the cache of seen messages with `cached`'s `LruTtlCache`
/// builder: `size` entries, a time to live of `ttl_secs` seconds, refreshed
/// on each hit, hashing with std's `RandomState`. The builder refuses a
/// size of zero and a zero time to live; a cache it builds is empty and
/// holds `size` entries at most. It also refuses a size whose store cannot
/// be allocated, which is not stated.
#[verifier::external_body]
fn seen_cache_build(size: usize, ttl_secs: u64) -> (r: Option<SeenCache>)
    ensures
        size == 0 || ttl_secs == 0 ==> r is None,
        r matches Some(c) ==> seen_ids(c) == Set::<Seq<u8>>::empty() && seen_capacity(c) == size,
{
    let ttl = Duration::from_secs(ttl_secs);
    LruTtlCache::builder().max_size(size).ttl(ttl).refresh_on_hit(true).hasher(RandomState::new()).build().ok()
}

/// `Cached::cache_get` on the cache of seen messages: whether `id` is held
/// and has not expired. Which of the two it answers for a held id depends
/// on the clock; what is stated holds either way: a "seen" answer means the
/// id is held, and the held ids stay; otherwise the id is no longer held
/// (an expired entry is dropped) and the other ids stay.
#[verifier::external_body]
fn seen_cache_get(cache: &mut SeenCache, id: &ReplicationResponseId) -> (r: bool)
    ensures
        seen_capacity(*final(cache)) == seen_capacity(*old(cache)),
        r ==> seen_ids(*old(cache)).contains(id.bytes@) && seen_ids(*final(cache)) == seen_ids(*old(cache)),
        !r ==> seen_ids(*final(cache)) == seen_ids(*old(cache)).remove(id.bytes@),
{
    cache.cache_get(id).is_some()
}

/// `Cached::cache_set` on the cache of seen messages: records `id` as seen
/// now, as the most recently used entry. With room for at least one entry
/// it is held afterwards; to make room the least recently used ids may go.
/// When it expires depends on the clock, which is not stated.
#[verifier::external_body]
fn seen_cache_set(cache: &mut SeenCache, id: ReplicationResponseId)
    ensures
        seen_capacity(*final(cache)) == seen_capacity(*old(cache)),
        seen_capacity(*old(cache)) > 0 ==> seen_ids(*final(cache)).contains(id.bytes@),
        seen_ids(*final(cache)).subset_of(seen_ids(*old(cache)).insert(id.bytes@)),
{
    cache.cache_set(id, ());
}

/// The cache of seen messages a replication behaviour keeps, if any: none
/// when the time to live is under a second, since entries would expire at
/// once.
pub struct SeenMessages {
    cache: Option<SeenCache>,
}

impl SeenMessages {
    /// A kept cache has room for at least one id.
    #[verifier::type_invariant]
    spec fn has_room(self) -> bool {
        self.cache matches Some(c) ==> seen_capacity(c) > 0
    }

    /// Whether a cache is kept.
    pub closed spec fn remembers(&self) -> bool {
        self.cache is Some
    }

    /// The ids the kept cache holds, by their bytes; none without a cache.
    pub closed spec fn ids(&self) -> Set<Seq<u8>> {
        match self.cache {
            Some(c) => seen_ids(c),
            None => Set::empty(),
        }
    }

    fn without_cache() -> (r: SeenMessages)
        ensures
            !r.remembers(),
            r.ids() == Set::<Seq<u8>>::empty(),
    {
        SeenMessages { cache: None }
    }

    fn with_cache(cache: SeenCache) -> (r: SeenMessages)
        requires
            seen_capacity(cache) > 0,
        ensures
            r.remembers(),
            r.ids() == seen_ids(cache),
    {
        SeenMessages { cache: Some(cache) }
    }

    /// Whether the kept cache answers that `id` was seen; if not, `id` is
    /// recorded. Without a cache every id is new.
    fn check_and_record(&mut self, id: ReplicationResponseId) -> (seen: bool)
        ensures
            final(self).remembers() == old(self).remembers(),
            !old(self).remembers() ==> !seen && final(self).ids() == old(self).ids(),
            old(self).remembers() ==> final(self).ids().contains(id.bytes@),
            seen ==> old(self).ids().contains(id.bytes@),
            final(self).ids().subset_of(old(self).ids().insert(id.bytes@)),
    {
        proof {
            use_type_invariant(&*self);
        }
        let mut cache: Option<SeenCache> = None;
        std::mem::swap(&mut cache, &mut self.cache);
        let seen = match &mut cache {
            Some(c) => {
                let seen = seen_cache_get(c, &id);
                if !seen {
                    seen_cache_set(c, id);
                }
                seen
            },
            None => false,
        };
        self.cache = cache;
        seen
    }
}

/// Settings of the replication protocol: the size of the cache of seen
/// messages and how long an entry lives there.
#[derive(Debug, Clone, Copy)]
pub struct ReplicationConfig {
    pub seen_message_cache_size: usize,
    pub seen_message_ttl: Duration,
}

/// Replication settings as the node's configuration gives them; they carry
/// the same two values as [`ReplicationConfig`].
#[derive(Debug, Clone, Copy, Default)]
pub struct DAReplicationSettings {
    pub seen_message_cache_size: usize,
    pub seen_message_ttl: Duration,
}

/// What the node must do to send a scheduled message.
#[derive(Debug)]
pub enum OutboundAction {
    /// Write the message to the peer's idle write half.
    Write { peer_id: PeerKey, message: ReplicationRequest },
    /// Open a stream to the peer, then write the message to it.
    OpenAndWrite { peer_id: PeerKey, message: ReplicationRequest },
}

/// What the replication protocol reports to the node.
#[derive(Debug)]
pub enum ReplicationEvent {
    IncomingMessage { peer_id: PeerKey, message: Box<ReplicationRequest> },
    ReplicationError { error: ReplicationError },
}

/// A replication error as the event that reports it.
impl From<ReplicationError> for ReplicationEvent {
    fn from(error: ReplicationError) -> (event: Self) {
        ReplicationEvent::ReplicationError { error }
    }
}

impl vstd::std_specs::convert::FromSpecImpl<ReplicationError> for ReplicationEvent {
    open spec fn obeys_from_spec() -> bool {
        true
    }

    open spec fn from_spec(error: ReplicationError) -> Self {
        ReplicationEvent::ReplicationError { error }
    }
}

/// Decisions of the replication protocol: which peers are neighbours,
/// which connected peers a share is forwarded to, and in what order the
/// pending messages are written to the peers' streams. The streams
/// themselves are driven by the node, which reports here what happens to
/// them.
pub struct ReplicationBehaviour<Membership> {
    local_peer_id: PeerKey,
    membership: Membership,
    connected: PeerMap<()>,
    pending_outbound: PendingOutbound,
    outbound_streams: PeerMap<WriteHalfState>,
    seen_messages: SeenMessages,
}

impl<Membership: MembershipHandler> ReplicationBehaviour<Membership> {
    pub closed spec fn local_view(&self) -> Seq<u8> {
        self.local_peer_id@
    }

    pub closed spec fn membership_view(&self) -> Membership {
        self.membership
    }

    /// The connected peers.
    pub closed spec fn connected_view(&self) -> Set<Seq<u8>> {
        self.connected@.dom()
    }

    /// The pending messages.
    pub closed spec fn pending_view(&self) -> PendingOutbound {
        self.pending_outbound
    }

    /// The state of the write half of each peer's stream; a peer without
    /// an entry has no stream yet.
    pub closed spec fn streams_view(&self) -> Map<Seq<u8>, WriteHalfState> {
        self.outbound_streams@
    }

    /// Whether messages already seen are remembered; with a time to live
    /// under a second nothing is, and every message counts as new.
    pub closed spec fn remembers_seen(&self) -> bool {
        self.seen_messages.remembers()
    }

    /// The ids of the messages the cache of seen messages holds (see
    /// [`seen_ids`]); none when no cache is kept.
    pub closed spec fn seen_view(&self) -> Set<Seq<u8>> {
        self.seen_messages.ids()
    }

    /// The peers a share of `subnetwork_id` is forwarded to: the connected
    /// members of the subnetwork other than the local peer.
    pub open spec fn replication_targets(&self, subnetwork_id: SubnetworkId) -> Set<Seq<u8>> {
        self.connected_view().intersect(self.membership_view().members_of_view(subnetwork_id)).remove(
            self.local_view(),
        )
    }

    /// `peer` shares a subnetwork with the local peer.
    pub open spec fn neighbours(&self, peer: Seq<u8>) -> bool {
        exists|s: SubnetworkId|
            #![trigger self.membership_view().membership_view(peer).contains(s)]
            self.membership_view().membership_view(self.local_view()).contains(s)
                && self.membership_view().membership_view(peer).contains(s)
    }

    /// A behaviour with no connection and nothing pending; `None` when the
    /// cache of seen messages cannot be built, as when its size is zero. The
    /// time to live counts in whole seconds: under one second no cache is
    /// kept and every message counts as new.
    pub fn new(config: ReplicationConfig, peer_id: PeerKey, membership: Membership) -> (r: Option<Self>)
        ensures
            config.seen_message_cache_size == 0 ==> r is None,
            r matches Some(b) ==> {
                &&& b.local_view() == peer_id@
                &&& b.membership_view() == membership
                &&& b.connected_view() == Set::<Seq<u8>>::empty()
                &&& b.streams_view() == Map::<Seq<u8>, WriteHalfState>::empty()
                &&& b.pending_view().entries() == Seq::<(Seq<u8>, Seq<ReplicationRequest>)>::empty()
                &&& b.pending_view().marker() is None
                &&& b.seen_view() == Set::<Seq<u8>>::empty()
                &&& b.remembers_seen() == (duration_whole_secs(config.seen_message_ttl) > 0)
            },
    {
        if config.seen_message_cache_size == 0 {
            return None;
        }
        let secs = whole_seconds(config.seen_message_ttl);
        let seen_messages = if secs == 0 {
            SeenMessages::without_cache()
        } else {
            match seen_cache_build(config.seen_message_cache_size, secs) {
                None => return None,
                Some(cache) => SeenMessages::with_cache(cache),
            }
        };
        let b = ReplicationBehaviour {
            local_peer_id: peer_id,
            membership,
            connected: PeerMap::new(),
            pending_outbound: PendingOutbound::new(),
            outbound_streams: PeerMap::new(),
            seen_messages,
        };
        assert(b.connected@.dom() =~= Set::<Seq<u8>>::empty());
        Some(b)
    }

    /// Replaces the membership.
    pub fn update_membership(&mut self, membership: Membership)
        ensures
            final(self).membership_view() == membership,
            final(self).local_view() == old(self).local_view(),
            final(self).connected_view() == old(self).connected_view(),
            final(self).pending_view() == old(self).pending_view(),
            final(self).streams_view() == old(self).streams_view(),
    {
        self.membership = membership;
    }

    /// Whether `peer_id` shares a subnetwork with the local peer.
    pub fn is_neighbour(&self, peer_id: &PeerKey) -> (r: bool)
        ensures
            r == self.neighbours(peer_id@),
    {
        let local = self.membership.membership(&self.local_peer_id);
        let mut i: usize = 0;
        while i < local.len()
            invariant
                i <= local@.len(),
                local@.to_set() == self.membership_view().membership_view(self.local_view()),
                forall|j: int|
                    0 <= j < i ==> !self.membership_view().membership_view(peer_id@).contains(
                        #[trigger] local@[j],
                    ),
            decreases local@.len() - i,
        {
            if self.membership.is_member_of(peer_id, &local[i]) {
                assert(local@.contains(local@[i as int]));
                return true;
            }
            i = i + 1;
        }
        proof {
            if self.neighbours(peer_id@) {
                let s = choose|s: SubnetworkId|
                    #![trigger self.membership_view().membership_view(peer_id@).contains(s)]
                    self.membership_view().membership_view(self.local_view()).contains(s)
                        && self.membership_view().membership_view(peer_id@).contains(s);
                assert(local@.to_set().contains(s));
                let j = choose|j: int| 0 <= j < local@.len() && local@[j] == s;
                assert(!self.membership_view().membership_view(peer_id@).contains(local@[j]));
            }
        }
        false
    }

    /// The members of a subnetwork other than the local peer, each once.
    pub fn no_loopback_member_peers_of(&self, subnetwork: SubnetworkId) -> (r: Vec<PeerKey>)
        requires
            self.membership_view().has_network(subnetwork),
        ensures
            key_set(r@) == self.membership_view().members_of_view(subnetwork).remove(self.local_view()),
            distinct_keys(r@),
    {
        let members = self.membership.members_of(&subnetwork);
        let mut r: Vec<PeerKey> = Vec::new();
        let mut i: usize = 0;
        proof {
            crate::peer::lemma_key_set_empty();
            assert(key_set(members@.subrange(0, 0)) =~= Set::<Seq<u8>>::empty());
        }
        while i < members.len()
            invariant
                i <= members@.len(),
                distinct_keys(members@),
                distinct_keys(r@),
                key_set(r@) == key_set(members@.subrange(0, i as int)).remove(self.local_view()),
            decreases members@.len() - i,
        {
            let m = &members[i];
            let ghost prefix = members@.subrange(0, i as int);
            proof {
                assert(members@.subrange(0, i + 1) =~= prefix.push(*m));
                crate::peer::lemma_key_set_push(prefix, *m);
                if holds_key(prefix, m@) {
                    let j = choose|j: int| 0 <= j < prefix.len() && #[trigger] prefix[j]@ == m@;
                    assert(members@[j]@ != members@[i as int]@);
                }
            }
            if !m.same_as(&self.local_peer_id) {
                let k = m.duplicate();
                proof {
                    assert(!key_set(r@).contains(k@));
                    crate::peer::lemma_key_set_push(r@, k);
                    crate::peer::lemma_distinct_push(r@, k);
                }
                r.push(k);
            }
            proof {
                assert(key_set(r@) =~= key_set(members@.subrange(0, i + 1)).remove(self.local_view()));
            }
            i = i + 1;
        }
        proof {
            assert(members@.subrange(0, i as int) =~= members@);
        }
        r
    }

    /// Forwards a share to the connected members of its subnetwork other
    /// than the local peer, one copy queued per peer, unless it was seen
    /// already. Returns whether a copy was queued.
    pub fn replicate(&mut self, message: &ReplicationRequest, seen: bool) -> (queued: bool)
        requires
            old(self).membership_view().has_network(message.subnetwork_id),
        ensures
            final(self).local_view() == old(self).local_view(),
            final(self).membership_view() == old(self).membership_view(),
            final(self).connected_view() == old(self).connected_view(),
            final(self).streams_view() == old(self).streams_view(),
            final(self).pending_view().marker() == old(self).pending_view().marker(),
            final(self).remembers_seen() == old(self).remembers_seen(),
            final(self).seen_view() == old(self).seen_view(),
            seen ==> !queued && final(self).pending_view().entries() == old(self).pending_view().entries(),
            !seen ==> {
                let t = old(self).replication_targets(message.subnetwork_id);
                let before = old(self).pending_view().entries();
                let after = final(self).pending_view().entries();
                &&& queued == exists|x: Seq<u8>| #[trigger] t.contains(x)
                &&& after.len() >= before.len()
                &&& forall|i: int| 0 <= i < before.len() ==> #[trigger] after[i].0 == before[i].0
                &&& forall|x: Seq<u8>| #[trigger]
                    has_queue(after, x) == (has_queue(before, x) || t.contains(x))
                &&& forall|x: Seq<u8>|
                    #![trigger queue_of(after, x)]
                    t.contains(x) ==> queue_of(after, x).drop_last() == queue_of(before, x)
                        && queue_of(after, x).len() == queue_of(before, x).len() + 1 && same_request(
                        queue_of(after, x).last(),
                        *message,
                    )
                &&& forall|x: Seq<u8>| !t.contains(x) ==> #[trigger] queue_of(after, x) == queue_of(before, x)
            },
    {
        if seen {
            return false;
        }
        let ghost start = *self;
        let ghost before = self.pending_outbound.entries();
        let ghost t = self.replication_targets(message.subnetwork_id);
        let peers = self.no_loopback_member_peers_of(message.subnetwork_id);
        let connected = self.connected.keys();
        let ghost kv = connected@.map_values(|k: PeerKey| k@);
        let mut queued = false;
        let mut j: usize = 0;
        while j < connected.len()
            invariant
                j <= connected@.len(),
                kv == connected@.map_values(|k: PeerKey| k@),
                kv.to_set() == start.connected_view(),
                kv.no_duplicates(),
                key_set(peers@) == start.membership_view().members_of_view(message.subnetwork_id).remove(
                    start.local_view(),
                ),
                t == start.replication_targets(message.subnetwork_id),
                before == start.pending_view().entries(),
                self.local_view() == start.local_view(),
                self.membership_view() == start.membership_view(),
                self.connected_view() == start.connected_view(),
                self.streams_view() == start.streams_view(),
                self.pending_view().marker() == start.pending_view().marker(),
                self.remembers_seen() == start.remembers_seen(),
                self.seen_view() == start.seen_view(),
                queued == exists|i: int| 0 <= i < j && #[trigger] key_set(peers@).contains(kv[i]),
                self.pending_view().entries().len() >= before.len(),
                forall|i: int|
                    0 <= i < before.len() ==> #[trigger] self.pending_view().entries()[i].0 == before[i].0,
                forall|x: Seq<u8>| #[trigger]
                    has_queue(self.pending_view().entries(), x) == (has_queue(before, x) || (
                    kv.subrange(0, j as int).contains(x) && key_set(peers@).contains(x))),
                forall|x: Seq<u8>|
                    #![trigger queue_of(self.pending_view().entries(), x)]
                    kv.subrange(0, j as int).contains(x) && key_set(peers@).contains(x) ==> queue_of(
                        self.pending_view().entries(),
                        x,
                    ).drop_last() == queue_of(before, x) && queue_of(self.pending_view().entries(), x).len()
                        == queue_of(before, x).len() + 1 && same_request(
                        queue_of(self.pending_view().entries(), x).last(),
                        *message,
                    ),
                forall|x: Seq<u8>|
                    !(kv.subrange(0, j as int).contains(x) && key_set(peers@).contains(x)) ==> #[trigger] queue_of(
                        self.pending_view().entries(),
                        x,
                    ) == queue_of(before, x),
            decreases connected@.len() - j,
        {
            let c = &connected[j];
            let ghost x = c@;
            let ghost pre = kv.subrange(0, j as int);
            let ghost next = kv.subrange(0, j + 1);
            proof {
                assert(kv[j as int] == x);
                assert(next =~= pre.push(x));
                assert(!pre.contains(x)) by {
                    if pre.contains(x) {
                        let a = choose|a: int| 0 <= a < pre.len() && pre[a] == x;
                        assert(kv[a] == kv[j as int]);
                    }
                }
                assert forall|y: Seq<u8>| y != x implies next.contains(y) == pre.contains(y) by {
                    if next.contains(y) {
                        let a = choose|a: int| 0 <= a < next.len() && next[a] == y;
                        assert(pre[a] == y);
                    }
                    if pre.contains(y) {
                        let a = choose|a: int| 0 <= a < pre.len() && pre[a] == y;
                        assert(next[a] == y);
                    }
                }
                assert(next[j as int] == x);
            }
            let ghost mid = self.pending_view().entries();
            if contains_key(&peers, c) {
                let copy = message.duplicate();
                let mut pending = PendingOutbound::new();
                std::mem::swap(&mut pending, &mut self.pending_outbound);
                pending.enqueue_message(c, copy);
                self.pending_outbound = pending;
                queued = true;
                proof {
                    assert(key_set(peers@).contains(x));
                    let after = self.pending_view().entries();
                    assert(queue_of(after, x) == queue_of(mid, x).push(copy));
                    assert(queue_of(after, x).drop_last() =~= queue_of(mid, x));
                    assert(kv.subrange(0, j + 1).contains(x));
                    assert forall|y: Seq<u8>| #[trigger]
                        has_queue(after, y) == (has_queue(before, y) || (kv.subrange(0, j + 1).contains(y)
                            && key_set(peers@).contains(y))) by {
                        if y != x {
                            assert(has_queue(after, y) == has_queue(mid, y));
                        }
                    }
                    assert forall|y: Seq<u8>|
                        #![trigger queue_of(after, y)]
                        kv.subrange(0, j + 1).contains(y) && key_set(peers@).contains(y) implies queue_of(
                            after,
                            y,
                        ).drop_last() == queue_of(before, y) && queue_of(after, y).len() == queue_of(before, y).len()
                            + 1 && same_request(queue_of(after, y).last(), *message) by {
                        if y != x {
                            assert(queue_of(after, y) == queue_of(mid, y));
                        } else {
                            assert(!(pre.contains(x) && key_set(peers@).contains(x)));
                            assert(queue_of(mid, x) == queue_of(before, x));
                        }
                    }
                    assert forall|y: Seq<u8>|
                        !(kv.subrange(0, j + 1).contains(y) && key_set(peers@).contains(y)) implies #[trigger] queue_of(
                            after,
                            y,
                        ) == queue_of(before, y) by {
                        assert(y != x);
                        assert(queue_of(after, y) == queue_of(mid, y));
                    }
                    assert(key_set(peers@).contains(kv[j as int]));
                }
            } else {
                proof {
                    assert(!key_set(peers@).contains(x));
                    assert forall|y: Seq<u8>|
                        #![trigger queue_of(mid, y)]
                        kv.subrange(0, j + 1).contains(y) && key_set(peers@).contains(y) implies queue_of(
                            mid,
                            y,
                        ).drop_last() == queue_of(before, y) && queue_of(mid, y).len() == queue_of(before, y).len()
                            + 1 && same_request(queue_of(mid, y).last(), *message) by {
                        assert(y != x);
                        assert(pre.contains(y));
                    }
                    assert forall|y: Seq<u8>|
                        !(kv.subrange(0, j + 1).contains(y) && key_set(peers@).contains(y)) implies #[trigger] queue_of(
                            mid,
                            y,
                        ) == queue_of(before, y) by {
                        if y != x {
                            assert(next.contains(y) == pre.contains(y));
                        }
                    }
                    assert forall|y: Seq<u8>| #[trigger]
                        has_queue(mid, y) == (has_queue(before, y) || (kv.subrange(0, j + 1).contains(y)
                            && key_set(peers@).contains(y))) by {
                        if y != x {
                            assert(next.contains(y) == pre.contains(y));
                        }
                    }
                    assert forall|i: int| 0 <= i < j + 1 && #[trigger] key_set(peers@).contains(kv[i]) implies 0
                        <= i < j && key_set(peers@).contains(kv[i]) by {
                        if i == j {
                            assert(kv[i] == x);
                        }
                    }
                }
            }
            j = j + 1;
        }
        proof {
            assert(kv.subrange(0, j as int) =~= kv);
            assert forall|x: Seq<u8>| (kv.contains(x) && key_set(peers@).contains(x)) == #[trigger] t.contains(x) by {
                assert(kv.contains(x) == kv.to_set().contains(x));
            }
            if queued {
                let i = choose|i: int| 0 <= i < j && #[trigger] key_set(peers@).contains(kv[i]);
                assert(kv.contains(kv[i]));
                assert(t.contains(kv[i]));
            }
            if exists|x: Seq<u8>| #[trigger] t.contains(x) {
                let x = choose|x: Seq<u8>| #[trigger] t.contains(x);
                assert(kv.contains(x));
                let i = choose|i: int| 0 <= i < kv.len() && kv[i] == x;
                assert(key_set(peers@).contains(kv[i]));
            }
        }
        queued
    }

    /// `after` holds a copy of `message` queued last for each peer of
    /// [`Self::replication_targets`] in `before`, every other queue staying
    /// as it was.
    pub open spec fn queued_for_targets(before: Self, after: Self, message: ReplicationRequest) -> bool {
        let t = before.replication_targets(message.subnetwork_id);
        let e0 = before.pending_view().entries();
        let e1 = after.pending_view().entries();
        &&& forall|x: Seq<u8>| #[trigger] has_queue(e1, x) == (has_queue(e0, x) || t.contains(x))
        &&& forall|x: Seq<u8>|
            #![trigger queue_of(e1, x)]
            t.contains(x) ==> queue_of(e1, x).drop_last() == queue_of(e0, x) && queue_of(e1, x).len()
                == queue_of(e0, x).len() + 1 && same_request(queue_of(e1, x).last(), message)
        &&& forall|x: Seq<u8>| !t.contains(x) ==> #[trigger] queue_of(e1, x) == queue_of(e0, x)
    }

    /// The id under which the cache of seen messages records `message`.
    pub open spec fn seen_id(message: ReplicationRequest) -> Seq<u8> {
        replication_id_bytes(message.share.blob_id, message.subnetwork_id)
    }

    /// `after` is `before` once `message` was handed to
    /// [`Self::send_message`]: the connections, streams, round-robin marker,
    /// local peer and membership stay; a kept cache of seen messages now
    /// holds the message's id and no other new one. A message whose id the
    /// cache did not hold (always the case without a cache) was queued for
    /// every target (see [`Self::queued_for_targets`]); otherwise,
    /// depending on whether the held id had expired, either nothing was
    /// queued or it was queued for every target.
    pub open spec fn forwarded(before: Self, after: Self, message: ReplicationRequest) -> bool {
        &&& after.local_view() == before.local_view()
        &&& after.membership_view() == before.membership_view()
        &&& after.connected_view() == before.connected_view()
        &&& after.streams_view() == before.streams_view()
        &&& after.pending_view().marker() == before.pending_view().marker()
        &&& after.remembers_seen() == before.remembers_seen()
        &&& after.remembers_seen() ==> after.seen_view().contains(Self::seen_id(message))
        &&& after.seen_view().subset_of(before.seen_view().insert(Self::seen_id(message)))
        &&& !before.seen_view().contains(Self::seen_id(message)) ==> Self::queued_for_targets(
            before,
            after,
            message,
        )
        &&& (after.pending_view().entries() == before.pending_view().entries() || Self::queued_for_targets(
            before,
            after,
            message,
        ))
    }

    /// Sends a share to the connected members of its subnetwork, unless the
    /// cache of seen messages already holds its id; the id is recorded
    /// otherwise. Returns whether a copy was queued. What the cache answers
    /// depends on the clock: whatever it answers, either nothing was queued,
    /// or a copy for each peer of [`Self::replication_targets`] was (see
    /// [`Self::replicate`]).
    pub fn send_message(&mut self, message: &ReplicationRequest) -> (queued: bool)
        requires
            old(self).membership_view().has_network(message.subnetwork_id),
        ensures
            final(self).local_view() == old(self).local_view(),
            final(self).membership_view() == old(self).membership_view(),
            final(self).connected_view() == old(self).connected_view(),
            final(self).streams_view() == old(self).streams_view(),
            final(self).pending_view().marker() == old(self).pending_view().marker(),
            !queued ==> final(self).pending_view().entries() == old(self).pending_view().entries(),
            queued ==> {
                let t = old(self).replication_targets(message.subnetwork_id);
                let before = old(self).pending_view().entries();
                let after = final(self).pending_view().entries();
                &&& forall|x: Seq<u8>| #[trigger]
                    has_queue(after, x) == (has_queue(before, x) || t.contains(x))
                &&& forall|x: Seq<u8>|
                    #![trigger queue_of(after, x)]
                    t.contains(x) ==> queue_of(after, x).drop_last() == queue_of(before, x)
                        && queue_of(after, x).len() == queue_of(before, x).len() + 1 && same_request(
                        queue_of(after, x).last(),
                        *message,
                    )
                &&& forall|x: Seq<u8>| !t.contains(x) ==> #[trigger] queue_of(after, x) == queue_of(before, x)
            },
            Self::forwarded(*old(self), *final(self), *message),
            final(self).remembers_seen() == old(self).remembers_seen(),
            !old(self).seen_view().contains(Self::seen_id(*message)) ==> queued == exists|x: Seq<u8>|
                #[trigger] old(self).replication_targets(message.subnetwork_id).contains(x),
            final(self).remembers_seen() ==> final(self).seen_view().contains(Self::seen_id(*message)),
            final(self).seen_view().subset_of(old(self).seen_view().insert(Self::seen_id(*message))),
    {
        let id = message.id();
        let seen = self.seen_messages.check_and_record(id);
        let ghost mid = *self;
        assert(mid.connected_view() == old(self).connected_view());
        assert(mid.replication_targets(message.subnetwork_id) == old(self).replication_targets(
            message.subnetwork_id,
        ));
        proof {
            use_type_invariant(&self.pending_outbound);
        }
        let queued = self.replicate(message, seen);
        proof {
            use_type_invariant(&self.pending_outbound);
            if !seen && !queued {
                let t = old(self).replication_targets(message.subnetwork_id);
                assert(!exists|x: Seq<u8>| #[trigger] t.contains(x));
                let before = old(self).pending_view().entries();
                let after = self.pending_view().entries();
                assert(forall|x: Seq<u8>| !t.contains(x));
                if after.len() > before.len() {
                    let n = before.len() as int;
                    lemma_queue_index_unique(after, n);
                    let k = after[n].0;
                    assert(has_queue(after, k) == (has_queue(before, k) || t.contains(k)));
                    let b = queue_index(before, k);
                    assert(before[b].0 == k);
                    assert(after[b].0 == before[b].0);
                    assert(after[b].0 != after[n].0);
                }
                assert forall|i: int| 0 <= i < after.len() implies #[trigger] after[i] == before[i] by {
                    lemma_queue_index_unique(after, i);
                    let k = after[i].0;
                    assert(before[i].0 == k);
                    lemma_queue_index_unique(before, i);
                    assert(queue_of(after, k) == queue_of(before, k));
                }
                assert(after =~= before);
            }
        }
        queued
    }

    /// Decides on an inbound connection: a peer that shares a subnetwork
    /// with the local peer is accepted and counted as connected; any other
    /// is served without the replication protocol. Returns whether the peer
    /// was accepted.
    pub fn handle_established_inbound_connection(&mut self, peer_id: &PeerKey) -> (accepted: bool)
        ensures
            accepted == old(self).neighbours(peer_id@),
            accepted ==> final(self).connected_view() == old(self).connected_view().insert(peer_id@),
            !accepted ==> final(self).connected_view() == old(self).connected_view(),
            final(self).local_view() == old(self).local_view(),
            final(self).membership_view() == old(self).membership_view(),
            final(self).pending_view() == old(self).pending_view(),
            final(self).streams_view() == old(self).streams_view(),
    {
        if !self.is_neighbour(peer_id) {
            return false;
        }
        self.connected.insert(peer_id.duplicate(), ());
        assert(self.connected@.dom() =~= old(self).connected@.dom().insert(peer_id@));
        true
    }

    /// Counts a peer we connected to as connected.
    pub fn handle_established_outbound_connection(&mut self, peer_id: &PeerKey)
        ensures
            final(self).connected_view() == old(self).connected_view().insert(peer_id@),
            final(self).local_view() == old(self).local_view(),
            final(self).membership_view() == old(self).membership_view(),
            final(self).pending_view() == old(self).pending_view(),
            final(self).streams_view() == old(self).streams_view(),
    {
        self.connected.insert(peer_id.duplicate(), ());
        assert(self.connected@.dom() =~= old(self).connected@.dom().insert(peer_id@));
    }

    /// Forgets a disconnected peer: it is no longer connected, its stream
    /// and its pending messages go, and a round-robin marker on it moves
    /// back one peer.
    pub fn on_connection_closed(&mut self, peer_id: &PeerKey)
        ensures
            final(self).connected_view() == old(self).connected_view().remove(peer_id@),
            final(self).streams_view() == old(self).streams_view().remove(peer_id@),
            has_queue(old(self).pending_view().entries(), peer_id@) ==> final(self).pending_view().entries()
                == old(self).pending_view().entries().remove(
                queue_index(old(self).pending_view().entries(), peer_id@),
            ),
            !has_queue(old(self).pending_view().entries(), peer_id@) ==> final(self).pending_view().entries()
                == old(self).pending_view().entries(),
            final(self).pending_view().marker() == marker_after_disconnect(
                old(self).pending_view().entries(),
                final(self).pending_view().entries(),
                old(self).pending_view().marker(),
                peer_id@,
            ),
            final(self).local_view() == old(self).local_view(),
            final(self).membership_view() == old(self).membership_view(),
    {
        self.connected.remove(peer_id);
        assert(self.connected@.dom() =~= old(self).connected@.dom().remove(peer_id@));
        self.outbound_streams.remove(peer_id);
        self.pending_outbound.on_disconnected(peer_id);
    }

    /// A peer opened a stream to us: its write half is free for our
    /// messages.
    pub fn on_incoming_stream(&mut self, peer_id: &PeerKey)
        ensures
            final(self).streams_view() == old(self).streams_view().insert(peer_id@, WriteHalfState::Idle),
            final(self).connected_view() == old(self).connected_view(),
            final(self).pending_view() == old(self).pending_view(),
            final(self).local_view() == old(self).local_view(),
            final(self).membership_view() == old(self).membership_view(),
    {
        self.outbound_streams.insert(peer_id.duplicate(), WriteHalfState::Idle);
    }

    /// A message was written to a peer's stream: the peer's next pending
    /// message is returned, to be written to the same write half, which
    /// stays busy; with none left the write half becomes idle. A peer
    /// without a queue is an error.
    pub fn on_write_finished(&mut self, peer_id: &PeerKey) -> (r: Result<Option<ReplicationRequest>, ReplicationError>)
        ensures
            final(self).connected_view() == old(self).connected_view(),
            final(self).local_view() == old(self).local_view(),
            final(self).membership_view() == old(self).membership_view(),
            final(self).pending_view().marker() == old(self).pending_view().marker(),
            !has_queue(old(self).pending_view().entries(), peer_id@) ==> (r matches Err(
                ReplicationError::DequeueOutbound { peer_id: p },
            ) && p@ == peer_id@) && final(self).pending_view().entries() == old(self).pending_view().entries()
                && final(self).streams_view() == old(self).streams_view(),
            has_queue(old(self).pending_view().entries(), peer_id@) ==> {
                let q = queue_of(old(self).pending_view().entries(), peer_id@);
                let i = queue_index(old(self).pending_view().entries(), peer_id@);
                if q.len() == 0 {
                    &&& r matches Ok(None)
                    &&& final(self).pending_view().entries() == old(self).pending_view().entries()
                    &&& final(self).streams_view() == old(self).streams_view().insert(
                        peer_id@,
                        WriteHalfState::Idle,
                    )
                } else {
                    &&& r matches Ok(Some(m)) && m == q[0]
                    &&& final(self).pending_view().entries() == old(self).pending_view().entries().update(
                        i,
                        (peer_id@, q.drop_first()),
                    )
                    &&& final(self).streams_view() == old(self).streams_view()
                }
            },
    {
        match self.pending_outbound.dequeue_message(peer_id) {
            Err(_) => Err(ReplicationError::DequeueOutbound { peer_id: peer_id.duplicate() }),
            Ok(Some(message)) => Ok(Some(message)),
            Ok(None) => {
                self.outbound_streams.insert(peer_id.duplicate(), WriteHalfState::Idle);
                Ok(None)
            },
        }
    }

    /// Picks the next peer, in round-robin order, that has a pending message
    /// and a free stream (see [`round_robin`]), takes its oldest message and
    /// marks its stream busy: the message is to be written to the idle write
    /// half, or to a stream opened first when the peer has none. `None` when
    /// no peer qualifies.
    pub fn schedule_next_outbound_message(&mut self) -> (r: Option<OutboundAction>)
        ensures
            final(self).connected_view() == old(self).connected_view(),
            final(self).local_view() == old(self).local_view(),
            final(self).membership_view() == old(self).membership_view(),
            match round_robin(
                old(self).pending_view().entries(),
                old(self).streams_view(),
                old(self).pending_view().marker(),
            ) {
                None => r is None && final(self).streams_view() == old(self).streams_view()
                    && final(self).pending_view().entries() == old(self).pending_view().entries()
                    && final(self).pending_view().marker() is None,
                Some(k) => {
                    let e = old(self).pending_view().entries();
                    let q = queue_of(e, k);
                    &&& q.len() > 0
                    &&& final(self).pending_view().entries() == e.update(queue_index(e, k), (k, q.drop_first()))
                    &&& final(self).pending_view().marker() == Some(k)
                    &&& final(self).streams_view() == old(self).streams_view().insert(k, WriteHalfState::Busy)
                    &&& if old(self).streams_view().contains_key(k) {
                        r matches Some(OutboundAction::Write { peer_id, message }) && peer_id@ == k && message
                            == q[0]
                    } else {
                        r matches Some(OutboundAction::OpenAndWrite { peer_id, message }) && peer_id@ == k
                            && message == q[0]
                    }
                },
            },
    {
        let ghost e = self.pending_outbound.entries();
        let ghost s = scan_start(e, self.pending_outbound.marker());
        proof {
            use_type_invariant(&self.pending_outbound);
            if self.pending_outbound.marker() is Some {
                let m = self.pending_outbound.marker()->0;
                assert(e[queue_index(e, m)].0 == m);
            }
            lemma_first_ready_in_range(e, self.outbound_streams@, s, 0);
        }
        let next = self.pending_outbound.next_peer(&self.outbound_streams);
        match next {
            None => None,
            Some(peer_id) => {
                proof {
                    let pos = first_ready_from(e, self.outbound_streams@, s, 0)->0;
                    assert(e[pos].0 == peer_id@);
                    lemma_queue_index_unique(e, pos);
                }
                let message = match self.pending_outbound.dequeue_message(&peer_id) {
                    Ok(Some(m)) => m,
                    _ => {
                        assert(false);
                        return None;
                    },
                };
                let has_stream = self.outbound_streams.contains(&peer_id);
                let copy = peer_id.duplicate();
                self.outbound_streams.insert(copy, WriteHalfState::Busy);
                if has_stream {
                    Some(OutboundAction::Write { peer_id, message })
                } else {
                    Some(OutboundAction::OpenAndWrite { peer_id, message })
                }
            },
        }
    }

    /// A message arrived from a peer: it is forwarded as by
    /// [`Self::send_message`] and reported to the node.
    pub fn on_incoming_message(&mut self, peer_id: PeerKey, message: ReplicationRequest) -> (r: ReplicationEvent)
        requires
            old(self).membership_view().has_network(message.subnetwork_id),
        ensures
            r matches ReplicationEvent::IncomingMessage { peer_id: p, message: m } && p@ == peer_id@
                && *m == message,
            final(self).connected_view() == old(self).connected_view(),
            final(self).streams_view() == old(self).streams_view(),
            final(self).pending_view().marker() == old(self).pending_view().marker(),
            Self::forwarded(*old(self), *final(self), message),
    {
        self.send_message(&message);
        ReplicationEvent::IncomingMessage { peer_id, message: Box::new(message) }
    }
}

} // verus!
