use vstd::prelude::*;
use crate::peer::PeerKey;

verus! {

/// The map that a list of (peer, value) entries describes when read in
/// order, a later entry for a peer replacing an earlier one.
pub open spec fn entry_map<V>(entries: Seq<(PeerKey, V)>) -> Map<Seq<u8>, V>
    decreases entries.len(),
{
    if entries.len() == 0 {
        Map::empty()
    } else {
        let last = entries.last();
        entry_map(entries.drop_last()).insert(last.0@, last.1)
    }
}

/// No peer has two entries.
pub open spec fn distinct_entries<V>(entries: Seq<(PeerKey, V)>) -> bool {
    forall|i: int, j: int|
        0 <= i < j < entries.len() ==> #[trigger] entries[i].0@ != #[trigger] entries[j].0@
}

proof fn lemma_distinct_entries_drop_last<V>(entries: Seq<(PeerKey, V)>)
    requires
        distinct_entries(entries),
        entries.len() > 0,
    ensures
        distinct_entries(entries.drop_last()),
{
    let rest = entries.drop_last();
    assert forall|i: int, j: int| 0 <= i < j < rest.len() implies #[trigger] rest[i].0@
        != #[trigger] rest[j].0@ by {
        assert(rest[i] == entries[i] && rest[j] == entries[j]);
    }
}

/// With one entry per peer, the map holds exactly the listed peers, each with
/// its listed value.
pub proof fn lemma_entry_map_lookup<V>(entries: Seq<(PeerKey, V)>)
    requires
        distinct_entries(entries),
    ensures
        forall|k: Seq<u8>|
            #[trigger] entry_map(entries).contains_key(k) <==> exists|i: int|
                0 <= i < entries.len() && entries[i].0@ == k,
        forall|i: int|
            0 <= i < entries.len() ==> entry_map(entries)[#[trigger] entries[i].0@]
                == entries[i].1,
        entry_map(entries).dom().finite(),
    decreases entries.len(),
{
    if entries.len() > 0 {
        let rest = entries.drop_last();
        lemma_distinct_entries_drop_last(entries);
        lemma_entry_map_lookup(rest);
        let n = entries.len() - 1;
        assert forall|k: Seq<u8>| #[trigger] entry_map(entries).contains_key(k) <==> exists|i: int|
            0 <= i < entries.len() && entries[i].0@ == k by {
            if entry_map(entries).contains_key(k) && k != entries[n].0@ {
                assert(entry_map(rest).contains_key(k));
                let i = choose|i: int| 0 <= i < rest.len() && rest[i].0@ == k;
                assert(rest[i] == entries[i]);
                assert(entries[i].0@ == k);
            }
            if exists|i: int| 0 <= i < entries.len() && entries[i].0@ == k {
                let i = choose|i: int| 0 <= i < entries.len() && entries[i].0@ == k;
                if i < n {
                    assert(rest[i] == entries[i]);
                    assert(rest[i].0@ == k);
                }
            }
        }
        assert forall|i: int| 0 <= i < entries.len() implies entry_map(entries)[
            #[trigger] entries[i].0@] == entries[i].1 by {
            if i < n {
                assert(rest[i] == entries[i]);
                assert(entries[i].0@ != entries[n].0@);
            }
        }
    }
}

/// A map from peers to values, kept as a list with one entry per peer.
pub struct PeerMap<V> {
    entries: Vec<(PeerKey, V)>,
}

impl<V> View for PeerMap<V> {
    type V = Map<Seq<u8>, V>;

    closed spec fn view(&self) -> Map<Seq<u8>, V> {
        entry_map(self.entries@)
    }
}

impl<V> PeerMap<V> {
    #[verifier::type_invariant]
    closed spec fn inv(self) -> bool {
        distinct_entries(self.entries@)
    }

    /// The peers with an entry, in the order the map keeps them.
    pub closed spec fn key_order(self) -> Seq<Seq<u8>> {
        self.entries@.map_values(|e: (PeerKey, V)| e.0@)
    }

    /// An empty map.
    pub fn new() -> (m: PeerMap<V>)
        ensures
            m@ == Map::<Seq<u8>, V>::empty(),
    {
        PeerMap { entries: Vec::new() }
    }

    /// Number of peers with an entry.
    pub fn len(&self) -> (n: usize)
        ensures
            n == self@.dom().len(),
            n == self.key_order().len(),
    {
        proof {
            use_type_invariant(self);
            self.lemma_dom_is_key_order();
        }
        self.entries.len()
    }

    proof fn lemma_dom_is_key_order(&self)
        requires
            distinct_entries(self.entries@),
        ensures
            self@.dom() == self.key_order().to_set(),
            self@.dom().len() == self.entries@.len(),
            self.key_order().no_duplicates(),
            self.key_order().len() == self.entries@.len(),
    {
        lemma_entry_map_lookup(self.entries@);
        let ko = self.key_order();
        assert forall|k: Seq<u8>| self@.dom().contains(k) <==> ko.to_set().contains(k) by {
            if self@.dom().contains(k) {
                let i = choose|i: int| 0 <= i < self.entries@.len() && self.entries@[i].0@ == k;
                assert(ko[i] == k);
            }
            if ko.contains(k) {
                let i = choose|i: int| 0 <= i < ko.len() && ko[i] == k;
                assert(self.entries@[i].0@ == k);
            }
        }
        assert(self@.dom() =~= ko.to_set());
        assert forall|i: int, j: int| 0 <= i < ko.len() && 0 <= j < ko.len() && i != j implies ko[i]
            != ko[j] by {
            if i < j {
                assert(self.entries@[i].0@ != self.entries@[j].0@);
            } else {
                assert(self.entries@[j].0@ != self.entries@[i].0@);
            }
        }
        ko.unique_seq_to_set();
    }

    /// The value for `peer`, if any.
    pub fn get(&self, peer: &PeerKey) -> (r: Option<&V>)
        ensures
            match r {
                Some(v) => self@.contains_key(peer@) && *v == self@[peer@],
                None => !self@.contains_key(peer@),
            },
    {
        proof {
            use_type_invariant(self);
            lemma_entry_map_lookup(self.entries@);
        }
        match self.index_of(peer) {
            Some(i) => Some(&self.entries[i].1),
            None => None,
        }
    }

    /// Whether `peer` has an entry.
    pub fn contains(&self, peer: &PeerKey) -> (r: bool)
        ensures
            r == self@.contains_key(peer@),
    {
        self.get(peer).is_some()
    }

    fn index_of(&self, peer: &PeerKey) -> (r: Option<usize>)
        requires
            distinct_entries(self.entries@),
        ensures
            match r {
                Some(i) => i < self.entries@.len() && self.entries@[i as int].0@ == peer@
                    && self@.contains_key(peer@) && self@[peer@] == self.entries@[i as int].1,
                None => !self@.contains_key(peer@),
            },
    {
        proof {
            lemma_entry_map_lookup(self.entries@);
        }
        let mut i: usize = 0;
        while i < self.entries.len()
            invariant
                i <= self.entries@.len(),
                distinct_entries(self.entries@),
                forall|j: int| 0 <= j < i ==> #[trigger] self.entries@[j].0@ != peer@,
            decreases self.entries@.len() - i,
        {
            if self.entries[i].0.same_as(peer) {
                proof {
                    lemma_entry_map_lookup(self.entries@);
                    assert(self@.contains_key(self.entries@[i as int].0@));
                }
                return Some(i);
            }
            i = i + 1;
        }
        proof {
            lemma_entry_map_lookup(self.entries@);
            if self@.contains_key(peer@) {
                let j = choose|j: int| 0 <= j < self.entries@.len() && self.entries@[j].0@ == peer@;
                assert(self.entries@[j].0@ != peer@);
            }
        }
        None
    }

    /// Sets the value of `peer`, replacing any value it had. A peer already
    /// present keeps its place in `key_order`; a new one is added at the end.
    pub fn insert(&mut self, peer: PeerKey, value: V)
        ensures
            final(self)@ == old(self)@.insert(peer@, value),
            old(self)@.contains_key(peer@) ==> final(self).key_order() == old(self).key_order(),
            !old(self)@.contains_key(peer@) ==> final(self).key_order() == old(self).key_order().push(
                peer@,
            ),
    {
        proof {
            use_type_invariant(&*self);
        }
        let idx = self.index_of(&peer);
        let ghost before = self.entries@;
        let ghost k = peer@;
        proof {
            lemma_entry_map_lookup(before);
        }
        match idx {
            Some(i) => {
                let mut entries: Vec<(PeerKey, V)> = Vec::new();
                std::mem::swap(&mut entries, &mut self.entries);
                entries.set(i, (peer, value));
                proof {
                    let after = entries@;
                    assert forall|a: int, b: int| 0 <= a < b < after.len() implies #[trigger] after[a].0@
                        != #[trigger] after[b].0@ by {
                        assert(before[a].0@ != before[b].0@);
                        assert(a != i ==> after[a] == before[a]);
                        assert(b != i ==> after[b] == before[b]);
                    }
                    lemma_entry_map_lookup(after);
                    assert forall|q: Seq<u8>| #[trigger] entry_map(after).contains_key(q)
                        <==> entry_map(before).insert(k, after[i as int].1).contains_key(q) by {
                        if entry_map(before).contains_key(q) && q != k {
                            let j = choose|j: int| 0 <= j < before.len() && before[j].0@ == q;
                            assert(j != i ==> after[j] == before[j]);
                            assert(after[j].0@ == q);
                        }
                        if entry_map(after).contains_key(q) {
                            let j = choose|j: int| 0 <= j < after.len() && after[j].0@ == q;
                            assert(j == i || before[j].0@ == q);
                        }
                    }
                    assert forall|q: Seq<u8>| #[trigger] entry_map(after).contains_key(q)
                        implies entry_map(after)[q] == entry_map(before).insert(
                        k,
                        after[i as int].1,
                    )[q] by {
                        let j = choose|j: int| 0 <= j < after.len() && after[j].0@ == q;
                        if j != i {
                            assert(before[j] == after[j]);
                            assert(entry_map(before)[before[j].0@] == before[j].1);
                        }
                    }
                    assert(entry_map(after) =~= entry_map(before).insert(k, after[i as int].1));
                    assert(after.map_values(|e: (PeerKey, V)| e.0@) =~= before.map_values(
                        |e: (PeerKey, V)| e.0@,
                    ));
                }
                self.entries = entries;
            },
            None => {
                let mut entries: Vec<(PeerKey, V)> = Vec::new();
                std::mem::swap(&mut entries, &mut self.entries);
                entries.push((peer, value));
                proof {
                    let after = entries@;
                    assert(after.drop_last() =~= before);
                    assert forall|a: int, b: int| 0 <= a < b < after.len() implies #[trigger] after[a].0@
                        != #[trigger] after[b].0@ by {
                        assert(after[a] == before[a]);
                        if b < before.len() {
                            assert(after[b] == before[b]);
                            assert(before[a].0@ != before[b].0@);
                        } else {
                            assert(entry_map(before).contains_key(before[a].0@));
                        }
                    }
                    assert(after.map_values(|e: (PeerKey, V)| e.0@) =~= before.map_values(
                        |e: (PeerKey, V)| e.0@,
                    ).push(k));
                }
                self.entries = entries;
            },
        }
    }

    /// Removes the entry of `peer` and returns its value, if it had one. The
    /// other peers keep their order.
    pub fn remove(&mut self, peer: &PeerKey) -> (r: Option<V>)
        ensures
            final(self)@ == old(self)@.remove(peer@),
            match r {
                Some(v) => old(self)@.contains_key(peer@) && v == old(self)@[peer@],
                None => !old(self)@.contains_key(peer@),
            },
            final(self).key_order() == without_peer(old(self).key_order(), peer@),
    {
        proof {
            use_type_invariant(&*self);
        }
        let idx = self.index_of(peer);
        let ghost before = self.entries@;
        proof {
            lemma_entry_map_lookup(before);
        }
        match idx {
            Some(i) => {
                let mut entries: Vec<(PeerKey, V)> = Vec::new();
                std::mem::swap(&mut entries, &mut self.entries);
                let (_k, v) = entries.remove(i);
                proof {
                    let after = entries@;
                    assert(after =~= before.remove(i as int));
                    assert forall|a: int, b: int| 0 <= a < b < after.len() implies #[trigger] after[a].0@
                        != #[trigger] after[b].0@ by {
                        let a0 = if a < i { a } else { a + 1 };
                        let b0 = if b < i { b } else { b + 1 };
                        assert(after[a] == before[a0] && after[b] == before[b0]);
                        assert(before[a0].0@ != before[b0].0@);
                    }
                    lemma_entry_map_lookup(after);
                    assert forall|q: Seq<u8>| #[trigger] entry_map(after).contains_key(q)
                        <==> entry_map(before).remove(peer@).contains_key(q) by {
                        if entry_map(after).contains_key(q) {
                            let j = choose|j: int| 0 <= j < after.len() && after[j].0@ == q;
                            let j0 = if j < i { j } else { j + 1 };
                            assert(after[j] == before[j0]);
                            assert(before[j0].0@ != before[i as int].0@);
                        }
                        if entry_map(before).contains_key(q) && q != peer@ {
                            let j = choose|j: int| 0 <= j < before.len() && before[j].0@ == q;
                            assert(j != i);
                            let j1 = if j < i { j } else { j - 1 };
                            assert(after[j1] == before[j]);
                        }
                    }
                    assert forall|q: Seq<u8>| #[trigger] entry_map(after).contains_key(q)
                        implies entry_map(after)[q] == entry_map(before)[q] by {
                        let j = choose|j: int| 0 <= j < after.len() && after[j].0@ == q;
                        let j0 = if j < i { j } else { j + 1 };
                        assert(after[j] == before[j0]);
                        assert(entry_map(before)[before[j0].0@] == before[j0].1);
                    }
                    assert(entry_map(after) =~= entry_map(before).remove(peer@));
                    let kb = before.map_values(|e: (PeerKey, V)| e.0@);
                    let ka = after.map_values(|e: (PeerKey, V)| e.0@);
                    assert(ka =~= kb.remove(i as int));
                    assert forall|j: int| 0 <= j < kb.len() && j != i implies kb[j] != peer@ by {
                        if j < i {
                            assert(before[j].0@ != before[i as int].0@);
                        } else {
                            assert(before[i as int].0@ != before[j].0@);
                        }
                    }
                    lemma_filter_out_unique(kb, i as int, peer@);
                }
                self.entries = entries;
                Some(v)
            },
            None => {
                proof {
                    let kb = before.map_values(|e: (PeerKey, V)| e.0@);
                    assert forall|j: int| 0 <= j < kb.len() implies kb[j] != peer@ by {
                        assert(entry_map(before).contains_key(before[j].0@));
                    }
                    lemma_filter_out_absent(kb, peer@);
                    assert(entry_map(before).remove(peer@) =~= entry_map(before));
                }
                None
            },
        }
    }

    /// The peers with an entry, in `key_order`.
    pub fn keys(&self) -> (r: Vec<PeerKey>)
        ensures
            r@.map_values(|k: PeerKey| k@) == self.key_order(),
            self.key_order().to_set() == self@.dom(),
            self.key_order().no_duplicates(),
    {
        proof {
            use_type_invariant(self);
            self.lemma_dom_is_key_order();
        }
        let mut keys: Vec<PeerKey> = Vec::new();
        let mut i: usize = 0;
        while i < self.entries.len()
            invariant
                i <= self.entries@.len(),
                keys@.map_values(|k: PeerKey| k@) == self.key_order().subrange(0, i as int),
            decreases self.entries@.len() - i,
        {
            let k = self.entries[i].0.duplicate();
            let ghost before = keys@;
            keys.push(k);
            assert(self.key_order()[i as int] == self.entries@[i as int].0@);
            assert(keys@.map_values(|k: PeerKey| k@) =~= before.map_values(|k: PeerKey| k@).push(k@));
            assert(keys@.map_values(|k: PeerKey| k@) =~= self.key_order().subrange(0, i + 1));
            i = i + 1;
        }
        assert(self.key_order().subrange(0, i as int) =~= self.key_order());
        keys
    }
}

/// `s` without the occurrences of `x`.
pub open spec fn without_peer(s: Seq<Seq<u8>>, x: Seq<u8>) -> Seq<Seq<u8>> {
    s.filter(|q: Seq<u8>| q != x)
}

/// Filtering out a value that occurs only at position `i` removes position `i`.
pub proof fn lemma_filter_out_unique(s: Seq<Seq<u8>>, i: int, x: Seq<u8>)
    requires
        0 <= i < s.len(),
        s[i] == x,
        forall|j: int| 0 <= j < s.len() && j != i ==> s[j] != x,
    ensures
        without_peer(s, x) == s.remove(i),
    decreases s.len(),
{
    let f = |q: Seq<u8>| q != x;
    reveal_with_fuel(Seq::<_>::filter, 1);
    if i == s.len() - 1 {
        lemma_filter_out_absent(s.drop_last(), x);
        assert(s.remove(i) =~= s.drop_last());
    } else {
        let t = s.drop_last();
        lemma_filter_out_unique(t, i, x);
        assert(s.remove(i) =~= t.remove(i).push(s.last()));
    }
}

/// Filtering out a value that does not occur changes nothing.
pub proof fn lemma_filter_out_absent(s: Seq<Seq<u8>>, x: Seq<u8>)
    requires
        forall|j: int| 0 <= j < s.len() ==> s[j] != x,
    ensures
        without_peer(s, x) == s,
    decreases s.len(),
{
    let f = |q: Seq<u8>| q != x;
    reveal_with_fuel(Seq::<_>::filter, 1);
    if s.len() > 0 {
        let t = s.drop_last();
        lemma_filter_out_absent(t, x);
        assert(t.push(s.last()) =~= s);
    }
}

} // verus!
