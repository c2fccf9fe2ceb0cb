use vstd::prelude::*;
use crate::peer::PeerKey;

verus! {

/// A known address of a peer: the byte encoding of its multiaddress.
pub type Address = Vec<u8>;

/// The map that a list of (peer, address) entries describes when read in
/// order, a later entry for a peer replacing an earlier one.
pub open spec fn entries_map(entries: Seq<(PeerKey, Address)>) -> Map<Seq<u8>, Seq<u8>>
    decreases entries.len(),
{
    if entries.len() == 0 {
        Map::empty()
    } else {
        let last = entries.last();
        entries_map(entries.drop_last()).insert(last.0@, last.1@)
    }
}

/// No peer has two entries.
pub open spec fn distinct_entry_keys(entries: Seq<(PeerKey, Address)>) -> bool {
    forall|i: int, j: int|
        0 <= i < j < entries.len() ==> #[trigger] entries[i].0@ != #[trigger] entries[j].0@
}

proof fn lemma_distinct_drop_last(entries: Seq<(PeerKey, Address)>)
    requires
        distinct_entry_keys(entries),
        entries.len() > 0,
    ensures
        distinct_entry_keys(entries.drop_last()),
{
    let rest = entries.drop_last();
    assert forall|i: int, j: int| 0 <= i < j < rest.len() implies #[trigger] rest[i].0@
        != #[trigger] rest[j].0@ by {
        assert(rest[i] == entries[i] && rest[j] == entries[j]);
    }
}

/// With one entry per peer, the map holds exactly the listed peers, each with
/// its listed address.
proof fn lemma_entries_map_lookup(entries: Seq<(PeerKey, Address)>)
    requires
        distinct_entry_keys(entries),
    ensures
        forall|k: Seq<u8>|
            #[trigger] entries_map(entries).contains_key(k) <==> exists|i: int|
                0 <= i < entries.len() && entries[i].0@ == k,
        forall|i: int|
            0 <= i < entries.len() ==> entries_map(entries)[#[trigger] entries[i].0@]
                == entries[i].1@,
    decreases entries.len(),
{
    if entries.len() > 0 {
        let rest = entries.drop_last();
        lemma_distinct_drop_last(entries);
        lemma_entries_map_lookup(rest);
        let n = entries.len() - 1;
        assert forall|k: Seq<u8>| #[trigger] entries_map(entries).contains_key(k) <==> exists|i: int|
            0 <= i < entries.len() && entries[i].0@ == k by {
            if entries_map(entries).contains_key(k) && k != entries[n].0@ {
                assert(entries_map(rest).contains_key(k));
                let i = choose|i: int| 0 <= i < rest.len() && rest[i].0@ == k;
                assert(rest[i] == entries[i]);
                assert(entries[i].0@ == k);
            }
            if exists|i: int| 0 <= i < entries.len() && entries[i].0@ == k {
                let i = choose|i: int| 0 <= i < entries.len() && entries[i].0@ == k;
                if i < n {
                    assert(rest[i] == entries[i]);
                    assert(rest[i].0@ == k);
                }
            }
        }
        assert forall|i: int| 0 <= i < entries.len() implies entries_map(entries)[
            #[trigger] entries[i].0@] == entries[i].1@ by {
            if i < n {
                assert(rest[i] == entries[i]);
                assert(entries[i].0@ != entries[n].0@);
            }
        }
    }
}

/// Two entry lists that hold the same peers and addresses, entry by entry,
/// describe the same map.
proof fn lemma_entries_map_same_views(a: Seq<(PeerKey, Address)>, b: Seq<(PeerKey, Address)>)
    requires
        a.len() == b.len(),
        forall|i: int| 0 <= i < a.len() ==> #[trigger] a[i].0@ == b[i].0@ && a[i].1@ == b[i].1@,
    ensures
        entries_map(a) == entries_map(b),
    decreases a.len(),
{
    if a.len() > 0 {
        let n = a.len() - 1;
        assert(a[n].0@ == b[n].0@);
        lemma_entries_map_same_views(a.drop_last(), b.drop_last());
    }
}

/// Store of known peer addresses.
pub struct AddressBook {
    entries: Vec<(PeerKey, Address)>,
}

impl View for AddressBook {
    type V = Map<Seq<u8>, Seq<u8>>;

    closed spec fn view(&self) -> Map<Seq<u8>, Seq<u8>> {
        entries_map(self.entries@)
    }
}

impl AddressBook {
    /// One entry per peer.
    pub closed spec fn well_formed(&self) -> bool {
        distinct_entry_keys(self.entries@)
    }

    /// An address book that knows no peer.
    pub fn empty() -> (book: AddressBook)
        ensures
            book.well_formed(),
            book@ == Map::<Seq<u8>, Seq<u8>>::empty(),
    {
        AddressBook { entries: Vec::new() }
    }

    /// Builds an address book from (peer, address) pairs; when a peer occurs
    /// more than once, its last address is kept.
    pub fn from_entries(pairs: Vec<(PeerKey, Address)>) -> (book: AddressBook)
        ensures
            book.well_formed(),
            book@ == entries_map(pairs@),
    {
        let mut book = AddressBook::empty();
        let mut pairs = pairs;
        let ghost all = pairs@;
        let mut rev: Vec<(PeerKey, Address)> = Vec::new();
        // take the pairs back to front so that they can be moved out
        while pairs.len() > 0
            invariant
                pairs@.len() + rev@.len() == all.len(),
                forall|i: int| 0 <= i < pairs@.len() ==> pairs@[i] == all[i],
                forall|i: int|
                    0 <= i < rev@.len() ==> rev@[i] == all[all.len() - 1 - i],
            decreases pairs@.len(),
        {
            let p = pairs.pop().unwrap();
            rev.push(p);
        }
        let ghost n = all.len();
        while rev.len() > 0
            invariant
                book.well_formed(),
                n == all.len(),
                rev@.len() <= n,
                forall|i: int|
                    0 <= i < rev@.len() ==> rev@[i] == all[n - 1 - i],
                book@ == entries_map(all.subrange(0, n - rev@.len())),
            decreases rev@.len(),
        {
            let (peer, addr) = rev.pop().unwrap();
            let ghost k = n - rev@.len() - 1;
            assert(all[k] == (peer, addr));
            book.insert(peer, addr);
            assert(all.subrange(0, k + 1).drop_last() =~= all.subrange(0, k));
        }
        assert(all.subrange(0, n as int) =~= all);
        book
    }

    /// Records the address of a peer, replacing any address it had.
    pub fn insert(&mut self, peer: PeerKey, address: Address)
        requires
            old(self).well_formed(),
        ensures
            final(self).well_formed(),
            final(self)@ == old(self)@.insert(peer@, address@),
    {
        proof {
            lemma_entries_map_lookup(self.entries@);
        }
        let mut i: usize = 0;
        while i < self.entries.len()
            invariant
                i <= self.entries@.len(),
                self.well_formed(),
                self.entries@ == old(self).entries@,
                forall|j: int| 0 <= j < i ==> #[trigger] self.entries@[j].0@ != peer@,
            decreases self.entries@.len() - i,
        {
            if self.entries[i].0.same_as(&peer) {
                let ghost before = self.entries@;
                proof {
                    lemma_entries_map_lookup(before);
                }
                self.entries.set(i, (peer, address));
                proof {
                    let after = self.entries@;
                    assert forall|a: int, b: int| 0 <= a < b < after.len() implies #[trigger] after[a].0@
                        != #[trigger] after[b].0@ by {
                        assert(before[a].0@ != before[b].0@);
                        assert(a != i ==> after[a] == before[a]);
                        assert(b != i ==> after[b] == before[b]);
                    }
                    lemma_entries_map_lookup(after);
                    assert(entries_map(after) =~= entries_map(before).insert(
                        after[i as int].0@,
                        after[i as int].1@,
                    )) by {
                        assert forall|k: Seq<u8>| #[trigger] entries_map(after).contains_key(k)
                            <==> entries_map(before).insert(
                            after[i as int].0@,
                            after[i as int].1@,
                        ).contains_key(k) by {
                            if entries_map(before).contains_key(k) && k != after[i as int].0@ {
                                let j = choose|j: int| 0 <= j < before.len() && before[j].0@ == k;
                                assert(j != i ==> after[j] == before[j]);
                                assert(after[j].0@ == k);
                            }
                            if entries_map(after).contains_key(k) {
                                let j = choose|j: int| 0 <= j < after.len() && after[j].0@ == k;
                                assert(j == i || before[j].0@ == k);
                            }
                        }
                        assert forall|k: Seq<u8>| #[trigger] entries_map(after).contains_key(k)
                            implies entries_map(after)[k] == entries_map(before).insert(
                            after[i as int].0@,
                            after[i as int].1@,
                        )[k] by {
                            let j = choose|j: int| 0 <= j < after.len() && after[j].0@ == k;
                            if j != i {
                                assert(before[j] == after[j]);
                                assert(entries_map(before)[before[j].0@] == before[j].1@);
                            }
                        }
                    }
                }
                return;
            }
            i = i + 1;
        }
        let ghost before = self.entries@;
        self.entries.push((peer, address));
        proof {
            let after = self.entries@;
            assert(after.drop_last() =~= before);
            assert forall|a: int, b: int| 0 <= a < b < after.len() implies #[trigger] after[a].0@
                != #[trigger] after[b].0@ by {
                assert(after[a] == before[a]);
                if b < before.len() {
                    assert(after[b] == before[b]);
                    assert(before[a].0@ != before[b].0@);
                } else {
                    assert(before[a].0@ != peer@);
                }
            }
        }
    }

    /// A copy of this address book.
    pub fn duplicate(&self) -> (r: AddressBook)
        requires
            self.well_formed(),
        ensures
            r.well_formed(),
            r@ == self@,
    {
        let mut entries: Vec<(PeerKey, Address)> = Vec::new();
        let mut i: usize = 0;
        while i < self.entries.len()
            invariant
                i <= self.entries@.len(),
                entries@.len() == i,
                forall|j: int|
                    0 <= j < i ==> #[trigger] entries@[j].0@ == self.entries@[j].0@ && entries@[j].1@
                        == self.entries@[j].1@,
            decreases self.entries@.len() - i,
        {
            let peer = self.entries[i].0.duplicate();
            let address = self.entries[i].1.clone();
            assert(address@ =~= self.entries@[i as int].1@);
            entries.push((peer, address));
            i = i + 1;
        }
        proof {
            lemma_entries_map_same_views(entries@, self.entries@);
            assert forall|a: int, b: int| 0 <= a < b < entries@.len() implies #[trigger] entries@[a].0@
                != #[trigger] entries@[b].0@ by {
                assert(self.entries@[a].0@ != self.entries@[b].0@);
            }
        }
        AddressBook { entries }
    }

    /// The address known for `peer`, if any.
    pub fn get_address(&self, peer: &PeerKey) -> (r: Option<&Address>)
        requires
            self.well_formed(),
        ensures
            match r {
                Some(a) => self@.contains_key(peer@) && a@ == self@[peer@],
                None => !self@.contains_key(peer@),
            },
    {
        proof {
            lemma_entries_map_lookup(self.entries@);
        }
        let mut i: usize = 0;
        while i < self.entries.len()
            invariant
                i <= self.entries@.len(),
                self.well_formed(),
                forall|j: int| 0 <= j < i ==> #[trigger] self.entries@[j].0@ != peer@,
            decreases self.entries@.len() - i,
        {
            if self.entries[i].0.same_as(peer) {
                proof {
                    lemma_entries_map_lookup(self.entries@);
                }
                assert(self@.contains_key(self.entries@[i as int].0@));
                assert(self@[self.entries@[i as int].0@] == self.entries@[i as int].1@);
                return Some(&self.entries[i].1);
            }
            i = i + 1;
        }
        proof {
            lemma_entries_map_lookup(self.entries@);
            if self@.contains_key(peer@) {
                let j = choose|j: int| 0 <= j < self.entries@.len() && self.entries@[j].0@ == peer@;
                assert(self.entries@[j].0@ != peer@);
            }
        }
        None
    }
}

} // verus!
