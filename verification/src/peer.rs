use vstd::prelude::*;

verus! {

/// Identity of a peer on the network, held as the byte encoding of its
/// multihash-based peer id.
#[derive(Debug)]
pub struct PeerKey {
    pub bytes: Vec<u8>,
}

impl View for PeerKey {
    type V = Seq<u8>;

    open spec fn view(&self) -> Seq<u8> {
        self.bytes@
    }
}

impl PeerKey {
    /// Builds a peer key from the byte encoding of a peer id.
    pub fn from_bytes(bytes: Vec<u8>) -> (key: PeerKey)
        ensures
            key@ == bytes@,
    {
        PeerKey { bytes }
    }

    /// Whether two keys name the same peer.
    pub fn same_as(&self, other: &PeerKey) -> (r: bool)
        ensures
            r == (self@ == other@),
    {
        let n = self.bytes.len();
        if n != other.bytes.len() {
            return false;
        }
        let mut i: usize = 0;
        while i < n
            invariant
                n == self.bytes.len(),
                n == other.bytes.len(),
                i <= n,
                forall|j: int| 0 <= j < i ==> self@[j] == other@[j],
            decreases n - i,
        {
            if self.bytes[i] != other.bytes[i] {
                return false;
            }
            i = i + 1;
        }
        assert(self@ =~= other@);
        true
    }

    /// A copy of this key.
    pub fn duplicate(&self) -> (key: PeerKey)
        ensures
            key@ == self@,
    {
        let mut bytes: Vec<u8> = Vec::new();
        let mut i: usize = 0;
        while i < self.bytes.len()
            invariant
                i <= self.bytes.len(),
                bytes@ == self@.subrange(0, i as int),
            decreases self.bytes.len() - i,
        {
            bytes.push(self.bytes[i]);
            i = i + 1;
        }
        assert(bytes@ =~= self@);
        PeerKey { bytes }
    }
}

/// The views of a sequence of keys.
pub open spec fn keys_view(keys: Seq<PeerKey>) -> Seq<Seq<u8>> {
    keys.map_values(|k: PeerKey| k@)
}

/// Whether `keys` holds a key for `peer`.
pub open spec fn holds_key(keys: Seq<PeerKey>, peer: Seq<u8>) -> bool {
    exists|i: int| 0 <= i < keys.len() && #[trigger] keys[i]@ == peer
}

/// No peer occurs twice in `keys`.
pub open spec fn distinct_keys(keys: Seq<PeerKey>) -> bool {
    forall|i: int, j: int| 0 <= i < j < keys.len() ==> #[trigger] keys[i]@ != #[trigger] keys[j]@
}

/// The set of peers that `keys` holds.
pub open spec fn key_set(keys: Seq<PeerKey>) -> Set<Seq<u8>> {
    Set::new(|p: Seq<u8>| holds_key(keys, p))
}

/// Position of `peer` in `keys`, if any.
pub fn find_key(keys: &Vec<PeerKey>, peer: &PeerKey) -> (r: Option<usize>)
    ensures
        match r {
            Some(i) => i < keys@.len() && keys@[i as int]@ == peer@ && forall|j: int|
                0 <= j < i ==> #[trigger] keys@[j]@ != peer@,
            None => !holds_key(keys@, peer@),
        },
{
    let mut i: usize = 0;
    while i < keys.len()
        invariant
            i <= keys.len(),
            forall|j: int| 0 <= j < i ==> #[trigger] keys@[j]@ != peer@,
        decreases keys.len() - i,
    {
        if keys[i].same_as(peer) {
            return Some(i);
        }
        i = i + 1;
    }
    None
}

/// Whether `keys` holds a key for `peer`.
pub fn contains_key(keys: &Vec<PeerKey>, peer: &PeerKey) -> (r: bool)
    ensures
        r == holds_key(keys@, peer@),
{
    find_key(keys, peer).is_some()
}

} // verus!

verus! {

/// Adding a key to a list adds its peer to the list's set.
pub proof fn lemma_key_set_push(keys: Seq<PeerKey>, k: PeerKey)
    ensures
        key_set(keys.push(k)) == key_set(keys).insert(k@),
{
    let s = keys.push(k);
    assert forall|p: Seq<u8>| key_set(s).contains(p) <==> key_set(keys).insert(k@).contains(p) by {
        if holds_key(s, p) {
            let i = choose|i: int| 0 <= i < s.len() && #[trigger] s[i]@ == p;
            if i < keys.len() {
                assert(keys[i]@ == p);
            }
        }
        if holds_key(keys, p) {
            let i = choose|i: int| 0 <= i < keys.len() && #[trigger] keys[i]@ == p;
            assert(s[i]@ == p);
        }
        if p == k@ {
            assert(s[keys.len() as int]@ == p);
        }
    }
    assert(key_set(s) =~= key_set(keys).insert(k@));
}

/// Adding a key for a peer not yet listed keeps the list free of repeats.
pub proof fn lemma_distinct_push(keys: Seq<PeerKey>, k: PeerKey)
    requires
        distinct_keys(keys),
        !holds_key(keys, k@),
    ensures
        distinct_keys(keys.push(k)),
{
    let s = keys.push(k);
    assert forall|i: int, j: int| 0 <= i < j < s.len() implies #[trigger] s[i]@ != #[trigger] s[j]@ by {
        assert(s[i] == keys[i]);
        if j < keys.len() {
            assert(s[j] == keys[j]);
        } else {
            assert(keys[i]@ != k@);
        }
    }
}

/// The empty list holds no peer.
pub proof fn lemma_key_set_empty()
    ensures
        key_set(Seq::<PeerKey>::empty()) == Set::<Seq<u8>>::empty(),
        distinct_keys(Seq::<PeerKey>::empty()),
{
    assert(key_set(Seq::<PeerKey>::empty()) =~= Set::<Seq<u8>>::empty());
}

/// A list without repeats has as many peers as entries.
pub proof fn lemma_key_set_len(keys: Seq<PeerKey>)
    requires
        distinct_keys(keys),
    ensures
        key_set(keys).finite(),
        key_set(keys).len() == keys.len(),
    decreases keys.len(),
{
    if keys.len() == 0 {
        lemma_key_set_empty();
        assert(keys =~= Seq::<PeerKey>::empty());
    } else {
        let init = keys.drop_last();
        let k = keys.last();
        assert(keys =~= init.push(k));
        assert forall|i: int, j: int| 0 <= i < j < init.len() implies #[trigger] init[i]@
            != #[trigger] init[j]@ by {
            assert(keys[i]@ != keys[j]@);
        }
        lemma_key_set_len(init);
        lemma_key_set_push(init, k);
        if holds_key(init, k@) {
            let i = choose|i: int| 0 <= i < init.len() && #[trigger] init[i]@ == k@;
            assert(keys[i]@ != keys[keys.len() - 1]@);
        }
    }
}

} // verus!
