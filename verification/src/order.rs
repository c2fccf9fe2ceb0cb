use vstd::prelude::*;
use crate::peer::{PeerKey, keys_view};

verus! {

/// `s` is in ascending lexicographic order.
pub open spec fn sorted_lex(s: Seq<Seq<u8>>) -> bool {
    forall|i: int, j: int| 0 <= i < j < s.len() ==> #[trigger] lex_le(s[i], s[j]) || i == j
}

/// Lexicographic order on byte strings, the order of `[u8]` and `Vec<u8>`:
/// the first differing byte decides, and a proper prefix comes first.
pub open spec fn lex_le(a: Seq<u8>, b: Seq<u8>) -> bool
    decreases a.len(),
{
    if a.len() == 0 {
        true
    } else if b.len() == 0 {
        false
    } else if a[0] < b[0] {
        true
    } else if a[0] > b[0] {
        false
    } else {
        lex_le(a.drop_first(), b.drop_first())
    }
}

/// Every byte string comes no later than itself.
pub proof fn lemma_lex_reflexive(a: Seq<u8>)
    ensures
        lex_le(a, a),
    decreases a.len(),
{
    if a.len() > 0 {
        lemma_lex_reflexive(a.drop_first());
    }
}

/// Any two byte strings are ordered one way or the other.
pub proof fn lemma_lex_total(a: Seq<u8>, b: Seq<u8>)
    ensures
        lex_le(a, b) || lex_le(b, a),
    decreases a.len(),
{
    if a.len() > 0 && b.len() > 0 && a[0] == b[0] {
        lemma_lex_total(a.drop_first(), b.drop_first());
    }
}

/// Two byte strings each no later than the other are equal.
pub proof fn lemma_lex_antisymmetric(a: Seq<u8>, b: Seq<u8>)
    requires
        lex_le(a, b),
        lex_le(b, a),
    ensures
        a == b,
    decreases a.len(),
{
    if a.len() > 0 && b.len() > 0 {
        lemma_lex_antisymmetric(a.drop_first(), b.drop_first());
        assert(a =~= seq![a[0]] + a.drop_first());
        assert(b =~= seq![b[0]] + b.drop_first());
    } else {
        assert(a =~= b);
    }
}

/// The lexicographic order is transitive.
pub proof fn lemma_lex_transitive(a: Seq<u8>, b: Seq<u8>, c: Seq<u8>)
    requires
        lex_le(a, b),
        lex_le(b, c),
    ensures
        lex_le(a, c),
    decreases a.len(),
{
    if a.len() > 0 && b.len() > 0 && c.len() > 0 && a[0] == b[0] && b[0] == c[0] {
        lemma_lex_transitive(a.drop_first(), b.drop_first(), c.drop_first());
    }
}

/// Compares two byte strings in lexicographic order.
pub fn bytes_le(a: &Vec<u8>, b: &Vec<u8>) -> (r: bool)
    ensures
        r == lex_le(a@, b@),
{
    let mut i: usize = 0;
    assert(a@.skip(0) =~= a@ && b@.skip(0) =~= b@);
    while i < a.len() && i < b.len()
        invariant
            i <= a@.len(),
            i <= b@.len(),
            lex_le(a@, b@) == lex_le(a@.skip(i as int), b@.skip(i as int)),
        decreases a.len() - i,
    {
        let x = a[i];
        let y = b[i];
        assert(a@.skip(i as int)[0] == x && b@.skip(i as int)[0] == y);
        if x < y {
            return true;
        }
        if x > y {
            return false;
        }
        assert(a@.skip(i as int).drop_first() =~= a@.skip(i + 1));
        assert(b@.skip(i as int).drop_first() =~= b@.skip(i + 1));
        i = i + 1;
    }
    if i == a.len() {
        assert(a@.skip(i as int).len() == 0);
        true
    } else {
        assert(b@.skip(i as int).len() == 0);
        false
    }
}

/// Sorts peers in ascending order of their encodings.
pub fn sort_peers(peers: &[PeerKey]) -> (sorted: Vec<PeerKey>)
    ensures
        keys_view(sorted@).to_multiset() == keys_view(peers@).to_multiset(),
        sorted_lex(keys_view(sorted@)),
        sorted@.len() == peers@.len(),
{
    let mut sorted: Vec<PeerKey> = Vec::new();
    let mut i: usize = 0;
    assert(keys_view(sorted@) =~= Seq::<Seq<u8>>::empty());
    assert(keys_view(peers@.subrange(0, 0)) =~= Seq::<Seq<u8>>::empty());
    while i < peers.len()
        invariant
            i <= peers@.len(),
            sorted@.len() == i,
            keys_view(sorted@).to_multiset() == keys_view(peers@.subrange(0, i as int)).to_multiset(),
            sorted_lex(keys_view(sorted@)),
        decreases peers@.len() - i,
    {
        let x = peers[i].duplicate();
        let ghost before = keys_view(sorted@);
        // find the first position whose key is strictly greater than x
        let mut p: usize = 0;
        while p < sorted.len() && bytes_le(&sorted[p].bytes, &x.bytes)
            invariant
                p <= sorted@.len(),
                sorted@.len() == i,
                keys_view(sorted@) == before,
                forall|k: int| 0 <= k < p ==> lex_le(#[trigger] before[k], x@),
            decreases sorted@.len() - p,
        {
            p = p + 1;
        }
        proof {
            if p < sorted@.len() {
                assert(!lex_le(before[p as int], x@));
                lemma_lex_total(before[p as int], x@);
            }
        }
        sorted.insert(p, x);
        proof {
            let after = keys_view(sorted@);
            assert(after =~= before.subrange(0, p as int).push(x@) + before.subrange(
                p as int,
                before.len() as int,
            ));
            assert(after =~= before.insert(p as int, x@));
            assert forall|a: int, b: int| 0 <= a < b < after.len() implies #[trigger] lex_le(
                after[a],
                after[b],
            ) || a == b by {
                if b == p {
                } else if a == p {
                    if b > p + 1 {
                        lemma_lex_transitive(x@, before[p as int], before[b - 1]);
                    }
                } else if a < p && b > p {
                } else {
                }
            }
            let pre = peers@.subrange(0, i as int);
            let post = peers@.subrange(0, i + 1);
            assert(post =~= pre.push(peers@[i as int]));
            assert(keys_view(post) =~= keys_view(pre).push(x@));
            before.insert_ensures(p as int, x@);
            vstd::seq_lib::to_multiset_insert(before, p as int, x@);
            vstd::seq_lib::to_multiset_build(keys_view(pre), x@);
        }
        i = i + 1;
    }
    assert(peers@.subrange(0, peers@.len() as int) =~= peers@);
    sorted
}

} // verus!
