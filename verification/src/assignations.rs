use vstd::prelude::*;
use crate::address_book::{AddressBook, Address};
use crate::messages::SubnetworkId;
use crate::order::{sort_peers, sorted_lex};
use crate::peer::{
    PeerKey, keys_view, key_set, holds_key, distinct_keys, contains_key, lemma_key_set_push,
    lemma_distinct_push, lemma_key_set_empty,
};

verus! {

/// Who is a member of which DA subnetwork.
///
/// Implemented by the assignation schemes; the connection policies,
/// balancers and protocols ask it which peers belong where.
pub trait MembershipHandler {
    /// The subnetworks that `id` is a member of.
    spec fn membership_view(&self, id: Seq<u8>) -> Set<SubnetworkId>;

    /// Whether `id` belongs to the overall membership.
    spec fn is_allowed_view(&self, id: Seq<u8>) -> bool;

    /// Whether `network_id` is a subnetwork that the handler knows.
    spec fn has_network(&self, network_id: SubnetworkId) -> bool;

    /// The members of subnetwork `network_id`.
    spec fn members_of_view(&self, network_id: SubnetworkId) -> Set<Seq<u8>>;

    /// All members of all subnetworks.
    spec fn members_view(&self) -> Set<Seq<u8>>;

    /// The highest subnetwork id.
    spec fn last_subnetwork_view(&self) -> SubnetworkId;

    /// Known addresses of the members.
    spec fn addresses_view(&self) -> Map<Seq<u8>, Seq<u8>>;

    /// The subnetworks that `id` is a member of, each once.
    fn membership(&self, id: &PeerKey) -> (r: Vec<SubnetworkId>)
        ensures
            r@.to_set() == self.membership_view(id@),
            r@.no_duplicates(),
            forall|s: SubnetworkId| #[trigger] r@.contains(s) ==> self.has_network(s),
    ;

    /// Whether `id` is a member of `network_id`.
    fn is_member_of(&self, id: &PeerKey, network_id: &SubnetworkId) -> (r: bool)
        ensures
            r == self.membership_view(id@).contains(*network_id),
    {
        let nets = self.membership(id);
        let mut i: usize = 0;
        while i < nets.len()
            invariant
                i <= nets@.len(),
                nets@.to_set() == self.membership_view(id@),
                forall|j: int| 0 <= j < i ==> nets@[j] != *network_id,
            decreases nets@.len() - i,
        {
            if nets[i] == *network_id {
                assert(nets@.contains(nets@[i as int]));
                assert(nets@.to_set().contains(nets@[i as int]));
                return true;
            }
            i = i + 1;
        }
        assert(!nets@.to_set().contains(*network_id));
        false
    }

    /// Whether `id` belongs to the overall membership.
    fn is_allowed(&self, id: &PeerKey) -> (r: bool)
        ensures
            r == self.is_allowed_view(id@),
    ;

    /// The members of subnetwork `network_id`, each once.
    fn members_of(&self, network_id: &SubnetworkId) -> (r: Vec<PeerKey>)
        requires
            self.has_network(*network_id),
        ensures
            key_set(r@) == self.members_of_view(*network_id),
            distinct_keys(r@),
    ;

    /// All members, each once.
    fn members(&self) -> (r: Vec<PeerKey>)
        ensures
            key_set(r@) == self.members_view(),
            distinct_keys(r@),
    ;

    /// The highest subnetwork id.
    fn last_subnetwork_id(&self) -> (r: SubnetworkId)
        ensures
            r == self.last_subnetwork_view(),
    ;

    /// The known address of `peer_id`, if any.
    fn get_address(&self, peer_id: &PeerKey) -> (r: Option<Address>)
        ensures
            match r {
                Some(a) => self.addresses_view().contains_key(peer_id@) && a@
                    == self.addresses_view()[peer_id@],
                None => !self.addresses_view().contains_key(peer_id@),
            },
    ;
}

/// `sorted` is the list of `peers` in ascending order.
pub open spec fn is_fill_order(peers: Seq<Seq<u8>>, sorted: Seq<Seq<u8>>) -> bool {
    sorted.to_multiset() == peers.to_multiset() && sorted_lex(sorted)
}

/// The `j`-th peer drawn for subnetwork `i` when the sorted list is read in a
/// cycle, `factor` peers per subnetwork.
pub open spec fn fill_slot(sorted: Seq<Seq<u8>>, factor: int, i: int, j: int) -> Seq<u8> {
    sorted[(i * factor + j) % (sorted.len() as int)]
}

/// The members drawn for subnetwork `i`.
pub open spec fn fill_assignation(sorted: Seq<Seq<u8>>, factor: int, i: int) -> Set<Seq<u8>> {
    Set::new(|p: Seq<u8>| exists|j: int| 0 <= j < factor && #[trigger] fill_slot(sorted, factor, i, j) == p)
}

/// `assignations` fills `subnetwork_size` subnetworks from `peers`: the
/// peers are sorted, then read in a cycle, `factor` at a time, one group per
/// subnetwork.
pub open spec fn fills(
    peers: Seq<Seq<u8>>,
    subnetwork_size: int,
    factor: int,
    assignations: Seq<Set<Seq<u8>>>,
) -> bool {
    exists|sorted: Seq<Seq<u8>>|
        #![trigger is_fill_order(peers, sorted)]
        is_fill_order(peers, sorted) && assignations.len() == subnetwork_size && forall|i: int|
            0 <= i < subnetwork_size ==> #[trigger] assignations[i] == fill_assignation(
                sorted,
                factor,
                i,
            )
}

proof fn lemma_cursor_step(x: int, n: int)
    requires
        n > 0,
        x >= 0,
    ensures
        (x + 1) % n == if x % n + 1 == n {
            0
        } else {
            x % n + 1
        },
{
    assert((x + 1) % n == if x % n + 1 == n { 0 } else { x % n + 1 }) by (nonlinear_arith)
        requires
            n > 0,
            x >= 0,
    ;
}

proof fn lemma_next_row(i: int, f: int)
    ensures
        i * f + f == (i + 1) * f,
{
    assert(i * f + f == (i + 1) * f) by (nonlinear_arith);
}

/// Fills `subnetwork_size` subnetworks with `replication_factor` peers each,
/// reading the sorted peers in a cycle.
fn fill(peers: &[PeerKey], subnetwork_size: usize, replication_factor: usize) -> (r: Vec<
    Vec<PeerKey>,
>)
    requires
        peers@.len() > 0,
    ensures
        fills(
            keys_view(peers@),
            subnetwork_size as int,
            replication_factor as int,
            r@.map_values(|a: Vec<PeerKey>| key_set(a@)),
        ),
        forall|i: int| 0 <= i < r@.len() ==> distinct_keys(#[trigger] r@[i]@),
{
    let sorted = sort_peers(peers);
    let ghost s = keys_view(sorted@);
    let n = sorted.len();
    let f = replication_factor;
    let mut cursor: usize = 0;
    let mut result: Vec<Vec<PeerKey>> = Vec::new();
    let mut i: usize = 0;
    proof {
        assert(0 * (f as int) == 0);
    }
    while i < subnetwork_size
        invariant
            n == sorted@.len(),
            n > 0,
            s == keys_view(sorted@),
            f == replication_factor,
            i <= subnetwork_size,
            result@.len() == i,
            cursor < n,
            cursor == ((i as int) * (f as int)) % (n as int),
            forall|k: int|
                0 <= k < i ==> key_set(#[trigger] result@[k]@) == fill_assignation(s, f as int, k),
            forall|k: int| 0 <= k < i ==> distinct_keys(#[trigger] result@[k]@),
        decreases subnetwork_size - i,
    {
        let mut group: Vec<PeerKey> = Vec::new();
        let mut j: usize = 0;
        proof {
            lemma_key_set_empty();
        }
        while j < f
            invariant
                n == sorted@.len(),
                n > 0,
                s == keys_view(sorted@),
                f == replication_factor,
                j <= f,
                cursor < n,
                cursor == ((i as int) * (f as int) + j) % (n as int),
                key_set(group@) == Set::new(
                    |p: Seq<u8>|
                        exists|jj: int| 0 <= jj < j && #[trigger] fill_slot(s, f as int, i as int, jj) == p,
                ),
                distinct_keys(group@),
            decreases f - j,
        {
            let ghost before = group@;
            let next = &sorted[cursor];
            assert(next@ == fill_slot(s, f as int, i as int, j as int));
            if !contains_key(&group, next) {
                let k = next.duplicate();
                group.push(k);
                proof {
                    lemma_key_set_push(before, k);
                    lemma_distinct_push(before, k);
                }
            }
            proof {
                lemma_cursor_step((i as int) * (f as int) + j, n as int);
                assert(key_set(group@) =~= Set::new(
                    |p: Seq<u8>|
                        exists|jj: int|
                            0 <= jj < j + 1 && #[trigger] fill_slot(s, f as int, i as int, jj) == p,
                )) by {
                    assert forall|p: Seq<u8>| #[trigger] key_set(group@).contains(p) implies exists|
                        jj: int,
                    | 0 <= jj < j + 1 && #[trigger] fill_slot(s, f as int, i as int, jj) == p by {
                        if p != next@ {
                            assert(key_set(before).contains(p));
                        }
                    }
                }
            }
            cursor = if cursor + 1 == n {
                0
            } else {
                cursor + 1
            };
            j = j + 1;
        }
        proof {
            lemma_next_row(i as int, f as int);
            assert(key_set(group@) =~= fill_assignation(s, f as int, i as int));
        }
        result.push(group);
        i = i + 1;
    }
    proof {
        let a = result@.map_values(|g: Vec<PeerKey>| key_set(g@));
        assert(is_fill_order(keys_view(peers@), s));
        assert forall|k: int| 0 <= k < subnetwork_size implies #[trigger] a[k] == fill_assignation(
            s,
            f as int,
            k,
        ) by {
            assert(key_set(result@[k]@) == fill_assignation(s, f as int, k));
        }
    }
    result
}

/// Fills a fixed number of subnetworks from a list of peers: the peers are
/// sorted, then read in a cycle, `dispersal_factor` of them per subnetwork.
pub struct FillFromNodeList {
    assignations: Vec<Vec<PeerKey>>,
    subnetwork_size: usize,
    dispersal_factor: usize,
    addressbook: AddressBook,
}

impl FillFromNodeList {
    #[verifier::type_invariant]
    closed spec fn inv(self) -> bool {
        &&& self.assignations@.len() == self.subnetwork_size
        &&& forall|i: int|
            0 <= i < self.assignations@.len() ==> distinct_keys(#[trigger] self.assignations@[i]@)
        &&& self.addressbook.well_formed()
    }

    /// The members of each subnetwork, by subnetwork index.
    pub closed spec fn assignations_view(self) -> Seq<Set<Seq<u8>>> {
        self.assignations@.map_values(|a: Vec<PeerKey>| key_set(a@))
    }

    pub closed spec fn subnetwork_size_view(self) -> nat {
        self.subnetwork_size as nat
    }

    pub closed spec fn dispersal_factor_view(self) -> nat {
        self.dispersal_factor as nat
    }

    /// Assigns `subnetwork_size` subnetworks from `peers`, which must not
    /// be empty.
    pub fn new(
        peers: &[PeerKey],
        addressbook: AddressBook,
        subnetwork_size: usize,
        dispersal_factor: usize,
    ) -> (r: FillFromNodeList)
        requires
            peers@.len() > 0,
            addressbook.well_formed(),
        ensures
            fills(
                keys_view(peers@),
                subnetwork_size as int,
                dispersal_factor as int,
                r.assignations_view(),
            ),
            r.subnetwork_size_view() == subnetwork_size,
            r.dispersal_factor_view() == dispersal_factor,
            r.addresses_view() == addressbook@,
    {
        let assignations = fill(peers, subnetwork_size, dispersal_factor);
        FillFromNodeList { assignations, subnetwork_size, dispersal_factor, addressbook }
    }

    /// The same assignation with another address book.
    pub fn clone_with_different_addressbook(&self, addressbook: AddressBook) -> (r: FillFromNodeList)
        requires
            addressbook.well_formed(),
        ensures
            r.assignations_view() == self.assignations_view(),
            r.subnetwork_size_view() == self.subnetwork_size_view(),
            r.dispersal_factor_view() == self.dispersal_factor_view(),
            r.addresses_view() == addressbook@,
    {
        proof {
            use_type_invariant(self);
        }
        let mut assignations: Vec<Vec<PeerKey>> = Vec::new();
        let mut i: usize = 0;
        while i < self.assignations.len()
            invariant
                i <= self.assignations@.len(),
                assignations@.len() == i,
                forall|k: int|
                    0 <= k < i ==> (#[trigger] assignations@[k])@ == self.assignations@[k]@
                        || keys_view(assignations@[k]@) == keys_view(self.assignations@[k]@),
                forall|k: int|
                    0 <= k < i ==> keys_view(#[trigger] assignations@[k]@) == keys_view(
                        self.assignations@[k]@,
                    ),
            decreases self.assignations@.len() - i,
        {
            let src = &self.assignations[i];
            let mut copy: Vec<PeerKey> = Vec::new();
            let mut j: usize = 0;
            while j < src.len()
                invariant
                    j <= src@.len(),
                    keys_view(copy@) == keys_view(src@.subrange(0, j as int)),
                decreases src@.len() - j,
            {
                copy.push(src[j].duplicate());
                assert(keys_view(src@.subrange(0, j + 1)) =~= keys_view(src@.subrange(0, j as int)).push(src@[j as int]@));
                assert(keys_view(copy@) =~= keys_view(src@.subrange(0, j as int)).push(src@[j as int]@));
                j = j + 1;
            }
            assert(src@.subrange(0, src@.len() as int) =~= src@);
            assignations.push(copy);
            i = i + 1;
        }
        proof {
            assert forall|k: int| 0 <= k < i implies distinct_keys(#[trigger] assignations@[k]@) by {
                let a = assignations@[k]@;
                let b = self.assignations@[k]@;
                assert forall|x: int, y: int| 0 <= x < y < a.len() implies #[trigger] a[x]@ != #[trigger] a[y]@ by {
                    assert(keys_view(a)[x] == keys_view(b)[x]);
                    assert(keys_view(a)[y] == keys_view(b)[y]);
                    assert(b[x]@ != b[y]@);
                }
            }
            assert forall|k: int| 0 <= k < i implies key_set(#[trigger] assignations@[k]@) == key_set(self.assignations@[k]@) by {
                let a = assignations@[k]@;
                let b = self.assignations@[k]@;
                assert forall|p: Seq<u8>| holds_key(a, p) <==> holds_key(b, p) by {
                    if holds_key(a, p) {
                        let x = choose|x: int| 0 <= x < a.len() && #[trigger] a[x]@ == p;
                        assert(keys_view(a)[x] == keys_view(b)[x]);
                        assert(b[x]@ == p);
                    }
                    if holds_key(b, p) {
                        let x = choose|x: int| 0 <= x < b.len() && #[trigger] b[x]@ == p;
                        assert(keys_view(a)[x] == keys_view(b)[x]);
                        assert(a[x]@ == p);
                    }
                }
                assert(key_set(a) =~= key_set(b));
            }
            assert(assignations@.map_values(|a: Vec<PeerKey>| key_set(a@)) =~= self.assignations@.map_values(|a: Vec<PeerKey>| key_set(a@)));
        }
        FillFromNodeList {
            assignations,
            subnetwork_size: self.subnetwork_size,
            dispersal_factor: self.dispersal_factor,
            addressbook,
        }
    }
}

/// The subnetwork id reported for assignation index `i`: the index
/// truncated to 16 bits.
pub open spec fn network_id_of(i: int) -> SubnetworkId {
    (i % 65536) as SubnetworkId
}

/// `(len - 1)` saturating at zero, truncated to 16 bits.
pub open spec fn last_network_id(len: int) -> SubnetworkId {
    if len == 0 {
        0
    } else {
        network_id_of(len - 1)
    }
}

impl Clone for FillFromNodeList {
    /// A copy with the same assignation and addresses.
    fn clone(&self) -> (r: Self)
        ensures
            r.assignations_view() == self.assignations_view(),
            r.subnetwork_size_view() == self.subnetwork_size_view(),
            r.dispersal_factor_view() == self.dispersal_factor_view(),
            r.addresses_view() == self.addresses_view(),
    {
        proof {
            use_type_invariant(self);
        }
        self.clone_with_different_addressbook(self.addressbook.duplicate())
    }
}

impl MembershipHandler for FillFromNodeList {
    closed spec fn membership_view(&self, id: Seq<u8>) -> Set<SubnetworkId> {
        Set::new(
            |n: SubnetworkId|
                exists|i: int|
                    0 <= i < self.assignations@.len() && network_id_of(i) == n && holds_key(
                        #[trigger] self.assignations@[i]@,
                        id,
                    ),
        )
    }

    closed spec fn is_allowed_view(&self, id: Seq<u8>) -> bool {
        exists|i: int| 0 <= i < self.assignations@.len() && holds_key(#[trigger] self.assignations@[i]@, id)
    }

    closed spec fn has_network(&self, network_id: SubnetworkId) -> bool {
        (network_id as int) < self.assignations@.len()
    }

    closed spec fn members_of_view(&self, network_id: SubnetworkId) -> Set<Seq<u8>> {
        key_set(self.assignations@[network_id as int]@)
    }

    closed spec fn members_view(&self) -> Set<Seq<u8>> {
        Set::new(|p: Seq<u8>| self.is_allowed_view(p))
    }

    closed spec fn last_subnetwork_view(&self) -> SubnetworkId {
        last_network_id(self.subnetwork_size as int)
    }

    closed spec fn addresses_view(&self) -> Map<Seq<u8>, Seq<u8>> {
        self.addressbook@
    }

    fn membership(&self, id: &PeerKey) -> (r: Vec<SubnetworkId>) {
        let mut nets: Vec<SubnetworkId> = Vec::new();
        let mut i: usize = 0;
        while i < self.assignations.len()
            invariant
                i <= self.assignations@.len(),
                nets@.no_duplicates(),
                forall|n: SubnetworkId|
                    nets@.contains(n) <==> exists|k: int|
                        0 <= k < i && network_id_of(k) == n && holds_key(
                            #[trigger] self.assignations@[k]@,
                            id@,
                        ),
            decreases self.assignations@.len() - i,
        {
            if contains_key(&self.assignations[i], id) {
                let net: SubnetworkId = (i % 65536) as SubnetworkId;
                let mut seen = false;
                let mut k: usize = 0;
                while k < nets.len()
                    invariant
                        k <= nets@.len(),
                        seen == nets@.subrange(0, k as int).contains(net),
                    decreases nets@.len() - k,
                {
                    let ghost was = seen;
                    if nets[k] == net {
                        seen = true;
                    }
                    proof {
                        let a = nets@.subrange(0, k as int);
                        let b = nets@.subrange(0, k + 1);
                        assert(b =~= a.push(nets@[k as int]));
                        if b.contains(net) {
                            let x = choose|x: int| 0 <= x < b.len() && b[x] == net;
                            if x < k {
                                assert(a[x] == net);
                            }
                        }
                        if a.contains(net) {
                            let x = choose|x: int| 0 <= x < a.len() && a[x] == net;
                            assert(b[x] == net);
                        }
                        if nets@[k as int] == net {
                            assert(b[k as int] == net);
                        }
                    }
                    k = k + 1;
                }
                assert(nets@.subrange(0, nets@.len() as int) =~= nets@);
                let ghost before = nets@;
                if !seen {
                    nets.push(net);
                }
                proof {
                    assert(network_id_of(i as int) == net);
                    assert(nets@.contains(net)) by {
                        if seen {
                            assert(before.contains(net));
                        } else {
                            assert(nets@[before.len() as int] == net);
                        }
                    }
                    assert forall|n: SubnetworkId| nets@.contains(n) <==> exists|k: int|
                        0 <= k < i + 1 && network_id_of(k) == n && holds_key(
                            #[trigger] self.assignations@[k]@,
                            id@,
                        ) by {
                        if nets@.contains(n) && n != net {
                            let x = choose|x: int| 0 <= x < nets@.len() && nets@[x] == n;
                            assert(x < before.len());
                            assert(before[x] == n);
                            assert(before.contains(n));
                        }
                        if n != net && exists|k: int|
                            0 <= k < i + 1 && network_id_of(k) == n && holds_key(
                                #[trigger] self.assignations@[k]@,
                                id@,
                            ) {
                            let k = choose|k: int|
                                0 <= k < i + 1 && network_id_of(k) == n && holds_key(
                                    #[trigger] self.assignations@[k]@,
                                    id@,
                                );
                            assert(k != i);
                            assert(before.contains(n));
                            let x = choose|x: int| 0 <= x < before.len() && before[x] == n;
                            assert(nets@[x] == n);
                        }
                    }
                }
            }
            i = i + 1;
        }
        proof {
            assert forall|n: SubnetworkId| nets@.to_set().contains(n) == self.membership_view(id@).contains(n) by {
                assert(nets@.to_set().contains(n) == nets@.contains(n));
            }
            assert(nets@.to_set() =~= self.membership_view(id@));
            assert forall|s: SubnetworkId| #[trigger] nets@.contains(s) implies self.has_network(s) by {
                let k = choose|k: int|
                    0 <= k < i && network_id_of(k) == s && holds_key(
                        #[trigger] self.assignations@[k]@,
                        id@,
                    );
                assert(network_id_of(k) as int <= k);
            }
        }
        nets
    }

    fn is_allowed(&self, id: &PeerKey) -> (r: bool) {
        let mut i: usize = 0;
        while i < self.assignations.len()
            invariant
                i <= self.assignations@.len(),
                forall|k: int| 0 <= k < i ==> !holds_key(#[trigger] self.assignations@[k]@, id@),
            decreases self.assignations@.len() - i,
        {
            if contains_key(&self.assignations[i], id) {
                return true;
            }
            i = i + 1;
        }
        false
    }

    fn members_of(&self, network_id: &SubnetworkId) -> (r: Vec<PeerKey>) {
        proof {
            use_type_invariant(self);
        }
        let src = &self.assignations[*network_id as usize];
        let mut copy: Vec<PeerKey> = Vec::new();
        let mut j: usize = 0;
        proof {
            lemma_key_set_empty();
        }
        while j < src.len()
            invariant
                j <= src@.len(),
                distinct_keys(src@),
                distinct_keys(copy@),
                copy@.len() == j,
                forall|x: int| 0 <= x < j ==> (#[trigger] copy@[x])@ == src@[x]@,
            decreases src@.len() - j,
        {
            let ghost before = copy@;
            let k = src[j].duplicate();
            copy.push(k);
            proof {
                assert forall|x: int, y: int| 0 <= x < y < copy@.len() implies #[trigger] copy@[x]@
                    != #[trigger] copy@[y]@ by {
                    assert(src@[x]@ != src@[y]@);
                }
            }
            j = j + 1;
        }
        proof {
            assert forall|p: Seq<u8>| holds_key(copy@, p) <==> holds_key(src@, p) by {
                if holds_key(copy@, p) {
                    let x = choose|x: int| 0 <= x < copy@.len() && #[trigger] copy@[x]@ == p;
                    assert(src@[x]@ == p);
                }
                if holds_key(src@, p) {
                    let x = choose|x: int| 0 <= x < src@.len() && #[trigger] src@[x]@ == p;
                    assert(copy@[x]@ == p);
                }
            }
            assert(key_set(copy@) =~= key_set(src@));
        }
        copy
    }

    fn members(&self) -> (r: Vec<PeerKey>) {
        let mut all: Vec<PeerKey> = Vec::new();
        let mut i: usize = 0;
        proof {
            lemma_key_set_empty();
        }
        while i < self.assignations.len()
            invariant
                i <= self.assignations@.len(),
                distinct_keys(all@),
                forall|p: Seq<u8>|
                    #[trigger] holds_key(all@, p) <==> exists|k: int|
                        0 <= k < i && holds_key(#[trigger] self.assignations@[k]@, p),
            decreases self.assignations@.len() - i,
        {
            let group = &self.assignations[i];
            let mut j: usize = 0;
            while j < group.len()
                invariant
                    i < self.assignations@.len(),
                    group == &self.assignations@[i as int],
                    j <= group@.len(),
                    distinct_keys(all@),
                    forall|p: Seq<u8>|
                        #[trigger] holds_key(all@, p) <==> (exists|k: int|
                            0 <= k < i && holds_key(#[trigger] self.assignations@[k]@, p)) || exists|
                            x: int,
                        | 0 <= x < j && #[trigger] group@[x]@ == p,
                decreases group@.len() - j,
            {
                let ghost before = all@;
                if !contains_key(&all, &group[j]) {
                    let k = group[j].duplicate();
                    all.push(k);
                    proof {
                        lemma_distinct_push(before, k);
                        lemma_key_set_push(before, k);
                        assert forall|p: Seq<u8>| #[trigger] holds_key(all@, p) <==> holds_key(before, p) || p == k@ by {
                            assert(key_set(all@).contains(p) == holds_key(all@, p));
                            assert(key_set(before).contains(p) == holds_key(before, p));
                        }
                    }
                }
                proof {
                    assert forall|p: Seq<u8>| #[trigger] holds_key(all@, p) <==> (exists|k: int|
                        0 <= k < i && holds_key(#[trigger] self.assignations@[k]@, p)) || exists|x: int|
                        0 <= x < j + 1 && #[trigger] group@[x]@ == p by {
                        if p == group@[j as int]@ {
                            assert(holds_key(all@, p));
                        }
                    }
                }
                j = j + 1;
            }
            proof {
                assert forall|p: Seq<u8>| #[trigger] holds_key(all@, p) <==> exists|k: int|
                    0 <= k < i + 1 && holds_key(#[trigger] self.assignations@[k]@, p) by {
                    if holds_key(group@, p) {
                        let x = choose|x: int| 0 <= x < group@.len() && #[trigger] group@[x]@ == p;
                        assert(holds_key(all@, p));
                    }
                    if exists|k: int| 0 <= k < i + 1 && holds_key(#[trigger] self.assignations@[k]@, p) {
                        let k = choose|k: int| 0 <= k < i + 1 && holds_key(#[trigger] self.assignations@[k]@, p);
                        if k == i {
                            let x = choose|x: int| 0 <= x < group@.len() && #[trigger] group@[x]@ == p;
                        }
                    }
                }
            }
            i = i + 1;
        }
        proof {
            assert(key_set(all@) =~= self.members_view());
        }
        all
    }

    fn last_subnetwork_id(&self) -> (r: SubnetworkId) {
        let last = if self.subnetwork_size == 0 {
            0
        } else {
            self.subnetwork_size - 1
        };
        (last % 65536) as SubnetworkId
    }

    fn get_address(&self, peer_id: &PeerKey) -> (r: Option<Address>) {
        proof {
            use_type_invariant(self);
        }
        match self.addressbook.get_address(peer_id) {
            Some(a) => {
                let copy = a.clone();
                assert(copy@ =~= a@);
                Some(copy)
            },
            None => None,
        }
    }
}

/// Positions `x + a` and `x + b` fall on different slots of a cycle of
/// length `n` when `a` and `b` differ by less than `n`.
proof fn lemma_cycle_positions_distinct(x: int, a: int, b: int, n: int)
    requires
        x >= 0,
        0 <= a < b,
        b - a < n,
    ensures
        (x + a) % n != (x + b) % n,
{
    let d = b - a;
    assert((x + a) % n != (x + a + d) % n) by (nonlinear_arith)
        requires
            x + a >= 0,
            0 < d < n,
    ;
}

/// Every slot of a cycle of length `n` is reached from `x` within `n`
/// steps.
proof fn lemma_cycle_reaches(x: int, k: int, n: int) -> (j: int)
    requires
        x >= 0,
        0 <= k < n,
    ensures
        0 <= j < n,
        (x + j) % n == k,
{
    let r = x % n;
    let j = if k >= r {
        k - r
    } else {
        k - r + n
    };
    assert(0 <= r < n) by (nonlinear_arith)
        requires
            x >= 0,
            n > 0,
            r == x % n,
    ;
    assert((x + j) % n == k) by (nonlinear_arith)
        requires
            x >= 0,
            n > 0,
            r == x % n,
            0 <= k < n,
            j == (if k >= r {
                k - r
            } else {
                k - r + n
            }),
    ;
    j
}

/// The subnetwork `i` of a fill with factor `factor` over distinct peers
/// (in the order `sorted`) holds `factor` of them, or all of them when there
/// are fewer.
pub proof fn lemma_fill_assignation_size(sorted: Seq<Seq<u8>>, factor: int, i: int)
    requires
        sorted.no_duplicates(),
        sorted.len() > 0,
        factor >= 0,
        i >= 0,
    ensures
        fill_assignation(sorted, factor, i).finite(),
        fill_assignation(sorted, factor, i).len() == if factor <= sorted.len() {
            factor
        } else {
            sorted.len() as int
        },
        fill_assignation(sorted, factor, i).subset_of(sorted.to_set()),
{
    let n = sorted.len() as int;
    let x = i * factor;
    assert(x >= 0) by (nonlinear_arith)
        requires
            i >= 0,
            factor >= 0,
            x == i * factor,
    ;
    let a = fill_assignation(sorted, factor, i);
    assert forall|j: int| 0 <= j < factor implies 0 <= #[trigger] ((x + j) % n) < n by {
        assert(0 <= (x + j) % n < n) by (nonlinear_arith)
            requires
                x + j >= 0,
                n > 0,
        ;
    }
    assert(a.subset_of(sorted.to_set())) by {
        assert forall|p: Seq<u8>| a.contains(p) implies sorted.to_set().contains(p) by {
            let j = choose|j: int| 0 <= j < factor && #[trigger] fill_slot(sorted, factor, i, j) == p;
            assert(0 <= (x + j) % n < n);
            assert(sorted.contains(sorted[(x + j) % n]));
        }
    }
    if factor <= n {
        let slots = Seq::new(factor as nat, |j: int| fill_slot(sorted, factor, i, j));
        assert(slots.no_duplicates()) by {
            assert forall|j1: int, j2: int| 0 <= j1 < slots.len() && 0 <= j2 < slots.len() && j1 != j2 implies slots[j1]
                != slots[j2] by {
                if j1 < j2 {
                    lemma_cycle_positions_distinct(x, j1, j2, n);
                } else {
                    lemma_cycle_positions_distinct(x, j2, j1, n);
                }
                assert(0 <= (x + j1) % n < n);
                assert(0 <= (x + j2) % n < n);
            }
        }
        assert(slots.to_set() =~= a) by {
            assert forall|p: Seq<u8>| a.contains(p) implies slots.to_set().contains(p) by {
                let j = choose|j: int| 0 <= j < factor && #[trigger] fill_slot(sorted, factor, i, j) == p;
                assert(slots[j] == p);
            }
            assert forall|p: Seq<u8>| slots.to_set().contains(p) implies a.contains(p) by {
                let j = choose|j: int| 0 <= j < slots.len() && slots[j] == p;
                assert(fill_slot(sorted, factor, i, j) == p);
            }
        }
        slots.unique_seq_to_set();
    } else {
        assert(sorted.to_set() =~= a) by {
            assert forall|p: Seq<u8>| sorted.to_set().contains(p) implies a.contains(p) by {
                let k = choose|k: int| 0 <= k < n && sorted[k] == p;
                let j = lemma_cycle_reaches(x, k, n);
                assert(fill_slot(sorted, factor, i, j) == p);
            }
        }
        sorted.unique_seq_to_set();
    }
}

/// Filling from distinct peers gives each subnetwork `factor` members, or
/// all peers when there are fewer, always among the peers.
pub proof fn lemma_fill_subnetwork_sizes(
    peers: Seq<Seq<u8>>,
    subnetwork_size: int,
    factor: int,
    assignations: Seq<Set<Seq<u8>>>,
)
    requires
        fills(peers, subnetwork_size, factor, assignations),
        peers.no_duplicates(),
        peers.len() > 0,
        factor >= 0,
    ensures
        forall|i: int|
            0 <= i < subnetwork_size ==> {
                &&& (#[trigger] assignations[i]).finite()
                &&& assignations[i].len() == if factor <= peers.len() {
                    factor
                } else {
                    peers.len() as int
                }
                &&& assignations[i].subset_of(peers.to_set())
            },
{
    let sorted = choose|sorted: Seq<Seq<u8>>|
        #![trigger is_fill_order(peers, sorted)]
        is_fill_order(peers, sorted) && assignations.len() == subnetwork_size && forall|i: int|
            0 <= i < subnetwork_size ==> #[trigger] assignations[i] == fill_assignation(sorted, factor, i);
    peers.lemma_multiset_has_no_duplicates();
    peers.to_multiset_ensures();
    sorted.to_multiset_ensures();
    sorted.lemma_multiset_has_no_duplicates_conv();
    assert(sorted.len() == peers.len());
    assert(sorted.to_set() =~= peers.to_set()) by {
        assert forall|p: Seq<u8>| sorted.to_set().contains(p) == peers.to_set().contains(p) by {
            assert(sorted.contains(p) == sorted.to_multiset().contains(p));
            assert(peers.contains(p) == peers.to_multiset().contains(p));
        }
    }
    assert forall|i: int| 0 <= i < subnetwork_size implies {
        &&& (#[trigger] assignations[i]).finite()
        &&& assignations[i].len() == if factor <= peers.len() {
            factor
        } else {
            peers.len() as int
        }
        &&& assignations[i].subset_of(peers.to_set())
    } by {
        lemma_fill_assignation_size(sorted, factor, i);
    }
}

/// For a fill of at most 65536 subnetworks, the subnetworks a peer is said
/// to be a member of are exactly those whose members include it; and a
/// peer belongs to the membership exactly when it is a member of some
/// subnetwork.
pub proof fn lemma_membership_matches_members(fill: FillFromNodeList, p: Seq<u8>, s: SubnetworkId)
    requires
        fill.assignations_view().len() <= 65536,
        (s as int) < fill.assignations_view().len(),
    ensures
        fill.membership_view(p).contains(s) <==> fill.members_of_view(s).contains(p),
        fill.is_allowed_view(p) <==> exists|t: SubnetworkId| #[trigger] fill.membership_view(p).contains(t),
{
    let n = fill.assignations@.len();
    if fill.is_allowed_view(p) {
        let i = choose|i: int| 0 <= i < n && holds_key(#[trigger] fill.assignations@[i]@, p);
        assert(fill.membership_view(p).contains(network_id_of(i)));
    }
    if exists|t: SubnetworkId| #[trigger] fill.membership_view(p).contains(t) {
        let t = choose|t: SubnetworkId| #[trigger] fill.membership_view(p).contains(t);
        let i = choose|i: int|
            0 <= i < n && network_id_of(i) == t && holds_key(#[trigger] fill.assignations@[i]@, p);
        assert(fill.is_allowed_view(p));
    }
    if fill.membership_view(p).contains(s) {
        let i = choose|i: int|
            0 <= i < n && network_id_of(i) == s && holds_key(#[trigger] fill.assignations@[i]@, p);
        assert(network_id_of(i) as int == i);
    }
    if fill.members_of_view(s).contains(p) {
        assert(network_id_of(s as int) == s);
        assert(holds_key(fill.assignations@[s as int]@, p));
    }
}

} // verus!
