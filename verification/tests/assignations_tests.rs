use libp2p_identity::PeerId;
use nomos_da::address_book::AddressBook;
use nomos_da::assignations::{FillFromNodeList, MembershipHandler};
use nomos_da::order::{bytes_le, sort_peers};
use nomos_da::peer::PeerKey;

fn random_peers(n: usize) -> Vec<PeerKey> {
    std::iter::repeat_with(PeerId::random)
        .take(n)
        .map(|p| PeerKey::from_bytes(p.to_bytes()))
        .collect()
}

#[test]
fn test_distribution_fill_from_node_list() {
    let nodes = random_peers(100);
    let dispersal_factor = 2;
    let subnetwork_size = 1024;
    let distribution = FillFromNodeList::new(&nodes, AddressBook::empty(), subnetwork_size, dispersal_factor);
    assert_eq!(distribution.last_subnetwork_id(), 1023);
    for subnetwork in 0..subnetwork_size {
        assert_eq!(distribution.members_of(&(subnetwork as u16)).len(), dispersal_factor);
    }
}

#[test]
fn fill_reads_sorted_peers_in_a_cycle() {
    let peers: Vec<PeerKey> = [5u8, 1, 3].iter().map(|b| PeerKey::from_bytes(vec![*b])).collect();
    let fill = FillFromNodeList::new(&peers, AddressBook::empty(), 4, 2);
    let members = |s: u16| -> Vec<Vec<u8>> {
        let mut m: Vec<Vec<u8>> = fill.members_of(&s).into_iter().map(|p| p.bytes).collect();
        m.sort();
        m
    };
    assert_eq!(members(0), vec![vec![1], vec![3]]);
    assert_eq!(members(1), vec![vec![1], vec![5]]);
    assert_eq!(members(2), vec![vec![3], vec![5]]);
    assert_eq!(members(3), vec![vec![1], vec![3]]);
    let mut of_five = fill.membership(&PeerKey::from_bytes(vec![5]));
    of_five.sort();
    assert_eq!(of_five, vec![1, 2]);
    assert!(fill.is_member_of(&PeerKey::from_bytes(vec![1]), &0));
    assert!(!fill.is_member_of(&PeerKey::from_bytes(vec![5]), &0));
    assert!(fill.is_allowed(&PeerKey::from_bytes(vec![3])));
    assert!(!fill.is_allowed(&PeerKey::from_bytes(vec![4])));
    assert_eq!(fill.members().len(), 3);
}

#[test]
fn fill_with_factor_above_peer_count_takes_everyone() {
    let peers = random_peers(3);
    let fill = FillFromNodeList::new(&peers, AddressBook::empty(), 2, 5);
    assert_eq!(fill.members_of(&0).len(), 3);
    assert_eq!(fill.members_of(&1).len(), 3);
}

#[test]
fn fill_knows_addresses_of_its_book() {
    let peers = random_peers(2);
    let book = AddressBook::from_entries(vec![
        (peers[0].duplicate(), b"/ip4/1.2.3.4".to_vec()),
        (peers[0].duplicate(), b"/ip4/5.6.7.8".to_vec()),
    ]);
    let fill = FillFromNodeList::new(&peers, book, 1, 1);
    assert_eq!(fill.get_address(&peers[0]), Some(b"/ip4/5.6.7.8".to_vec()));
    assert_eq!(fill.get_address(&peers[1]), None);
    let other = fill.clone_with_different_addressbook(AddressBook::empty());
    assert_eq!(other.get_address(&peers[0]), None);
    assert_eq!(other.members_of(&0).len(), 1);
}

#[test]
fn peers_sort_lexicographically() {
    let peers: Vec<PeerKey> = [vec![2u8], vec![1, 9], vec![1], vec![]]
        .into_iter()
        .map(PeerKey::from_bytes)
        .collect();
    let sorted: Vec<Vec<u8>> = sort_peers(&peers).into_iter().map(|p| p.bytes).collect();
    assert_eq!(sorted, vec![vec![], vec![1], vec![1, 9], vec![2]]);
    assert!(bytes_le(&vec![1, 2], &vec![1, 2, 0]));
    assert!(!bytes_le(&vec![2], &vec![1, 9]));
}
