use guild_node::addr::PeerAddr;
use guild_node::dht::{KBucket, Kademlia, Node, ALPHA, K_BUCKET_SIZE};
use guild_node::node_id::NodeId;

fn id(first: u8, last: u8) -> NodeId {
    let mut bytes = [0u8; 32];
    bytes[0] = first;
    bytes[31] = last;
    NodeId::new(bytes)
}

fn node(first: u8, last: u8, seen: u64) -> Node {
    Node { id: id(first, last), addr: PeerAddr::loopback(1000 + last as u16), last_seen: seen }
}

#[test]
fn bucket_appends_new_contacts_at_the_tail() {
    let mut b = KBucket::new();
    assert!(b.add_node(node(0x80, 1, 10)));
    assert!(b.add_node(node(0x80, 2, 11)));
    assert_eq!(b.get_nodes(), vec![node(0x80, 1, 10), node(0x80, 2, 11)]);
    assert_eq!(b.len(), 2);
}

#[test]
fn bucket_moves_known_contact_to_the_tail() {
    let mut b = KBucket::new();
    b.add_node(node(0x80, 1, 10));
    b.add_node(node(0x80, 2, 11));
    b.add_node(node(0x80, 3, 12));
    assert!(b.add_node(node(0x80, 1, 99)));
    assert_eq!(b.get_nodes(), vec![node(0x80, 2, 11), node(0x80, 3, 12), node(0x80, 1, 99)]);
}

#[test]
fn full_bucket_refuses_a_new_contact_and_stays_unchanged() {
    let mut b = KBucket::new();
    for k in 0..K_BUCKET_SIZE as u8 {
        assert!(b.add_node(node(0x80, k, k as u64)));
    }
    let before = b.get_nodes();
    assert_eq!(before.len(), 20);
    assert!(!b.add_node(node(0x80, 200, 7)));
    assert_eq!(b.get_nodes(), before);
    assert!(b.add_node(node(0x80, 0, 500)));
    assert_eq!(b.len(), 20);
    assert_eq!(b.get_nodes()[19], node(0x80, 0, 500));
    assert_eq!(b.get_nodes()[0], node(0x80, 1, 1));
}

#[test]
fn bucket_removes_by_identifier() {
    let mut b = KBucket::new();
    b.add_node(node(0x80, 1, 10));
    b.add_node(node(0x80, 2, 11));
    b.remove_node(&id(0x80, 1));
    assert_eq!(b.get_nodes(), vec![node(0x80, 2, 11)]);
    b.remove_node(&id(0x80, 9));
    assert_eq!(b.get_nodes(), vec![node(0x80, 2, 11)]);
}

#[test]
fn table_places_contacts_by_shared_prefix_length() {
    let local = NodeId::new([0u8; 32]);
    let mut t = Kademlia::new(local);
    t.add_node(node(0x80, 0, 1));
    t.add_node(node(0x01, 0, 2));
    t.add_node(node(0x00, 0x01, 3));
    t.add_node(node(0x00, 0x80, 4));
    assert_eq!(t.get_bucket(0), vec![node(0x80, 0, 1)]);
    assert_eq!(t.get_bucket(7), vec![node(0x01, 0, 2)]);
    assert_eq!(t.get_bucket(255), vec![node(0x00, 0x01, 3)]);
    assert_eq!(t.get_bucket(248), vec![node(0x00, 0x80, 4)]);
    assert_eq!(t.get_bucket(1), vec![]);
    assert_eq!(t.get_bucket(256), vec![]);
    for b in 0..256usize {
        for n in t.get_bucket(b) {
            assert_eq!(local.distance(&n.id).leading_zeros(), b);
        }
    }
    assert_eq!(t.get_node_id(), local);
}

#[test]
fn table_ignores_the_local_identifier() {
    let local = id(0x33, 0x44);
    let mut t = Kademlia::new(local);
    t.add_node(Node { id: local, addr: PeerAddr::loopback(1), last_seen: 0 });
    for b in 0..256usize {
        assert!(t.get_bucket(b).is_empty());
    }
}

#[test]
fn table_bucket_holds_at_most_twenty() {
    let mut t = Kademlia::new(NodeId::new([0u8; 32]));
    for k in 0..30u8 {
        t.add_node(node(0x80, k, k as u64));
    }
    let bucket = t.get_bucket(0);
    assert_eq!(bucket.len(), 20);
    assert_eq!(bucket[0], node(0x80, 0, 0));
    assert_eq!(bucket[19], node(0x80, 19, 19));
}

#[test]
fn table_remove_node_takes_the_contact_out() {
    let mut t = Kademlia::new(NodeId::new([0u8; 32]));
    t.add_node(node(0x80, 1, 1));
    t.add_node(node(0x80, 2, 2));
    t.remove_node(&id(0x80, 1));
    assert_eq!(t.get_bucket(0), vec![node(0x80, 2, 2)]);
}

#[test]
fn closest_nodes_come_nearest_first() {
    let mut t = Kademlia::new(NodeId::new([0u8; 32]));
    t.add_node(node(0x80, 0, 1));
    t.add_node(node(0x40, 0, 2));
    t.add_node(node(0x01, 0, 3));
    t.add_node(node(0x00, 0x05, 4));
    let target = NodeId::new([0u8; 32]);
    let all = t.find_closest_nodes(&target, 10);
    assert_eq!(
        all,
        vec![node(0x00, 0x05, 4), node(0x01, 0, 3), node(0x40, 0, 2), node(0x80, 0, 1)]
    );
    let two = t.find_closest_nodes(&target, 2);
    assert_eq!(two, vec![node(0x00, 0x05, 4), node(0x01, 0, 3)]);
    assert!(t.find_closest_nodes(&target, 0).is_empty());
}

#[test]
fn closest_nodes_are_measured_from_the_target() {
    let mut t = Kademlia::new(NodeId::new([0u8; 32]));
    t.add_node(node(0x80, 0, 1));
    t.add_node(node(0x40, 0, 2));
    t.add_node(node(0x01, 0, 3));
    let near_high = id(0x81, 0);
    let got = t.find_closest_nodes(&near_high, 3);
    assert_eq!(got, vec![node(0x80, 0, 1), node(0x01, 0, 3), node(0x40, 0, 2)]);
}

#[test]
fn lookup_returns_alpha_nearest() {
    let mut t = Kademlia::new(NodeId::new([0u8; 32]));
    for k in 1..=10u8 {
        t.add_node(node(0x00, k, k as u64));
    }
    let got = t.lookup(NodeId::new([0u8; 32]));
    assert_eq!(got.len(), ALPHA);
    assert_eq!(got, vec![node(0, 1, 1), node(0, 2, 2), node(0, 3, 3)]);
}
