use peer_routing::peer::{PeerId, PeerInfo, ReasonForBan};
use peer_routing::peer_manager::KnownPeerStore;
use peer_routing::routing::{
    Edge, EdgeSet, EdgeType, Graph, Route, RoutingTable, SignatureCheck, SignedEdge, Verdict,
};
use peer_routing::time::{Clock, UtcDateTime};

fn peer(n: u128) -> PeerId {
    PeerId::new(0, n)
}

fn edge(a: u128, b: u128, edge_type: EdgeType, nonce: u64) -> Edge {
    Edge::new(peer(a), peer(b), edge_type, nonce, vec![a as u8; 64], vec![b as u8; 64])
}

const VALID: SignatureCheck = SignatureCheck { a_valid: true, b_valid: true };

fn table_of(local: u128, links: &[(u128, u128)]) -> RoutingTable {
    let mut table = RoutingTable::new(peer(local), 10, 100);
    let peers = KnownPeerStore::default();
    for (a, b) in links {
        assert!(table.insert_if_newer(edge(*a, *b, EdgeType::Added, 1), VALID, &peers, 0));
    }
    table
}

#[test]
fn peer_ids_are_ordered_as_numbers() {
    assert!(PeerId::new(0, 1).is_before(&PeerId::new(0, 2)));
    assert!(PeerId::new(0, u128::MAX).is_before(&PeerId::new(1, 0)));
    assert!(!PeerId::new(1, 0).is_before(&PeerId::new(1, 0)));
    assert!(!PeerId::new(2, 0).is_before(&PeerId::new(1, 5)));
    assert!(PeerId::new(0, u128::MAX) < PeerId::new(1, 0));
}

#[test]
fn edge_files_its_peers_in_order() {
    let e = Edge::new(peer(9), peer(4), EdgeType::Added, 3, vec![9], vec![4]);
    assert_eq!(*e.key(), (peer(4), peer(9)));
    assert_eq!(e.signature_a(), &vec![4]);
    assert_eq!(e.signature_b(), &vec![9]);
    assert_eq!(e.nonce(), 3);
    assert_eq!(e.edge_type(), EdgeType::Added);
    assert!(e.is_added());
    let f = Edge::new(peer(4), peer(9), EdgeType::Removed, 3, vec![4], vec![9]);
    assert_eq!(*f.key(), (peer(4), peer(9)));
    assert_eq!(f.signature_a(), &vec![4]);
    assert!(!f.is_added());
    let d = f.duplicate();
    assert_eq!(*d.key(), *f.key());
    assert_eq!(d.nonce(), f.nonce());
    assert_eq!(d.edge_type(), f.edge_type());
    assert_eq!(d.signature_b(), f.signature_b());
}

#[test]
fn signed_bytes_layout() {
    let a = PeerId::new(0x0102, 0x0304);
    let b = PeerId::new(0x0102, 0x0305);
    let e = Edge::new(b, a, EdgeType::Removed, 0x0a0b, vec![], vec![]);
    let mut expected: Vec<u8> = Vec::new();
    expected.extend_from_slice(&0x0102u128.to_le_bytes());
    expected.extend_from_slice(&0x0304u128.to_le_bytes());
    expected.extend_from_slice(&0x0102u128.to_le_bytes());
    expected.extend_from_slice(&0x0305u128.to_le_bytes());
    expected.push(1);
    expected.extend_from_slice(&0x0a0bu64.to_le_bytes());
    assert_eq!(expected.len(), 73);
    assert_eq!(e.signed_bytes(), expected);
    let added = Edge::new(a, b, EdgeType::Added, 0x0a0b, vec![], vec![]);
    let bytes = added.signed_bytes();
    assert_eq!(bytes[64], 0);
    assert_eq!(bytes[..64], expected[..64]);
    assert_eq!(bytes[65..], expected[65..]);
}

#[test]
fn edge_set_keeps_one_edge_per_pair() {
    let peers = KnownPeerStore::default();
    let mut set = EdgeSet::default();
    assert_eq!(set.len(), 0);
    assert!(set.insert(edge(1, 2, EdgeType::Added, 5), VALID, &peers, 100));
    let key = (peer(1), peer(2));
    assert_eq!(set.get(&key).unwrap().nonce(), 5);
    assert_eq!(set.refreshed_at(&key), Some(100));
    assert!(set.get(&(peer(2), peer(1))).is_none());
    assert_eq!(set.refreshed_at(&(peer(1), peer(3))), None);

    // A newer edge takes the place of the one known, whichever way round
    // its peers are named.
    assert!(set.insert(edge(2, 1, EdgeType::Removed, 9), VALID, &peers, 200));
    assert_eq!(set.len(), 1);
    assert_eq!(set.get(&key).unwrap().nonce(), 9);
    assert_eq!(set.get(&key).unwrap().edge_type(), EdgeType::Removed);
    assert_eq!(set.refreshed_at(&key), Some(200));

    assert!(set.insert(edge(1, 3, EdgeType::Added, 1), VALID, &peers, 300));
    assert_eq!(set.len(), 2);
    let mut keys: Vec<(PeerId, PeerId)> = set.iter().iter().map(|e| *e.key()).collect();
    keys.sort();
    assert_eq!(keys, vec![(peer(1), peer(2)), (peer(1), peer(3))]);
    assert_eq!(set.added_pairs(), vec![(peer(1), peer(3))]);

    assert!(set.remove(&key));
    assert!(!set.remove(&key));
    assert_eq!(set.len(), 1);
    assert!(set.get(&key).is_none());
    assert!(set.remove(&(peer(1), peer(3))));
    assert!(set.added_pairs().is_empty());
}

#[test]
fn edge_set_takes_only_newer_edges() {
    let peers = KnownPeerStore::default();
    let mut set = EdgeSet::default();
    let key = (peer(1), peer(2));
    assert!(set.insert(edge(1, 2, EdgeType::Added, 5), VALID, &peers, 10));
    assert!(!set.insert(edge(1, 2, EdgeType::Added, 5), VALID, &peers, 20));
    assert!(!set.insert(edge(1, 2, EdgeType::Removed, 5), VALID, &peers, 20));
    assert!(!set.insert(edge(1, 2, EdgeType::Removed, 4), VALID, &peers, 20));
    assert_eq!(set.get(&key).unwrap().edge_type(), EdgeType::Added);
    assert_eq!(set.refreshed_at(&key), Some(10));
    assert!(set.insert(edge(2, 1, EdgeType::Removed, 6), VALID, &peers, 30));
    assert_eq!(set.get(&key).unwrap().edge_type(), EdgeType::Removed);
    assert_eq!(set.get(&key).unwrap().nonce(), 6);
    assert_eq!(set.refreshed_at(&key), Some(30));
    assert_eq!(set.len(), 1);
}

#[test]
fn edge_set_added_then_removed_then_replayed() {
    let peers = KnownPeerStore::default();
    let mut set = EdgeSet::default();
    let key = (peer(1), peer(2));
    let mut graph = Graph::new(peer(1));

    assert!(set.insert(edge(1, 2, EdgeType::Added, 1), VALID, &peers, 0));
    graph.rebuild(&set);
    assert_eq!(graph.distance(&peer(2)), Some(1));

    assert!(set.insert(edge(1, 2, EdgeType::Removed, 2), VALID, &peers, 0));
    assert_eq!(set.len(), 1);
    assert_eq!(set.get(&key).unwrap().edge_type(), EdgeType::Removed);
    assert_eq!(set.get(&key).unwrap().nonce(), 2);
    graph.rebuild(&set);
    assert!(!graph.is_reachable(&peer(2)));

    assert!(!set.insert(edge(1, 2, EdgeType::Added, 1), VALID, &peers, 0));
    assert_eq!(set.get(&key).unwrap().nonce(), 2);
    graph.rebuild(&set);
    assert!(!graph.is_reachable(&peer(2)));
}

#[test]
fn edge_set_refuses_forged_edges() {
    let peers = KnownPeerStore::default();
    for checks in [
        SignatureCheck { a_valid: false, b_valid: true },
        SignatureCheck { a_valid: true, b_valid: false },
        SignatureCheck { a_valid: false, b_valid: false },
    ] {
        let mut set = EdgeSet::default();
        assert!(set.insert(edge(1, 2, EdgeType::Added, 3), VALID, &peers, 0));
        assert_eq!(set.check(&edge(2, 3, EdgeType::Added, 1), checks, &peers), Verdict::BadSignature);
        // A pair not yet known, and a known pair with the highest nonce there is.
        assert!(!set.insert(edge(2, 3, EdgeType::Added, 1), checks, &peers, 5));
        assert!(!set.insert(edge(1, 2, EdgeType::Removed, u64::MAX), checks, &peers, 5));
        assert_eq!(set.len(), 1);
        assert!(set.get(&(peer(2), peer(3))).is_none());
        assert_eq!(set.get(&(peer(1), peer(2))).unwrap().nonce(), 3);
        assert_eq!(set.refreshed_at(&(peer(1), peer(2))), Some(0));
        let keys: Vec<(PeerId, PeerId)> = set.iter().iter().map(|e| *e.key()).collect();
        assert_eq!(keys, vec![(peer(1), peer(2))]);
        assert_eq!(set.added_pairs(), vec![(peer(1), peer(2))]);
        let mut graph = Graph::new(peer(1));
        graph.rebuild(&set);
        assert!(graph.is_reachable(&peer(2)));
        assert!(!graph.is_reachable(&peer(3)));
    }
}

#[test]
fn edge_set_refuses_edges_of_banned_peers() {
    let mut peers = KnownPeerStore::default();
    let mut set = EdgeSet::default();
    assert!(set.insert(edge(1, 7, EdgeType::Added, 3), VALID, &peers, 0));
    peers.ban_at(&peer(7), ReasonForBan::Abusive, 1);
    assert_eq!(set.check(&edge(7, 9, EdgeType::Added, 1), VALID, &peers), Verdict::BannedPeer);
    assert!(!set.insert(edge(7, 9, EdgeType::Added, 1), VALID, &peers, 2));
    assert!(!set.insert(edge(0, 7, EdgeType::Added, 1), VALID, &peers, 2));
    assert!(!set.insert(edge(1, 7, EdgeType::Removed, u64::MAX), VALID, &peers, 2));
    assert_eq!(set.len(), 1);
    assert_eq!(set.get(&(peer(1), peer(7))).unwrap().nonce(), 3);
    assert_eq!(set.get(&(peer(1), peer(7))).unwrap().edge_type(), EdgeType::Added);
    assert!(set.insert(edge(1, 9, EdgeType::Added, 1), VALID, &peers, 2));
}

#[test]
fn stored_nonce_is_the_highest_accepted() {
    let mut table = RoutingTable::new(peer(1), 10, 100);
    let peers = KnownPeerStore::default();
    let nonces = [3u64, 1, 7, 7, 5, 9, 2];
    let mut highest = 0;
    for n in nonces {
        let accepted = table.insert_if_newer(edge(1, 2, EdgeType::Added, n), VALID, &peers, 0);
        assert_eq!(accepted, n > highest);
        if accepted {
            highest = n;
        }
        assert_eq!(table.edges().get(&(peer(1), peer(2))).unwrap().nonce(), highest);
        assert_eq!(table.edges().len(), 1);
    }
    assert_eq!(highest, 9);
}

#[test]
fn insert_is_idempotent() {
    let mut table = RoutingTable::new(peer(1), 10, 100);
    let peers = KnownPeerStore::default();
    assert!(table.insert_if_newer(edge(1, 2, EdgeType::Added, 4), VALID, &peers, 50));
    assert!(table.is_dirty());
    assert_eq!(table.next_hop(&peer(2)), Some(peer(2)));
    assert!(!table.is_dirty());

    assert!(!table.insert_if_newer(edge(1, 2, EdgeType::Added, 4), VALID, &peers, 60));
    assert!(!table.is_dirty());
    assert_eq!(table.edges().len(), 1);
    assert_eq!(table.edges().refreshed_at(&(peer(1), peer(2))), Some(50));
    assert_eq!(table.next_hop(&peer(2)), Some(peer(2)));
}

#[test]
fn forged_edge_is_never_reflected() {
    let peers = KnownPeerStore::default();
    for checks in [
        SignatureCheck { a_valid: false, b_valid: true },
        SignatureCheck { a_valid: true, b_valid: false },
        SignatureCheck { a_valid: false, b_valid: false },
    ] {
        let mut table = table_of(1, &[(1, 2)]);
        assert_eq!(table.next_hop(&peer(3)), None);
        assert_eq!(
            table.check(&edge(2, 3, EdgeType::Added, u64::MAX), checks, &peers),
            Verdict::BadSignature
        );
        assert!(!table.insert_if_newer(edge(2, 3, EdgeType::Added, u64::MAX), checks, &peers, 1));
        assert!(!table.insert_if_newer(edge(1, 2, EdgeType::Removed, u64::MAX), checks, &peers, 1));
        assert!(!table.is_dirty());
        assert_eq!(table.edges().len(), 1);
        assert!(table.edges().get(&(peer(2), peer(3))).is_none());
        assert!(!table.is_reachable(&peer(3)));
        assert!(table.is_reachable(&peer(2)));
    }
}

#[test]
fn verdicts() {
    let mut table = RoutingTable::new(peer(1), 10, 100);
    let mut peers = KnownPeerStore::default();
    assert_eq!(table.offer(edge(1, 2, EdgeType::Added, 5), VALID, &peers, 0), Verdict::Accepted);
    assert_eq!(table.offer(edge(1, 2, EdgeType::Added, 5), VALID, &peers, 0), Verdict::Stale);
    assert_eq!(table.offer(edge(1, 2, EdgeType::Removed, 4), VALID, &peers, 0), Verdict::Stale);
    assert_eq!(table.offer(edge(1, 2, EdgeType::Removed, 5), VALID, &peers, 0), Verdict::Conflict);
    assert_eq!(
        table.offer(
            edge(1, 2, EdgeType::Removed, 6),
            SignatureCheck { a_valid: true, b_valid: false },
            &peers,
            0
        ),
        Verdict::BadSignature
    );
    peers.ban_at(&peer(2), ReasonForBan::InvalidEdge, 0);
    // The ban is looked at first.
    assert_eq!(
        table.offer(
            edge(1, 2, EdgeType::Removed, 6),
            SignatureCheck { a_valid: false, b_valid: false },
            &peers,
            0
        ),
        Verdict::BannedPeer
    );
    assert_eq!(table.offer(edge(2, 3, EdgeType::Added, 1), VALID, &peers, 0), Verdict::BannedPeer);
    assert_eq!(table.offer(edge(3, 4, EdgeType::Added, 1), VALID, &peers, 0), Verdict::Accepted);
    assert_eq!(table.edges().get(&(peer(1), peer(2))).unwrap().edge_type(), EdgeType::Added);
    assert_eq!(table.edges().len(), 2);
}

#[test]
fn added_then_removed_then_replayed() {
    let mut table = RoutingTable::new(peer(1), 10, 100);
    let peers = KnownPeerStore::default();
    assert_eq!(table.next_hop(&peer(2)), None);
    assert_eq!(table.distance(&peer(1)), Some(0));

    assert!(table.insert_if_newer(edge(1, 2, EdgeType::Added, 1), VALID, &peers, 0));
    assert!(table.is_reachable(&peer(2)));
    assert_eq!(table.distance(&peer(2)), Some(1));
    assert_eq!(table.next_hop(&peer(2)), Some(peer(2)));

    assert!(table.insert_if_newer(edge(1, 2, EdgeType::Removed, 2), VALID, &peers, 0));
    assert!(table.is_dirty());
    assert!(!table.is_reachable(&peer(2)));
    assert_eq!(table.distance(&peer(2)), None);
    assert_eq!(table.next_hop(&peer(2)), None);

    assert!(!table.insert_if_newer(edge(1, 2, EdgeType::Added, 1), VALID, &peers, 0));
    assert!(!table.is_reachable(&peer(2)));
    assert_eq!(table.next_hop(&peer(2)), None);
    assert_eq!(table.edges().get(&(peer(1), peer(2))).unwrap().nonce(), 2);
}

#[test]
fn banned_peer_edges_are_rejected() {
    let mut table = RoutingTable::new(peer(1), 10, 100);
    let mut peers = KnownPeerStore::default();
    let mut clock = Clock::default();
    clock.set_mock();
    clock.add_utc(UtcDateTime::new(1, 0));
    clock.add_utc(UtcDateTime::new(2, 0));
    assert!(table.insert_if_newer(edge(1, 7, EdgeType::Added, 3), VALID, &peers, 0));

    peers.touch(PeerInfo { id: peer(7), addr: None }, &mut clock);
    peers.ban(&peer(7), ReasonForBan::Abusive, &mut clock);

    assert!(!table.insert_if_newer(edge(1, 7, EdgeType::Removed, 4), VALID, &peers, 0));
    assert!(!table.insert_if_newer(edge(1, 7, EdgeType::Added, u64::MAX), VALID, &peers, 0));
    assert!(!table.insert_if_newer(edge(7, 9, EdgeType::Added, 100), VALID, &peers, 0));
    assert!(!table.insert_if_newer(edge(0, 7, EdgeType::Added, 100), VALID, &peers, 0));
    assert_eq!(table.edges().len(), 1);
    assert_eq!(table.edges().get(&(peer(1), peer(7))).unwrap().nonce(), 3);
    // Edges between other peers still come in.
    assert!(table.insert_if_newer(edge(1, 9, EdgeType::Added, 1), VALID, &peers, 0));
}

#[test]
fn dirty_flag_follows_the_set_of_connections() {
    let mut table = RoutingTable::new(peer(1), 10, 100);
    let peers = KnownPeerStore::default();
    assert!(!table.is_dirty());
    // A removal of a connection that was never known changes no connection.
    assert!(table.insert_if_newer(edge(1, 2, EdgeType::Removed, 1), VALID, &peers, 0));
    assert!(!table.is_dirty());
    assert!(table.insert_if_newer(edge(1, 2, EdgeType::Added, 2), VALID, &peers, 0));
    assert!(table.is_dirty());
    table.rebuild_if_dirty();
    assert!(!table.is_dirty());
    // A newer claim of the same kind changes no connection.
    assert!(table.insert_if_newer(edge(1, 2, EdgeType::Added, 3), VALID, &peers, 0));
    assert!(!table.is_dirty());
    assert!(table.insert_if_newer(edge(1, 2, EdgeType::Removed, 4), VALID, &peers, 0));
    assert!(table.is_dirty());
}

#[test]
fn graph_before_any_rebuild_has_no_routes() {
    let graph = Graph::new(peer(1));
    assert_eq!(graph.source(), peer(1));
    assert_eq!(graph.next_hop(&peer(2)), None);
    assert_eq!(graph.next_hop(&peer(1)), None);
    assert_eq!(graph.distance(&peer(1)), None);
    assert!(!graph.is_reachable(&peer(1)));
    assert!(graph.routes().is_empty());
}

#[test]
fn graph_is_rebuilt_from_added_edges_only() {
    let peers = KnownPeerStore::default();
    let mut set = EdgeSet::default();
    set.insert(edge(1, 2, EdgeType::Added, 1), VALID, &peers, 0);
    set.insert(edge(2, 3, EdgeType::Removed, 1), VALID, &peers, 0);
    set.insert(edge(3, 4, EdgeType::Added, 1), VALID, &peers, 0);
    let mut graph = Graph::new(peer(1));
    graph.rebuild(&set);
    let mut routes = graph.routes();
    routes.sort_by_key(|r| r.peer);
    assert_eq!(
        routes,
        vec![
            Route { peer: peer(1), next_hop: peer(1), distance: 0 },
            Route { peer: peer(2), next_hop: peer(2), distance: 1 },
        ]
    );
    assert!(!graph.is_reachable(&peer(3)));
    assert!(!graph.is_reachable(&peer(4)));
    assert_eq!(graph.next_hop(&peer(1)), None);
    assert_eq!(graph.distance(&peer(1)), Some(0));

    // The graph is a snapshot: it changes only when it is rebuilt.
    assert!(set.insert(edge(2, 3, EdgeType::Added, 2), VALID, &peers, 0));
    assert!(!graph.is_reachable(&peer(3)));
    graph.rebuild(&set);
    assert_eq!(graph.distance(&peer(4)), Some(3));
    assert_eq!(graph.next_hop(&peer(4)), Some(peer(2)));
}

#[test]
fn shortest_routes_and_distances() {
    // 1 - 2 - 3 - 4 - 5, and a shortcut 2 - 5.
    let mut table = table_of(1, &[(1, 2), (2, 3), (3, 4), (4, 5), (5, 2)]);
    assert_eq!(table.distance(&peer(1)), Some(0));
    assert_eq!(table.distance(&peer(2)), Some(1));
    assert_eq!(table.distance(&peer(3)), Some(2));
    assert_eq!(table.distance(&peer(5)), Some(2));
    assert_eq!(table.distance(&peer(4)), Some(3));
    for d in 2..=5 {
        assert_eq!(table.next_hop(&peer(d)), Some(peer(2)));
    }
    assert_eq!(table.next_hop(&peer(1)), None);
    assert_eq!(table.next_hop(&peer(6)), None);
    assert_eq!(table.distance(&peer(6)), None);
}

#[test]
fn ties_go_to_the_lowest_first_hop() {
    // Two ways of equal length to 6: over 3 and 4, or over 2 and 5.
    let links = [(1, 3), (3, 4), (4, 6), (1, 2), (2, 5), (5, 6), (1, 9), (9, 6)];
    let mut table = table_of(1, &links);
    assert_eq!(table.distance(&peer(6)), Some(2));
    assert_eq!(table.next_hop(&peer(6)), Some(peer(9)));
    assert_eq!(table.next_hop(&peer(4)), Some(peer(3)));
    assert_eq!(table.next_hop(&peer(5)), Some(peer(2)));

    let links = [(1, 3), (3, 4), (4, 6), (1, 2), (2, 5), (5, 6)];
    let mut table = table_of(1, &links);
    assert_eq!(table.distance(&peer(6)), Some(3));
    assert_eq!(table.next_hop(&peer(6)), Some(peer(2)));

    // A longer way over a lower neighbour does not count.
    let links = [(1, 2), (2, 3), (3, 4), (4, 8), (1, 5), (5, 8)];
    let mut table = table_of(1, &links);
    assert_eq!(table.distance(&peer(8)), Some(2));
    assert_eq!(table.next_hop(&peer(8)), Some(peer(5)));
}

#[test]
fn routes_do_not_depend_on_the_order_of_arrival() {
    let links = [(1, 3), (3, 4), (4, 6), (1, 2), (2, 5), (5, 6), (6, 7), (7, 8), (3, 8)];
    let mut forward = table_of(1, &links);
    let mut reversed: Vec<(u128, u128)> = links.iter().map(|(a, b)| (*b, *a)).collect();
    reversed.reverse();
    let mut backward = table_of(1, &reversed);
    for d in 0..10 {
        assert_eq!(forward.next_hop(&peer(d)), backward.next_hop(&peer(d)));
        assert_eq!(forward.distance(&peer(d)), backward.distance(&peer(d)));
    }
    // Rebuilding again changes nothing.
    let mut first = forward.graph().routes();
    let mut graph = Graph::new(peer(1));
    graph.rebuild(forward.edges());
    graph.rebuild(forward.edges());
    let mut second = graph.routes();
    let mut third = backward.graph().routes();
    first.sort_by_key(|r| r.peer);
    second.sort_by_key(|r| r.peer);
    third.sort_by_key(|r| r.peer);
    assert_eq!(first, second);
    assert_eq!(first, third);
    assert_eq!(first.len(), 8);
}

#[test]
fn ingest_offers_in_order_and_rebuilds() {
    let mut table = RoutingTable::new(peer(1), 10, 100);
    let mut peers = KnownPeerStore::default();
    peers.ban_at(&peer(5), ReasonForBan::Abusive, 0);
    let batch = vec![
        SignedEdge { edge: edge(1, 2, EdgeType::Added, 1), checks: VALID },
        SignedEdge { edge: edge(2, 3, EdgeType::Added, 1), checks: VALID },
        SignedEdge {
            edge: edge(3, 4, EdgeType::Added, 1),
            checks: SignatureCheck { a_valid: false, b_valid: true },
        },
        SignedEdge { edge: edge(2, 3, EdgeType::Removed, 1), checks: VALID },
        SignedEdge { edge: edge(2, 3, EdgeType::Added, 1), checks: VALID },
        SignedEdge { edge: edge(2, 5, EdgeType::Added, 1), checks: VALID },
        SignedEdge { edge: edge(1, 2, EdgeType::Added, 2), checks: VALID },
    ];
    let verdicts = table.ingest(&batch, &peers, 42);
    assert_eq!(
        verdicts,
        vec![
            Verdict::Accepted,
            Verdict::Accepted,
            Verdict::BadSignature,
            Verdict::Conflict,
            Verdict::Stale,
            Verdict::BannedPeer,
            Verdict::Accepted,
        ]
    );
    assert!(!table.is_dirty());
    assert_eq!(table.graph().next_hop(&peer(3)), Some(peer(2)));
    assert_eq!(table.graph().distance(&peer(3)), Some(2));
    assert!(!table.graph().is_reachable(&peer(4)));
    assert_eq!(table.edges().len(), 2);
    assert_eq!(table.edges().get(&(peer(1), peer(2))).unwrap().nonce(), 2);
    assert_eq!(table.edges().refreshed_at(&(peer(2), peer(3))), Some(42));
    assert_eq!(table.local(), peer(1));
    assert!(table.ingest(&Vec::new(), &peers, 43).is_empty());
}

#[test]
fn prune_drops_old_removed_edges() {
    let mut table = RoutingTable::new(peer(1), 10, 100);
    let peers = KnownPeerStore::default();
    table.insert_if_newer(edge(1, 2, EdgeType::Removed, 1), VALID, &peers, 1000);
    table.insert_if_newer(edge(3, 4, EdgeType::Removed, 1), VALID, &peers, 1005);
    assert_eq!(table.prune(1010), 0);
    assert_eq!(table.edges().len(), 2);
    assert_eq!(table.prune(1011), 1);
    assert!(table.edges().get(&(peer(1), peer(2))).is_none());
    assert_eq!(table.edges().refreshed_at(&(peer(3), peer(4))), Some(1005));
    assert!(!table.is_dirty());
    // A clock that runs backwards makes nothing older.
    assert_eq!(table.prune(0), 0);
    assert_eq!(table.prune(1016), 1);
    assert_eq!(table.edges().len(), 0);
    // Once pruned, the pair starts afresh: an old claim is taken in again.
    assert!(table.insert_if_newer(edge(1, 2, EdgeType::Added, 1), VALID, &peers, 2000));
}

#[test]
fn prune_keeps_what_leads_to_reachable_peers() {
    let mut table = table_of(1, &[(1, 2), (2, 3), (7, 8)]);
    assert_eq!(table.prune(50), 0);
    // Edges on the way to a peer that is reached are confirmed at each pass.
    assert_eq!(table.edges().refreshed_at(&(peer(1), peer(2))), Some(50));
    assert_eq!(table.edges().refreshed_at(&(peer(2), peer(3))), Some(50));
    assert_eq!(table.edges().refreshed_at(&(peer(7), peer(8))), Some(0));

    // Far beyond the save horizon they are still there.
    assert_eq!(table.prune(100), 0);
    assert_eq!(table.prune(101), 1);
    assert!(table.edges().get(&(peer(7), peer(8))).is_none());
    assert_eq!(table.prune(1_000_000), 0);
    assert_eq!(table.edges().len(), 2);
    assert_eq!(table.next_hop(&peer(3)), Some(peer(2)));
    assert_eq!(table.edges().refreshed_at(&(peer(2), peer(3))), Some(1_000_000));
}

#[test]
fn peer_cut_off_is_forgotten_after_the_save_horizon() {
    let mut table = table_of(1, &[(1, 2), (2, 3)]);
    let peers = KnownPeerStore::default();
    assert_eq!(table.prune(40), 0);
    assert!(table.is_reachable(&peer(3)));
    // 2 leaves: 3 is cut off, its edge is no longer confirmed.
    assert!(table.insert_if_newer(edge(1, 2, EdgeType::Removed, 2), VALID, &peers, 45));
    assert!(!table.is_reachable(&peer(3)));
    assert_eq!(table.prune(140), 1);
    assert_eq!(table.edges().refreshed_at(&(peer(2), peer(3))), Some(40));
    assert!(table.edges().get(&(peer(1), peer(2))).is_none());
    assert_eq!(table.prune(141), 1);
    assert_eq!(table.edges().len(), 0);
    assert!(table.is_dirty());
    assert!(!table.is_reachable(&peer(3)));
    assert!(!table.is_dirty());
}
