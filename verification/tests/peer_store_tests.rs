use peer_routing::peer::{PeerAddr, PeerId, PeerInfo, ReasonForBan};
use peer_routing::peer_manager::{KnownPeerState, KnownPeerStatus, KnownPeerStore};
use peer_routing::time::{Clock, UtcDateTime};

fn info(n: u128) -> PeerInfo {
    PeerInfo { id: PeerId::new(0, n), addr: Some(PeerAddr { ip: n, port: 24567 }) }
}

fn mock_clock(secs: &[i64]) -> Clock {
    let mut clock = Clock::default();
    clock.set_mock();
    for s in secs {
        clock.add_utc(UtcDateTime::new(*s, 0));
    }
    clock
}

const SEC: u64 = 1_000_000_000;

#[test]
fn status_is_banned_only_when_banned() {
    assert!(!KnownPeerStatus::Unknown.is_banned());
    assert!(!KnownPeerStatus::NotConnected.is_banned());
    assert!(!KnownPeerStatus::Connected.is_banned());
    assert!(KnownPeerStatus::Banned(ReasonForBan::Abusive, 7).is_banned());
}

#[test]
fn new_state_reads_the_clock_twice() {
    let mut clock = mock_clock(&[10, 12]);
    let state = KnownPeerState::new(info(1), &mut clock);
    assert_eq!(state.peer_info, info(1));
    assert_eq!(state.status, KnownPeerStatus::Unknown);
    assert_eq!(state.first_seen, 10 * SEC);
    assert_eq!(state.last_seen, 12 * SEC);
    assert_eq!(clock.utc_call_count(), 2);
    assert_eq!(state.last_seen(), UtcDateTime::new(12, 0));

    // A clock that runs backwards does not put the last sighting before the first.
    let mut clock = mock_clock(&[10, 8]);
    let state = KnownPeerState::new(info(1), &mut clock);
    assert_eq!(state.first_seen, 10 * SEC);
    assert_eq!(state.last_seen, 10 * SEC);

    let state = KnownPeerState::met_at(info(2), 5);
    assert_eq!(
        state,
        KnownPeerState {
            peer_info: info(2),
            status: KnownPeerStatus::Unknown,
            first_seen: 5,
            last_seen: 5
        }
    );
}

#[test]
fn touch_creates_then_updates() {
    let mut store = KnownPeerStore::default();
    let mut clock = mock_clock(&[10, 20, 15]);
    let p = info(1).id;
    assert_eq!(store.get(&p), None);
    assert_eq!(store.len(), 0);

    assert_eq!(store.touch(info(1), &mut clock), 10 * SEC);
    assert_eq!(store.get(&p), Some(KnownPeerState::met_at(info(1), 10 * SEC)));
    assert_eq!(store.len(), 1);

    let moved = PeerInfo { id: p, addr: None };
    assert_eq!(store.touch(moved, &mut clock), 20 * SEC);
    assert_eq!(
        store.get(&p),
        Some(KnownPeerState {
            peer_info: moved,
            status: KnownPeerStatus::NotConnected,
            first_seen: 10 * SEC,
            last_seen: 20 * SEC
        })
    );

    // An earlier time does not move the last sighting back.
    assert_eq!(store.touch(info(1), &mut clock), 15 * SEC);
    let state = store.get(&p).unwrap();
    assert_eq!(state.last_seen, 20 * SEC);
    assert_eq!(state.first_seen, 10 * SEC);
    assert_eq!(state.peer_info, info(1));
    assert_eq!(store.len(), 1);
}

#[test]
fn connect_and_disconnect() {
    let mut store = KnownPeerStore::default();
    let mut clock = mock_clock(&[1, 2, 3, 4]);
    let p = info(1).id;
    // An unknown peer has no record to change.
    assert_eq!(store.mark_connected(&p, &mut clock), 1 * SEC);
    assert_eq!(store.get(&p), None);

    store.touch(info(1), &mut clock);
    assert_eq!(store.mark_connected(&p, &mut clock), 3 * SEC);
    let state = store.get(&p).unwrap();
    assert_eq!(state.status, KnownPeerStatus::Connected);
    assert_eq!((state.first_seen, state.last_seen), (2 * SEC, 3 * SEC));

    // Touching a connected peer leaves it connected.
    store.touch_at(info(1), 3 * SEC);
    assert_eq!(store.get(&p).unwrap().status, KnownPeerStatus::Connected);

    assert_eq!(store.mark_disconnected(&p, &mut clock), 4 * SEC);
    let state = store.get(&p).unwrap();
    assert_eq!(state.status, KnownPeerStatus::NotConnected);
    assert_eq!((state.first_seen, state.last_seen), (2 * SEC, 4 * SEC));
}

#[test]
fn ban_is_unconditional_and_final() {
    let mut store = KnownPeerStore::default();
    let mut clock = mock_clock(&[1, 2, 3, 4, 5, 6]);
    let p = info(1).id;
    store.touch(info(1), &mut clock);
    store.mark_connected(&p, &mut clock);
    assert!(!store.is_banned(&p));

    assert_eq!(store.ban(&p, ReasonForBan::InvalidSignature, &mut clock), 3 * SEC);
    assert!(store.is_banned(&p));
    let banned = store.get(&p).unwrap();
    assert_eq!(
        banned,
        KnownPeerState {
            peer_info: info(1),
            status: KnownPeerStatus::Banned(ReasonForBan::InvalidSignature, 3 * SEC),
            first_seen: 1 * SEC,
            last_seen: 3 * SEC
        }
    );

    // Nothing but another ban changes the record.
    store.touch(info(1), &mut clock);
    store.mark_connected(&p, &mut clock);
    store.mark_disconnected(&p, &mut clock);
    assert_eq!(store.get(&p), Some(banned));
    store.ban_at(&p, ReasonForBan::Abusive, 9 * SEC);
    assert_eq!(
        store.get(&p).unwrap().status,
        KnownPeerStatus::Banned(ReasonForBan::Abusive, 9 * SEC)
    );

    // A peer never heard of can be banned too.
    let q = info(2).id;
    assert!(!store.is_banned(&q));
    store.ban_at(&q, ReasonForBan::Blacklisted, 7);
    assert_eq!(
        store.get(&q),
        Some(KnownPeerState {
            peer_info: PeerInfo { id: q, addr: None },
            status: KnownPeerStatus::Banned(ReasonForBan::Blacklisted, 7),
            first_seen: 7,
            last_seen: 7
        })
    );
    assert_eq!(store.len(), 2);
}

#[test]
fn first_seen_never_exceeds_last_seen() {
    let mut store = KnownPeerStore::default();
    let p = info(3).id;
    store.touch_at(info(3), 100);
    store.mark_connected_at(&p, 50);
    store.mark_disconnected_at(&p, 10);
    store.ban_at(&p, ReasonForBan::Abusive, 1);
    let state = store.get(&p).unwrap();
    assert_eq!((state.first_seen, state.last_seen), (100, 100));
    assert_eq!(state.status, KnownPeerStatus::Banned(ReasonForBan::Abusive, 1));
}
