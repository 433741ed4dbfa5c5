//! The table of known peers, and the events that change it.

use vstd::prelude::*;
use crate::keyed::as_map;
use crate::keyed::holds;
use crate::keyed::keys_distinct;
use crate::keyed::lemma_as_map_index;
use crate::keyed::lemma_as_map_len;
use crate::keyed::lemma_as_map_push;
use crate::keyed::lemma_as_map_update;
use crate::peer::PeerId;
use crate::peer::PeerInfo;
use crate::peer::ReasonForBan;
use crate::peer_manager::db_types::KnownPeerState;
use crate::peer_manager::db_types::KnownPeerStatus;
use crate::time::clock::Clock;

verus! {

/// The records of a table, by peer.
pub type PeerMap = Map<PeerId, KnownPeerState>;

/// The peer that a record is about.
pub open spec fn peer_of() -> spec_fn(KnownPeerState) -> PeerId {
    |state: KnownPeerState| state.peer_info.id
}

/// Whether the table bans `peer`.
pub open spec fn bans(peers: PeerMap, peer: PeerId) -> bool {
    peers.contains_key(peer) && peers[peer].status is Banned
}

/// The table after `peer_info` was heard of at `now`. A peer not yet known
/// gets a record with status unknown. A known peer has its address brought
/// up to date and is seen at `now`; if its status was unknown, it is now not
/// connected. A banned peer's record stays as it is.
pub open spec fn touched(peers: PeerMap, peer_info: PeerInfo, now: u64) -> PeerMap {
    let peer = peer_info.id;
    if !peers.contains_key(peer) {
        peers.insert(peer, KnownPeerState::first_met(peer_info, now))
    } else if peers[peer].status is Banned {
        peers
    } else {
        peers.insert(
            peer,
            KnownPeerState {
                peer_info,
                status: if peers[peer].status is Unknown {
                    KnownPeerStatus::NotConnected
                } else {
                    peers[peer].status
                },
                ..peers[peer].seen_at(now)
            },
        )
    }
}

/// The table after the status of `peer` was set to `status` at `now`, as a
/// connection to it opens or closes. Only a peer that is known and not
/// banned has its record changed.
pub open spec fn moved_to(peers: PeerMap, peer: PeerId, status: KnownPeerStatus, now: u64)
    -> PeerMap {
    if peers.contains_key(peer) && !(peers[peer].status is Banned) {
        peers.insert(peer, KnownPeerState { status, ..peers[peer].seen_at(now) })
    } else {
        peers
    }
}

/// The table after `peer` was banned at `now`, whatever its status was. A
/// peer not yet known gets a record, without an address, that is banned from
/// the start.
pub open spec fn banned(peers: PeerMap, peer: PeerId, reason: ReasonForBan, now: u64) -> PeerMap {
    let before = if peers.contains_key(peer) {
        peers[peer]
    } else {
        KnownPeerState::first_met(PeerInfo { id: peer, addr: None }, now)
    };
    peers.insert(
        peer,
        KnownPeerState { status: KnownPeerStatus::Banned(reason, now), ..before.seen_at(now) },
    )
}

/// Every record of the table is sound, and is filed under its own peer.
pub open spec fn sound(peers: PeerMap) -> bool {
    forall|peer: PeerId| #[trigger]
        peers.contains_key(peer) ==> peers[peer].wf() && peers[peer].peer_info.id == peer
}

/// No event makes a record unsound: whatever happens to a peer, and
/// whatever the clock says, it is never last seen before it was first seen.
pub proof fn lemma_events_keep_records_sound(
    peers: PeerMap,
    peer_info: PeerInfo,
    peer: PeerId,
    status: KnownPeerStatus,
    reason: ReasonForBan,
    now: u64,
)
    requires
        sound(peers),
    ensures
        sound(touched(peers, peer_info, now)),
        sound(moved_to(peers, peer, status, now)),
        sound(banned(peers, peer, reason, now)),
{
}

/// A ban is final: once a peer is banned, hearing of it and connections to
/// it that open or close leave its record as it is.
pub proof fn lemma_ban_is_final(
    peers: PeerMap,
    peer_info: PeerInfo,
    status: KnownPeerStatus,
    now: u64,
)
    requires
        bans(peers, peer_info.id),
    ensures
        touched(peers, peer_info, now) == peers,
        moved_to(peers, peer_info.id, status, now) == peers,
{
}

/// The table of known peers: one record per peer.
pub struct KnownPeerStore {
    states: Vec<KnownPeerState>,
}

impl View for KnownPeerStore {
    type V = PeerMap;

    closed spec fn view(&self) -> PeerMap {
        as_map(self.states@, peer_of())
    }
}

impl Default for KnownPeerStore {
    fn default() -> (store: Self)
        ensures
            store@ == PeerMap::empty(),
    {
        let store = KnownPeerStore { states: Vec::new() };
        assert(store@ =~= PeerMap::empty());
        store
    }
}

impl KnownPeerStore {
    #[verifier::type_invariant]
    spec fn well_formed(self) -> bool {
        &&& keys_distinct(self.states@, peer_of())
        &&& forall|i: int| 0 <= i < self.states@.len() ==> (#[trigger] self.states@[i]).wf()
    }

    fn find(&self, peer: &PeerId) -> (r: Option<usize>)
        ensures
            match r {
                Some(i) => i < self.states@.len() && self.states@[i as int].peer_info.id == *peer,
                None => !holds(self.states@, peer_of(), *peer),
            },
    {
        let mut i: usize = 0;
        while i < self.states.len()
            invariant
                i <= self.states@.len(),
                forall|j: int| 0 <= j < i ==> (#[trigger] self.states@[j]).peer_info.id != *peer,
            decreases self.states@.len() - i,
        {
            if self.states[i].peer_info.id == *peer {
                return Some(i);
            }
            i += 1;
        }
        None
    }

    /// Puts `state` in the place of the record for its peer, or adds it
    /// where the peer has none.
    fn put(&mut self, found: Option<usize>, state: KnownPeerState)
        requires
            state.wf(),
            match found {
                Some(i) => i < old(self).states@.len() && old(self).states@[i as int].peer_info.id
                    == state.peer_info.id,
                None => !holds(old(self).states@, peer_of(), state.peer_info.id),
            },
        ensures
            final(self)@ == old(self)@.insert(state.peer_info.id, state),
    {
        proof {
            use_type_invariant(&*self);
        }
        let mut states: Vec<KnownPeerState> = Vec::new();
        core::mem::swap(&mut self.states, &mut states);
        match found {
            Some(i) => {
                proof {
                    lemma_as_map_update(states@, peer_of(), i as int, state);
                }
                states.set(i, state);
            },
            None => {
                proof {
                    lemma_as_map_push(states@, peer_of(), state);
                }
                states.push(state);
            },
        }
        core::mem::swap(&mut self.states, &mut states);
    }

    /// The record of `peer`.
    pub fn get(&self, peer: &PeerId) -> (r: Option<KnownPeerState>)
        ensures
            match r {
                Some(state) => self@.contains_key(*peer) && state == self@[*peer] && state.wf()
                    && state.peer_info.id == *peer,
                None => !self@.contains_key(*peer),
            },
    {
        proof {
            use_type_invariant(self);
        }
        match self.find(peer) {
            Some(i) => {
                proof {
                    lemma_as_map_index(self.states@, peer_of(), i as int);
                }
                Some(self.states[i])
            },
            None => None,
        }
    }

    /// Whether `peer` is banned.
    pub fn is_banned(&self, peer: &PeerId) -> (b: bool)
        ensures
            b == bans(self@, *peer),
    {
        match self.get(peer) {
            Some(state) => state.status.is_banned(),
            None => false,
        }
    }

    /// How many peers are known.
    pub fn len(&self) -> (n: usize)
        ensures
            self@.dom().finite(),
            n == self@.dom().len(),
    {
        proof {
            use_type_invariant(self);
            lemma_as_map_len(self.states@, peer_of());
        }
        self.states.len()
    }

    /// Records at time `now` that `peer_info` was heard of: see `touched`.
    pub fn touch_at(&mut self, peer_info: PeerInfo, now: u64)
        ensures
            final(self)@ == touched(old(self)@, peer_info, now),
    {
        proof {
            use_type_invariant(&*self);
        }
        let found = self.find(&peer_info.id);
        match found {
            None => {
                self.put(found, KnownPeerState::met_at(peer_info, now));
            },
            Some(i) => {
                proof {
                    lemma_as_map_index(self.states@, peer_of(), i as int);
                }
                let before: KnownPeerState = self.states[i];
                if !before.status.is_banned() {
                    let status = match before.status {
                        KnownPeerStatus::Unknown => KnownPeerStatus::NotConnected,
                        other => other,
                    };
                    let last_seen: u64 = if before.last_seen >= now {
                        before.last_seen
                    } else {
                        now
                    };
                    self.put(
                        found,
                        KnownPeerState { peer_info, status, first_seen: before.first_seen, last_seen },
                    );
                }
            },
        }
    }

    /// Sets the status of `peer` at time `now`: see `moved_to`.
    fn move_to_at(&mut self, peer: &PeerId, status: KnownPeerStatus, now: u64)
        ensures
            final(self)@ == moved_to(old(self)@, *peer, status, now),
    {
        proof {
            use_type_invariant(&*self);
        }
        let found = self.find(peer);
        match found {
            None => {},
            Some(i) => {
                proof {
                    lemma_as_map_index(self.states@, peer_of(), i as int);
                }
                let before: KnownPeerState = self.states[i];
                if !before.status.is_banned() {
                    let last_seen: u64 = if before.last_seen >= now {
                        before.last_seen
                    } else {
                        now
                    };
                    self.put(
                        found,
                        KnownPeerState {
                            peer_info: before.peer_info,
                            status,
                            first_seen: before.first_seen,
                            last_seen,
                        },
                    );
                }
            },
        }
    }

    /// Records at time `now` that a connection to `peer` was opened.
    pub fn mark_connected_at(&mut self, peer: &PeerId, now: u64)
        ensures
            final(self)@ == moved_to(old(self)@, *peer, KnownPeerStatus::Connected, now),
    {
        self.move_to_at(peer, KnownPeerStatus::Connected, now)
    }

    /// Records at time `now` that the connection to `peer` was closed.
    pub fn mark_disconnected_at(&mut self, peer: &PeerId, now: u64)
        ensures
            final(self)@ == moved_to(old(self)@, *peer, KnownPeerStatus::NotConnected, now),
    {
        self.move_to_at(peer, KnownPeerStatus::NotConnected, now)
    }

    /// Bans `peer` at time `now`: see `banned`.
    pub fn ban_at(&mut self, peer: &PeerId, reason: ReasonForBan, now: u64)
        ensures
            final(self)@ == banned(old(self)@, *peer, reason, now),
            bans(final(self)@, *peer),
    {
        proof {
            use_type_invariant(&*self);
        }
        let found = self.find(peer);
        let before: KnownPeerState = match found {
            None => KnownPeerState::met_at(PeerInfo { id: *peer, addr: None }, now),
            Some(i) => {
                proof {
                    lemma_as_map_index(self.states@, peer_of(), i as int);
                }
                self.states[i]
            },
        };
        let last_seen: u64 = if before.last_seen >= now {
            before.last_seen
        } else {
            now
        };
        self.put(
            found,
            KnownPeerState {
                peer_info: before.peer_info,
                status: KnownPeerStatus::Banned(reason, now),
                first_seen: before.first_seen,
                last_seen,
            },
        );
    }

    /// `touch_at`, at the time that `clock` gives, which is returned.
    pub fn touch(&mut self, peer_info: PeerInfo, clock: &mut Clock) -> (now: u64)
        requires
            old(clock)@.can_read_utc(),
        ensures
            final(self)@ == touched(old(self)@, peer_info, now),
            old(clock)@.gave(final(clock)@, now),
    {
        let now: u64 = clock.timestamp();
        self.touch_at(peer_info, now);
        now
    }

    /// `mark_connected_at`, at the time that `clock` gives, which is returned.
    pub fn mark_connected(&mut self, peer: &PeerId, clock: &mut Clock) -> (now: u64)
        requires
            old(clock)@.can_read_utc(),
        ensures
            final(self)@ == moved_to(old(self)@, *peer, KnownPeerStatus::Connected, now),
            old(clock)@.gave(final(clock)@, now),
    {
        let now: u64 = clock.timestamp();
        self.mark_connected_at(peer, now);
        now
    }

    /// `mark_disconnected_at`, at the time that `clock` gives, which is returned.
    pub fn mark_disconnected(&mut self, peer: &PeerId, clock: &mut Clock) -> (now: u64)
        requires
            old(clock)@.can_read_utc(),
        ensures
            final(self)@ == moved_to(old(self)@, *peer, KnownPeerStatus::NotConnected, now),
            old(clock)@.gave(final(clock)@, now),
    {
        let now: u64 = clock.timestamp();
        self.mark_disconnected_at(peer, now);
        now
    }

    /// `ban_at`, at the time that `clock` gives, which is returned.
    pub fn ban(&mut self, peer: &PeerId, reason: ReasonForBan, clock: &mut Clock) -> (now: u64)
        requires
            old(clock)@.can_read_utc(),
        ensures
            final(self)@ == banned(old(self)@, *peer, reason, now),
            bans(final(self)@, *peer),
            old(clock)@.gave(final(clock)@, now),
    {
        let now: u64 = clock.timestamp();
        self.ban_at(peer, reason, now);
        now
    }
}

} // verus!
