//! The record that is kept for each known peer.

use vstd::prelude::*;
use crate::peer::PeerInfo;
use crate::peer::ReasonForBan;
use crate::time::clock::Clock;
use crate::time::utc::UtcDateTime;

verus! {

/// The later of two timestamps.
pub open spec fn later(a: u64, b: u64) -> u64 {
    if a >= b {
        a
    } else {
        b
    }
}

/// Status of the known peers.
#[derive(Clone, Copy, Debug, PartialEq, Eq, Structural)]
pub enum KnownPeerStatus {
    Unknown,
    NotConnected,
    Connected,
    /// Banned, with the reason and the time of the ban.
    Banned(ReasonForBan, u64),
}

impl KnownPeerStatus {
    pub fn is_banned(&self) -> (b: bool)
        ensures
            b == (*self is Banned),
    {
        match self {
            KnownPeerStatus::Banned(_, _) => true,
            _ => false,
        }
    }
}

/// Information node stores about known peers.
#[derive(Clone, Copy, Debug, PartialEq, Eq, Structural)]
pub struct KnownPeerState {
    pub peer_info: PeerInfo,
    pub status: KnownPeerStatus,
    /// When the record was made.
    pub first_seen: u64,
    /// When the peer was last heard of. Never before `first_seen`.
    pub last_seen: u64,
}

impl KnownPeerState {
    /// A record is sound where the peer was not last seen before it was first seen.
    pub open spec fn wf(self) -> bool {
        self.first_seen <= self.last_seen
    }

    /// The record of a peer met at `now`.
    pub open spec fn first_met(peer_info: PeerInfo, now: u64) -> KnownPeerState {
        KnownPeerState {
            peer_info,
            status: KnownPeerStatus::Unknown,
            first_seen: now,
            last_seen: now,
        }
    }

    /// The record with `last_seen` moved up to `now`. A `now` that lies
    /// before `last_seen` leaves it where it is.
    pub open spec fn seen_at(self, now: u64) -> KnownPeerState {
        KnownPeerState { last_seen: later(self.last_seen, now), ..self }
    }

    /// The record of a peer met at `now`: status unknown, first and last seen then.
    pub fn met_at(peer_info: PeerInfo, now: u64) -> (state: Self)
        ensures
            state == Self::first_met(peer_info, now),
            state.wf(),
    {
        KnownPeerState { peer_info, status: KnownPeerStatus::Unknown, first_seen: now, last_seen: now }
    }

    /// The record of a peer met now. The clock is read twice, once for each
    /// of the two times; should the second reading lie before the first, the
    /// peer counts as last seen at the first.
    pub fn new(peer_info: PeerInfo, clock: &mut Clock) -> (state: Self)
        requires
            old(clock)@.is_mock ==> old(clock)@.utc.len() >= 2 && old(clock)@.utc_call_count + 2
                <= u64::MAX,
        ensures
            state.peer_info == peer_info,
            state.status == KnownPeerStatus::Unknown,
            state.wf(),
            old(clock)@.is_mock ==> {
                &&& state.first_seen == old(clock)@.utc[0].spec_to_timestamp()
                &&& state.last_seen == later(
                    state.first_seen,
                    old(clock)@.utc[1].spec_to_timestamp() as u64,
                )
                &&& final(clock)@ == old(clock)@.after_utc().after_utc()
            },
            !old(clock)@.is_mock ==> final(clock)@ == old(clock)@,
    {
        let first_seen: u64 = clock.utc().to_timestamp();
        let second: u64 = clock.utc().to_timestamp();
        let last_seen: u64 = if second >= first_seen {
            second
        } else {
            first_seen
        };
        KnownPeerState { peer_info, status: KnownPeerStatus::Unknown, first_seen, last_seen }
    }

    /// When the peer was last heard of, as a date.
    pub fn last_seen(&self) -> (utc: UtcDateTime)
        ensures
            utc.spec_to_timestamp() == self.last_seen,
            utc.secs == self.last_seen / 1_000_000_000,
            utc.subsec_nanos == self.last_seen % 1_000_000_000,
    {
        UtcDateTime::from_timestamp(self.last_seen)
    }
}

} // verus!
