//! Who the peers are: identifiers, addresses, and why a peer was banned.

use vstd::prelude::*;

verus! {

/// The public identifier of a peer: the 256 bits of its public key, as two
/// halves of 128 bits, the high one first. Two identifiers are the same where
/// all bits agree. They are ordered as 256-bit numbers.
#[derive(Clone, Copy, Debug, PartialEq, Eq, Structural, PartialOrd, Ord, Hash)]
pub struct PeerId {
    pub hi: u128,
    pub lo: u128,
}

impl PeerId {
    /// `self` comes before `other`.
    pub open spec fn below(self, other: PeerId) -> bool {
        self.hi < other.hi || (self.hi == other.hi && self.lo < other.lo)
    }

    /// `self` comes before `other`, or is `other`.
    pub open spec fn not_above(self, other: PeerId) -> bool {
        self.below(other) || self == other
    }

    pub fn new(hi: u128, lo: u128) -> (id: PeerId)
        ensures
            id == (PeerId { hi, lo }),
    {
        PeerId { hi, lo }
    }

    pub fn is_before(&self, other: &PeerId) -> (b: bool)
        ensures
            b == self.below(*other),
    {
        self.hi < other.hi || (self.hi == other.hi && self.lo < other.lo)
    }

    /// The order is total: of two different identifiers exactly one comes
    /// before the other, and the order is transitive.
    pub proof fn lemma_total_order(a: PeerId, b: PeerId, c: PeerId)
        ensures
            a.not_above(b) || b.not_above(a),
            a.not_above(b) && b.not_above(a) ==> a == b,
            a.not_above(b) && b.not_above(c) ==> a.not_above(c),
            a.below(b) <==> !b.not_above(a),
    {
    }
}

/// The pair `(a, b)` put in order: the lower identifier first.
pub open spec fn ordered_pair(a: PeerId, b: PeerId) -> (PeerId, PeerId) {
    if b.below(a) {
        (b, a)
    } else {
        (a, b)
    }
}

/// Where a peer listens: an IPv6 address (an IPv4 one in its mapped form) and a port.
#[derive(Clone, Copy, Debug, PartialEq, Eq, Structural, Hash)]
pub struct PeerAddr {
    pub ip: u128,
    pub port: u16,
}

/// How to reach a peer, and who it is.
#[derive(Clone, Copy, Debug, PartialEq, Eq, Structural, Hash)]
pub struct PeerInfo {
    pub id: PeerId,
    pub addr: Option<PeerAddr>,
}

/// Why a peer was banned.
#[derive(Clone, Copy, Debug, PartialEq, Eq, Structural, Hash)]
pub enum ReasonForBan {
    BadBlock,
    BadBlockHeader,
    HeightFraud,
    BadHandshake,
    BadBlockApproval,
    Abusive,
    InvalidSignature,
    InvalidPeerId,
    InvalidHash,
    InvalidEdge,
    Blacklisted,
}

} // verus!
