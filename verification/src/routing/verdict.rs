//! What becomes of an edge that is offered: the checks that every edge has
//! to pass before it is taken in, and their order.

use vstd::prelude::*;
use crate::peer_manager::peer_store::bans;
use crate::peer_manager::peer_store::PeerMap;
use crate::routing::edge::EdgeView;
use crate::routing::edge_set::accepts;
use crate::routing::edge_set::conflicts;
use crate::routing::edge_set::merge;
use crate::routing::edge_set::EdgeMap;

verus! {

/// What the signature provider found of the two signatures of an edge, each
/// checked against the key of its peer over the edge's signed bytes.
#[derive(Clone, Copy, Debug, PartialEq, Eq, Structural)]
pub struct SignatureCheck {
    /// The signature of the lower peer of the pair is valid.
    pub a_valid: bool,
    /// The signature of the higher peer of the pair is valid.
    pub b_valid: bool,
}

/// What became of an edge that was offered to the table.
#[derive(Clone, Copy, Debug, PartialEq, Eq, Structural)]
pub enum Verdict {
    /// The edge was taken in: it is now the edge of its pair, and is to be
    /// passed on to other peers.
    Accepted,
    /// One of its peers is banned.
    BannedPeer,
    /// One of its signatures is not valid.
    BadSignature,
    /// The table has an edge for the pair that is as new or newer.
    Stale,
    /// The table has an edge for the pair with the same nonce that says
    /// otherwise: one of the two peers signed two claims under one nonce.
    Conflict,
}

/// What becomes of `edge` when it is offered to a table that holds `edges`,
/// where `peers` are the known peers. The checks are made in this order:
/// bans, signatures, nonce.
pub open spec fn verdict(edges: EdgeMap, peers: PeerMap, edge: EdgeView, checks: SignatureCheck)
    -> Verdict {
    if bans(peers, edge.key.0) || bans(peers, edge.key.1) {
        Verdict::BannedPeer
    } else if !checks.a_valid || !checks.b_valid {
        Verdict::BadSignature
    } else if accepts(edges, edge) {
        Verdict::Accepted
    } else if conflicts(edges, edge) {
        Verdict::Conflict
    } else {
        Verdict::Stale
    }
}

/// The edges after `edge` was offered at time `now` to a set that held
/// `edges`: with `edge` merged in where it is accepted, else as they were.
pub open spec fn taken_in(
    edges: EdgeMap,
    peers: PeerMap,
    edge: EdgeView,
    checks: SignatureCheck,
    now: u64,
) -> EdgeMap {
    if verdict(edges, peers, edge, checks) is Accepted {
        merge(edges, edge, now)
    } else {
        edges
    }
}

} // verus!
