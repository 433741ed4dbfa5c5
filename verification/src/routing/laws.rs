//! Laws of the routing table: what holds of every table, every edge and
//! every order of events. Each is proved from the definitions that the
//! contracts of the table, the edge set and the graph are stated in.

use vstd::prelude::*;
use crate::peer::PeerId;
use crate::peer_manager::peer_store::banned;
use crate::peer_manager::peer_store::bans;
use crate::peer_manager::peer_store::PeerMap;
use crate::peer::ReasonForBan;
use crate::routing::edge::EdgeView;
use crate::routing::edge_set::accepts;
use crate::routing::edge_set::added_pairs;
use crate::routing::edge_set::age;
use crate::routing::edge_set::filed_by_pair;
use crate::routing::edge_set::merge;
use crate::routing::edge_set::pruned;
use crate::routing::edge_set::EdgeMap;
use crate::routing::graph::is_route;
use crate::routing::graph::Route;
use crate::routing::reach::at_distance;
use crate::routing::reach::borders;
use crate::routing::reach::distance;
use crate::routing::reach::first_hops;
use crate::routing::reach::lemma_distance;
use crate::routing::reach::lemma_distance_unique;
use crate::routing::reach::lemma_least_unique;
use crate::routing::reach::linked;
use crate::routing::reach::reachable;
use crate::routing::reach::within;
use crate::routing::reach::Links;
use crate::routing::routing_table::RoutingTableView;
use crate::routing::verdict::taken_in;
use crate::routing::verdict::verdict;
use crate::routing::verdict::SignatureCheck;
use crate::routing::verdict::Verdict;

verus! {

/// The edges after the first `n` of `offers` were offered, one after the
/// other, to a set that held `edges`. An offer is an edge and the time at
/// which it comes.
pub open spec fn merged_all(edges: EdgeMap, offers: Seq<(EdgeView, u64)>, n: nat) -> EdgeMap
    decreases n,
{
    if n == 0 {
        edges
    } else {
        merge(merged_all(edges, offers, (n - 1) as nat), offers[n - 1].0, offers[n - 1].1)
    }
}

/// The offer at position `i` was taken in.
pub open spec fn taken(edges: EdgeMap, offers: Seq<(EdgeView, u64)>, i: int) -> bool {
    accepts(merged_all(edges, offers, i as nat), offers[i].0)
}

/// Offering an edge never lowers the nonce that the set has for a pair, and
/// never makes the set forget a pair.
pub proof fn lemma_nonce_never_falls(edges: EdgeMap, edge: EdgeView, now: u64, key: (PeerId, PeerId))
    requires
        edges.contains_key(key),
    ensures
        merge(edges, edge, now).contains_key(key),
        merge(edges, edge, now)[key].edge.nonce >= edges[key].edge.nonce,
{
}

/// Whatever was offered to a set that started empty, and in whatever order:
/// the edge that the set has for a pair is one that was taken in for that
/// pair, and its nonce is the highest of all that were taken in for it. A
/// pair for which nothing was taken in has no edge.
pub proof fn lemma_latest_has_highest_nonce(
    offers: Seq<(EdgeView, u64)>,
    n: nat,
    key: (PeerId, PeerId),
)
    requires
        n <= offers.len(),
    ensures
        forall|i: int|
            0 <= i < n && #[trigger] taken(EdgeMap::empty(), offers, i) && offers[i].0.key == key
                ==> merged_all(EdgeMap::empty(), offers, n).contains_key(key) && merged_all(
                EdgeMap::empty(),
                offers,
                n,
            )[key].edge.nonce >= offers[i].0.nonce,
        merged_all(EdgeMap::empty(), offers, n).contains_key(key) ==> exists|i: int|
            0 <= i < n && #[trigger] taken(EdgeMap::empty(), offers, i) && offers[i].0
                == merged_all(EdgeMap::empty(), offers, n)[key].edge && offers[i].0.key == key,
    decreases n,
{
    if n > 0 {
        lemma_latest_has_highest_nonce(offers, (n - 1) as nat, key);
        let before = merged_all(EdgeMap::empty(), offers, (n - 1) as nat);
        let after = merged_all(EdgeMap::empty(), offers, n);
        let last = offers[n - 1].0;
        if after.contains_key(key) {
            if accepts(before, last) && last.key == key {
                assert(taken(EdgeMap::empty(), offers, n - 1));
            } else {
                let i = choose|i: int|
                    0 <= i < n - 1 && #[trigger] taken(EdgeMap::empty(), offers, i) && offers[i].0
                        == before[key].edge && offers[i].0.key == key;
                assert(taken(EdgeMap::empty(), offers, i));
            }
        }
    }
}

/// Offering the same edge a second time changes nothing: it is not accepted
/// again, and the table stays as the first offer left it, whenever the
/// second comes.
pub proof fn lemma_offer_is_idempotent(
    table: RoutingTableView,
    peers: PeerMap,
    edge: EdgeView,
    checks: SignatureCheck,
    first: u64,
    second: u64,
)
    ensures
        !(verdict(table.offered(peers, edge, checks, first).edges, peers, edge, checks)
            is Accepted),
        table.offered(peers, edge, checks, first).offered(peers, edge, checks, second)
            == table.offered(peers, edge, checks, first),
        taken_in(taken_in(table.edges, peers, edge, checks, first), peers, edge, checks, second)
            == taken_in(table.edges, peers, edge, checks, first),
{
}

/// An edge with a signature that is not valid leaves the edge set and the
/// table as they are, whatever its nonce: neither the edges nor who can be
/// reached change.
pub proof fn lemma_forged_edge_changes_nothing(
    table: RoutingTableView,
    peers: PeerMap,
    edge: EdgeView,
    checks: SignatureCheck,
    now: u64,
)
    requires
        !checks.a_valid || !checks.b_valid,
    ensures
        !(verdict(table.edges, peers, edge, checks) is Accepted),
        taken_in(table.edges, peers, edge, checks, now) == table.edges,
        table.offered(peers, edge, checks, now) == table,
        forall|v: PeerId|
            reachable(added_pairs(table.offered(peers, edge, checks, now).edges), table.local, v)
                == reachable(added_pairs(table.edges), table.local, v),
{
}

/// Once a peer is banned, no edge that names it is accepted, whatever its
/// signatures and its nonce.
pub proof fn lemma_banned_peer_is_shut_out(
    table: RoutingTableView,
    peers: PeerMap,
    peer: PeerId,
    reason: ReasonForBan,
    banned_at: u64,
    edge: EdgeView,
    checks: SignatureCheck,
    now: u64,
)
    requires
        edge.key.0 == peer || edge.key.1 == peer,
    ensures
        verdict(table.edges, banned(peers, peer, reason, banned_at), edge, checks)
            == Verdict::BannedPeer,
        taken_in(table.edges, banned(peers, peer, reason, banned_at), edge, checks, now)
            == table.edges,
        table.offered(banned(peers, peer, reason, banned_at), edge, checks, now) == table,
{
    assert(bans(banned(peers, peer, reason, banned_at), peer));
}

/// The routes are determined by the connections and the source: there is
/// only one route to a peer, tie-break included. So two graphs worked out
/// from the same edges agree on every route.
pub proof fn lemma_route_is_unique(links: Links, source: PeerId, r1: Route, r2: Route)
    requires
        is_route(links, source, r1),
        is_route(links, source, r2),
        r1.peer == r2.peer,
    ensures
        r1 == r2,
{
    lemma_distance_unique(links, source, r1.peer, r1.distance as nat, r2.distance as nat);
    if r1.distance > 0 {
        lemma_least_unique(
            first_hops(links, source, r1.peer, r1.distance as nat),
            r1.next_hop,
            r2.next_hop,
        );
    }
}

/// `fewer` are connections of `links`, among them every connection of
/// `links` that has a peer that `source` reaches.
pub open spec fn keeps_the_reached(links: Links, fewer: Links, source: PeerId) -> bool {
    &&& fewer.subset_of(links)
    &&& forall|a: PeerId, b: PeerId|
        links.contains((a, b)) && (reachable(links, source, a) || reachable(links, source, b))
            ==> fewer.contains((a, b))
}

/// Dropping connections between peers that cannot be reached changes
/// nothing about who is reached within how many hops.
pub proof fn lemma_same_within(links: Links, fewer: Links, source: PeerId, hops: nat)
    requires
        keeps_the_reached(links, fewer, source),
    ensures
        within(fewer, source, hops) == within(links, source, hops),
    decreases hops,
{
    if hops > 0 {
        lemma_same_within(links, fewer, source, (hops - 1) as nat);
        let near = within(links, source, (hops - 1) as nat);
        assert forall|v: PeerId| within(fewer, source, hops).contains(v) == within(
            links,
            source,
            hops,
        ).contains(v) by {
            if borders(fewer, near, v) {
                let u = choose|u: PeerId| near.contains(u) && #[trigger] linked(fewer, u, v);
                assert(linked(links, u, v));
            }
            if borders(links, near, v) {
                let u = choose|u: PeerId| near.contains(u) && #[trigger] linked(links, u, v);
                assert(reachable(links, source, u));
                assert(linked(fewer, u, v));
            }
        }
        assert(within(fewer, source, hops) =~= within(links, source, hops));
    }
}

/// Dropping connections between peers that cannot be reached changes no
/// route: the same peers are reached, at the same distances, through the
/// same first hops.
pub proof fn lemma_same_routes(links: Links, fewer: Links, source: PeerId, v: PeerId, d: nat)
    requires
        keeps_the_reached(links, fewer, source),
    ensures
        reachable(fewer, source, v) == reachable(links, source, v),
        at_distance(fewer, source, v, d) == at_distance(links, source, v, d),
        distance(fewer, source, v) == distance(links, source, v),
        first_hops(fewer, source, v, d) == first_hops(links, source, v, d),
        forall|route: Route| is_route(fewer, source, route) == is_route(links, source, route),
    decreases d,
{
    lemma_same_within(links, fewer, source, d);
    if d > 0 {
        lemma_same_within(links, fewer, source, (d - 1) as nat);
    }
    lemma_same_reach(links, fewer, source, v);
    lemma_same_hops(links, fewer, source, v, d);
    assert forall|route: Route| is_route(fewer, source, route) == is_route(
        links,
        source,
        route,
    ) by {
        lemma_same_within(links, fewer, source, route.distance as nat);
        if route.distance > 0 {
            lemma_same_within(links, fewer, source, (route.distance - 1) as nat);
        }
        lemma_same_hops(links, fewer, source, route.peer, route.distance as nat);
    }
}

proof fn lemma_same_reach(links: Links, fewer: Links, source: PeerId, v: PeerId)
    requires
        keeps_the_reached(links, fewer, source),
    ensures
        reachable(fewer, source, v) == reachable(links, source, v),
        distance(fewer, source, v) == distance(links, source, v),
{
    if reachable(fewer, source, v) {
        let hops = choose|hops: nat| #[trigger] within(fewer, source, hops).contains(v);
        lemma_same_within(links, fewer, source, hops);
        assert(within(links, source, hops).contains(v));
    }
    if reachable(links, source, v) {
        let hops = choose|hops: nat| #[trigger] within(links, source, hops).contains(v);
        lemma_same_within(links, fewer, source, hops);
        assert(within(fewer, source, hops).contains(v));
        let d = choose|d: nat| at_distance(links, source, v, d);
        lemma_distance(links, source, v, 0);
        let e = crate::routing::reach::lemma_distance_exists(links, source, v, hops);
        lemma_distance(links, source, v, e);
        lemma_same_within(links, fewer, source, e);
        if e > 0 {
            lemma_same_within(links, fewer, source, (e - 1) as nat);
        }
        lemma_distance(fewer, source, v, e);
    } else {
        lemma_distance(links, source, v, 0);
        lemma_distance(fewer, source, v, 0);
    }
}

proof fn lemma_same_hops(links: Links, fewer: Links, source: PeerId, v: PeerId, d: nat)
    requires
        keeps_the_reached(links, fewer, source),
    ensures
        first_hops(fewer, source, v, d) == first_hops(links, source, v, d),
    decreases d,
{
    if d >= 2 {
        let e = (d - 1) as nat;
        lemma_same_within(links, fewer, source, e);
        lemma_same_within(links, fewer, source, (e - 1) as nat);
        assert forall|h: PeerId| first_hops(fewer, source, v, d).contains(h) == first_hops(
            links,
            source,
            v,
            d,
        ).contains(h) by {
            if first_hops(fewer, source, v, d).contains(h) {
                let u = choose|u: PeerId|
                    #[trigger] at_distance(fewer, source, u, e) && linked(fewer, u, v)
                        && first_hops(fewer, source, u, e).contains(h);
                lemma_same_hops(links, fewer, source, u, e);
                assert(at_distance(links, source, u, e) && linked(links, u, v) && first_hops(
                    links,
                    source,
                    u,
                    e,
                ).contains(h));
            }
            if first_hops(links, source, v, d).contains(h) {
                let u = choose|u: PeerId|
                    #[trigger] at_distance(links, source, u, e) && linked(links, u, v)
                        && first_hops(links, source, u, e).contains(h);
                lemma_same_hops(links, fewer, source, u, e);
                assert(reachable(links, source, u));
                assert(at_distance(fewer, source, u, e) && linked(fewer, u, v) && first_hops(
                    fewer,
                    source,
                    u,
                    e,
                ).contains(h));
            }
        }
        assert(first_hops(fewer, source, v, d) =~= first_hops(links, source, v, d));
    }
}

/// Pruning keeps every edge that says a connection exists and has a peer
/// that can be reached, however old it is; so it changes no route. An edge
/// that says a connection exists is dropped only where none of its peers
/// can be reached and it is older than the save horizon, and then it is
/// dropped.
pub proof fn lemma_prune_keeps_routes(table: RoutingTableView, now: u64, v: PeerId, d: nat)
    requires
        filed_by_pair(table.edges),
    ensures
        keeps_the_reached(
            added_pairs(table.edges),
            added_pairs(pruned(table.edges, table.prune_rule(now))),
            table.local,
        ),
        reachable(added_pairs(pruned(table.edges, table.prune_rule(now))), table.local, v)
            == reachable(added_pairs(table.edges), table.local, v),
        distance(added_pairs(pruned(table.edges, table.prune_rule(now))), table.local, v)
            == distance(added_pairs(table.edges), table.local, v),
        first_hops(added_pairs(pruned(table.edges, table.prune_rule(now))), table.local, v, d)
            == first_hops(added_pairs(table.edges), table.local, v, d),
        forall|key: (PeerId, PeerId)|
            added_pairs(table.edges).contains(key) ==> (pruned(
                table.edges,
                table.prune_rule(now),
            ).contains_key(key) <==> table.prune_rule(now).touches(key) || age(
                now,
                table.edges[key].refreshed_at,
            ) <= table.save_peers_for),
{
    let links = added_pairs(table.edges);
    let fewer = added_pairs(pruned(table.edges, table.prune_rule(now)));
    lemma_same_routes(links, fewer, table.local, v, d);
}

} // verus!
