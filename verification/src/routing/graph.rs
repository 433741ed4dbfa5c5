//! The graph of connected peers as one node sees it, and the routes from
//! that node: for each peer that can be reached, how far it is and which
//! neighbour to send to.

use vstd::prelude::*;
use crate::keyed::holds;
use crate::keyed::keys_distinct;
use crate::keyed::position;
use crate::peer::PeerId;
use crate::routing::edge_set::added_pairs;
use crate::routing::edge_set::EdgeSet;
use crate::routing::reach::at_distance;
use crate::routing::reach::borders;
use crate::routing::reach::distance;
use crate::routing::reach::first_hops;
use crate::routing::reach::is_least;
use crate::routing::reach::lemma_distance;
use crate::routing::reach::lemma_distance_unique;
use crate::routing::reach::lemma_next_hop;
use crate::routing::reach::lemma_within_grows;
use crate::routing::reach::lemma_within_settles;
use crate::routing::reach::linked;
use crate::routing::reach::next_hop;
use crate::routing::reach::reachable;
use crate::routing::reach::within;
use crate::routing::reach::Links;

verus! {

/// The way to one peer.
#[derive(Clone, Copy, Debug, PartialEq, Eq, Structural)]
pub struct Route {
    /// The peer that the route leads to.
    pub peer: PeerId,
    /// The neighbour to send to. For the node itself, the node.
    pub next_hop: PeerId,
    /// How many connections the route takes.
    pub distance: usize,
}

/// The peer that a route leads to.
pub open spec fn route_peer() -> spec_fn(Route) -> PeerId {
    |route: Route| route.peer
}

/// `route` is the route from `source` to its peer: the distance is the
/// shortest, and the next hop is the lowest of the first hops of the
/// shortest ways.
pub open spec fn is_route(links: Links, source: PeerId, route: Route) -> bool {
    &&& at_distance(links, source, route.peer, route.distance as nat)
    &&& if route.distance == 0 {
        route.next_hop == source
    } else {
        is_least(first_hops(links, source, route.peer, route.distance as nat), route.next_hop)
    }
}

/// `routes` are the routes from `source` to the peers it reaches within
/// `hops` connections: one for each, and no others.
pub open spec fn settled(links: Links, source: PeerId, routes: Seq<Route>, hops: nat) -> bool {
    &&& keys_distinct(routes, route_peer())
    &&& forall|i: int|
        0 <= i < routes.len() ==> is_route(links, source, #[trigger] routes[i]) && routes[i].distance
            <= hops
    &&& forall|v: PeerId| #[trigger]
        within(links, source, hops).contains(v) ==> holds(routes, route_peer(), v)
}

/// `routes` are the routes from `source` to all the peers it reaches.
pub open spec fn complete(links: Links, source: PeerId, routes: Seq<Route>) -> bool {
    &&& keys_distinct(routes, route_peer())
    &&& forall|i: int| 0 <= i < routes.len() ==> is_route(links, source, #[trigger] routes[i])
    &&& forall|v: PeerId| #[trigger]
        reachable(links, source, v) ==> holds(routes, route_peer(), v)
}

/// The pairs of a list, as a set.
pub open spec fn pair_set(pairs: Seq<(PeerId, PeerId)>) -> Links {
    Set::new(|pair: (PeerId, PeerId)| pairs.contains(pair))
}

/// The hop that the peer with the route `near` hands on to a neighbour `v`
/// one step further out: `v` itself where `near` is the route of the source,
/// else the hop by which the peer is reached.
spec fn hop_via(near: Route, v: PeerId) -> PeerId {
    if near.distance == 0 {
        v
    } else {
        near.next_hop
    }
}

/// In the round that finds the peers at distance `k`: the state after the
/// arcs `done` were looked at. `prev` are the routes that the round started
/// with, all of them shorter than `k`.
spec fn round_inv(
    prev: Seq<Route>,
    routes: Seq<Route>,
    k: nat,
    done: Seq<(PeerId, PeerId)>,
) -> bool {
    &&& routes.len() >= prev.len()
    &&& forall|i: int| 0 <= i < prev.len() ==> #[trigger] routes[i] == prev[i]
    &&& keys_distinct(routes, route_peer())
    &&& forall|i: int|
        prev.len() <= i < routes.len() ==> (#[trigger] routes[i]).distance == k && offered(
            prev,
            done,
            k,
            routes[i],
        ) && lowest(prev, done, k, routes[i])
    &&& forall|m: int, iu: int|
        #![trigger done[m], prev[iu]]
        0 <= m < done.len() && 0 <= iu < prev.len() && prev[iu].peer == done[m].0 && prev[iu].distance
            + 1 == k && !holds(prev, route_peer(), done[m].1) ==> holds(
            routes,
            route_peer(),
            done[m].1,
        )
}

/// Some arc looked at leads from a peer at distance `k - 1` to the peer of
/// `r`, and hands on the hop that `r` has.
spec fn offered(prev: Seq<Route>, done: Seq<(PeerId, PeerId)>, k: nat, r: Route) -> bool {
    exists|m: int, iu: int|
        #![trigger done[m], prev[iu]]
        0 <= m < done.len() && 0 <= iu < prev.len() && done[m].1 == r.peer && prev[iu].peer
            == done[m].0 && prev[iu].distance + 1 == k && r.next_hop == hop_via(prev[iu], r.peer)
}

/// No arc looked at hands on a lower hop to the peer of `r` than `r` has.
spec fn lowest(prev: Seq<Route>, done: Seq<(PeerId, PeerId)>, k: nat, r: Route) -> bool {
    forall|m: int, iu: int|
        #![trigger done[m], prev[iu]]
        0 <= m < done.len() && 0 <= iu < prev.len() && done[m].1 == r.peer && prev[iu].peer
            == done[m].0 && prev[iu].distance + 1 == k ==> r.next_hop.not_above(
            hop_via(prev[iu], r.peer),
        )
}

fn find_route(routes: &Vec<Route>, peer: &PeerId) -> (r: Option<usize>)
    ensures
        match r {
            Some(i) => i < routes@.len() && routes@[i as int].peer == *peer,
            None => !holds(routes@, route_peer(), *peer),
        },
{
    let mut i: usize = 0;
    while i < routes.len()
        invariant
            i <= routes@.len(),
            forall|j: int| 0 <= j < i ==> (#[trigger] routes@[j]).peer != *peer,
        decreases routes@.len() - i,
    {
        if routes[i].peer == *peer {
            return Some(i);
        }
        i += 1;
    }
    None
}

/// Looks at the arc from `u` to `v` in the round for distance `k`: where `u`
/// is at distance `k - 1`, `v` gets a route if it has none, or a lower hop
/// if `u` hands one on.
fn relax(
    routes: &mut Vec<Route>,
    u: PeerId,
    v: PeerId,
    k: usize,
    Ghost(prev): Ghost<Seq<Route>>,
    Ghost(done): Ghost<Seq<(PeerId, PeerId)>>,
)
    requires
        k >= 1,
        keys_distinct(prev, route_peer()),
        forall|i: int| 0 <= i < prev.len() ==> (#[trigger] prev[i]).distance < k,
        round_inv(prev, old(routes)@, k as nat, done),
    ensures
        round_inv(prev, final(routes)@, k as nat, done.push((u, v))),
        final(routes)@.len() >= old(routes)@.len(),
{
    let ghost before = routes@;
    let ghost after_done = done.push((u, v));
    let ghost last = done.len() as int;
    assert(forall|m: int| 0 <= m < done.len() ==> after_done[m] == done[m]);
    assert(after_done[last] == (u, v));
    let found_u = find_route(routes, &u);
    let near: Option<Route> = match found_u {
        Some(iu) => if routes[iu].distance == k - 1 {
            Some(routes[iu])
        } else {
            None
        },
        None => None,
    };
    match near {
        None => {
            proof {
                // No route shorter by one leads to `u`: the arc hands nothing on.
                assert forall|iu: int| 0 <= iu < prev.len() && (#[trigger] prev[iu]).peer
                    == u implies prev[iu].distance + 1 != k by {
                    assert(before[iu] == prev[iu]);
                    match found_u {
                        Some(fu) => {
                            if fu as int != iu {
                                if (fu as int) < iu {
                                    assert(route_peer()(before[fu as int]) != route_peer()(
                                        before[iu],
                                    ));
                                } else {
                                    assert(route_peer()(before[iu]) != route_peer()(
                                        before[fu as int],
                                    ));
                                }
                            }
                        },
                        None => {
                            assert(holds(before, route_peer(), u));
                        },
                    }
                }
                assert forall|i: int| prev.len() <= i < before.len() implies offered(
                    prev,
                    after_done,
                    k as nat,
                    #[trigger] before[i],
                ) && lowest(prev, after_done, k as nat, before[i]) by {
                    lemma_offered_stays(prev, done, (u, v), k as nat, before[i]);
                }
            }
        },
        Some(near_route) => {
            let ghost iu = found_u.unwrap() as int;
            let cand: PeerId = if near_route.distance == 0 {
                v
            } else {
                near_route.next_hop
            };
            proof {
                // `u` stands among the routes that the round started with.
                if iu >= prev.len() {
                    assert(before[iu].distance == k);
                }
                assert(before[iu] == prev[iu]);
                assert forall|i: int| 0 <= i < prev.len() && (#[trigger] prev[i]).peer
                    == u implies i == iu by {
                    if i < iu {
                        assert(route_peer()(prev[i]) != route_peer()(prev[iu]));
                    } else if iu < i {
                        assert(route_peer()(prev[iu]) != route_peer()(prev[i]));
                    }
                }
            }
            let found_v = find_route(routes, &v);
            match found_v {
                None => {
                    let route = Route { peer: v, next_hop: cand, distance: k };
                    routes.push(route);
                    proof {
                        let now = routes@;
                        assert(now == before.push(route));
                        assert(!holds(prev, route_peer(), v)) by {
                            if holds(prev, route_peer(), v) {
                                let p = position(prev, route_peer(), v);
                                assert(before[p] == prev[p]);
                                assert(holds(before, route_peer(), v));
                            }
                        }
                        assert(keys_distinct(now, route_peer())) by {
                            assert forall|a: int, b: int| 0 <= a < b < now.len() implies route_peer()(
                                now[a],
                            ) != route_peer()(now[b]) by {
                                if b == before.len() {
                                    assert(now[a] == before[a]);
                                    if before[a].peer == v {
                                        assert(holds(before, route_peer(), v));
                                    }
                                } else {
                                    assert(route_peer()(before[a]) != route_peer()(before[b]));
                                }
                            }
                        }
                        assert forall|i: int| prev.len() <= i < now.len() implies (
                        #[trigger] now[i]).distance == k && offered(
                            prev,
                            after_done,
                            k as nat,
                            now[i],
                        ) && lowest(prev, after_done, k as nat, now[i]) by {
                            if i < before.len() {
                                assert(now[i] == before[i]);
                                assert(before[i].peer != v) by {
                                    if before[i].peer == v {
                                        assert(holds(before, route_peer(), v));
                                    }
                                }
                                lemma_offered_stays(prev, done, (u, v), k as nat, before[i]);
                            } else {
                                assert(now[i] == route);
                                assert(after_done[last].1 == route.peer && prev[iu].peer
                                    == after_done[last].0);
                                assert(offered(prev, after_done, k as nat, route));
                                assert forall|m: int, j: int|
                                    #![trigger after_done[m], prev[j]]
                                    0 <= m < after_done.len() && 0 <= j < prev.len()
                                        && after_done[m].1 == route.peer && prev[j].peer
                                        == after_done[m].0 && prev[j].distance + 1
                                        == k implies route.next_hop.not_above(
                                    hop_via(prev[j], route.peer),
                                ) by {
                                    if m < last {
                                        assert(done[m] == after_done[m]);
                                        assert(holds(before, route_peer(), done[m].1));
                                    } else {
                                        assert(j == iu);
                                    }
                                }
                            }
                        }
                        assert forall|m: int, j: int|
                            #![trigger after_done[m], prev[j]]
                            0 <= m < after_done.len() && 0 <= j < prev.len() && prev[j].peer
                                == after_done[m].0 && prev[j].distance + 1 == k && !holds(
                                prev,
                                route_peer(),
                                after_done[m].1,
                            ) implies holds(now, route_peer(), after_done[m].1) by {
                            if m < last {
                                assert(done[m] == after_done[m]);
                                let p = position(before, route_peer(), done[m].1);
                                assert(now[p] == before[p]);
                            } else {
                                assert(now[before.len() as int].peer == v);
                            }
                        }
                    }
                },
                Some(iv) => {
                    let old_route: Route = routes[iv];
                    if old_route.distance == k && cand.is_before(&old_route.next_hop) {
                        let route = Route { peer: v, next_hop: cand, distance: k };
                        routes.set(iv, route);
                        proof {
                            let now = routes@;
                            assert(now == before.update(iv as int, route));
                            assert(iv as int >= prev.len()) by {
                                if (iv as int) < prev.len() {
                                    assert(before[iv as int] == prev[iv as int]);
                                }
                            }
                            assert(keys_distinct(now, route_peer())) by {
                                assert forall|a: int, b: int|
                                    0 <= a < b < now.len() implies route_peer()(now[a])
                                    != route_peer()(now[b]) by {
                                    assert(route_peer()(before[a]) != route_peer()(before[b]));
                                }
                            }
                            assert forall|i: int| prev.len() <= i < now.len() implies (
                            #[trigger] now[i]).distance == k && offered(
                                prev,
                                after_done,
                                k as nat,
                                now[i],
                            ) && lowest(prev, after_done, k as nat, now[i]) by {
                                if i != iv as int {
                                    assert(now[i] == before[i]);
                                    assert(before[i].peer != v) by {
                                        if i < iv as int {
                                            assert(route_peer()(before[i]) != route_peer()(
                                                before[iv as int],
                                            ));
                                        } else {
                                            assert(route_peer()(before[iv as int]) != route_peer()(
                                                before[i],
                                            ));
                                        }
                                    }
                                    lemma_offered_stays(prev, done, (u, v), k as nat, before[i]);
                                } else {
                                    assert(after_done[last].1 == route.peer && prev[iu].peer
                                        == after_done[last].0);
                                    assert(offered(prev, after_done, k as nat, route));
                                    assert(lowest(prev, done, k as nat, old_route));
                                    assert forall|m: int, j: int|
                                        #![trigger after_done[m], prev[j]]
                                        0 <= m < after_done.len() && 0 <= j < prev.len()
                                            && after_done[m].1 == route.peer && prev[j].peer
                                            == after_done[m].0 && prev[j].distance + 1
                                            == k implies route.next_hop.not_above(
                                        hop_via(prev[j], route.peer),
                                    ) by {
                                        if m < last {
                                            assert(done[m] == after_done[m]);
                                            assert(old_route.next_hop.not_above(
                                                hop_via(prev[j], old_route.peer),
                                            ));
                                        } else {
                                            assert(j == iu);
                                        }
                                    }
                                }
                            }
                            assert forall|m: int, j: int|
                                #![trigger after_done[m], prev[j]]
                                0 <= m < after_done.len() && 0 <= j < prev.len() && prev[j].peer
                                    == after_done[m].0 && prev[j].distance + 1 == k && !holds(
                                    prev,
                                    route_peer(),
                                    after_done[m].1,
                                ) implies holds(now, route_peer(), after_done[m].1) by {
                                if m < last {
                                    assert(done[m] == after_done[m]);
                                    let p = position(before, route_peer(), done[m].1);
                                    assert(now[p].peer == before[p].peer);
                                } else {
                                    assert(now[iv as int].peer == v);
                                }
                            }
                        }
                    } else {
                        proof {
                            assert forall|i: int| prev.len() <= i < before.len() implies offered(
                                prev,
                                after_done,
                                k as nat,
                                #[trigger] before[i],
                            ) && lowest(prev, after_done, k as nat, before[i]) by {
                                if before[i].peer != v {
                                    lemma_offered_stays(prev, done, (u, v), k as nat, before[i]);
                                } else {
                                    assert(i == iv as int) by {
                                        if i < iv as int {
                                            assert(route_peer()(before[i]) != route_peer()(
                                                before[iv as int],
                                            ));
                                        } else if (iv as int) < i {
                                            assert(route_peer()(before[iv as int]) != route_peer()(
                                                before[i],
                                            ));
                                        }
                                    }
                                    let (m0, j0) = choose|m: int, j: int|
                                        #![trigger done[m], prev[j]]
                                        0 <= m < done.len() && 0 <= j < prev.len() && done[m].1
                                            == old_route.peer && prev[j].peer == done[m].0
                                            && prev[j].distance + 1 == k && old_route.next_hop
                                            == hop_via(prev[j], old_route.peer);
                                    assert(after_done[m0] == done[m0]);
                                    assert(offered(prev, after_done, k as nat, old_route));
                                    assert forall|m: int, j: int|
                                        #![trigger after_done[m], prev[j]]
                                        0 <= m < after_done.len() && 0 <= j < prev.len()
                                            && after_done[m].1 == old_route.peer && prev[j].peer
                                            == after_done[m].0 && prev[j].distance + 1
                                            == k implies old_route.next_hop.not_above(
                                        hop_via(prev[j], old_route.peer),
                                    ) by {
                                        if m < last {
                                            assert(done[m] == after_done[m]);
                                        } else {
                                            assert(j == iu);
                                        }
                                    }
                                }
                            }
                            assert forall|m: int, j: int|
                                #![trigger after_done[m], prev[j]]
                                0 <= m < after_done.len() && 0 <= j < prev.len() && prev[j].peer
                                    == after_done[m].0 && prev[j].distance + 1 == k && !holds(
                                    prev,
                                    route_peer(),
                                    after_done[m].1,
                                ) implies holds(before, route_peer(), after_done[m].1) by {
                                if m < last {
                                    assert(done[m] == after_done[m]);
                                }
                            }
                        }
                    }
                },
            }
        },
    }
}

/// An arc that does not lead to the peer of `r`, or that hands nothing on,
/// leaves what was offered to `r` as it was.
proof fn lemma_offered_stays(
    prev: Seq<Route>,
    done: Seq<(PeerId, PeerId)>,
    arc: (PeerId, PeerId),
    k: nat,
    r: Route,
)
    requires
        offered(prev, done, k, r),
        lowest(prev, done, k, r),
        arc.1 != r.peer || forall|iu: int|
            0 <= iu < prev.len() && (#[trigger] prev[iu]).peer == arc.0 ==> prev[iu].distance + 1
                != k,
    ensures
        offered(prev, done.push(arc), k, r),
        lowest(prev, done.push(arc), k, r),
{
    let after = done.push(arc);
    let (m0, j0) = choose|m: int, j: int|
        #![trigger done[m], prev[j]]
        0 <= m < done.len() && 0 <= j < prev.len() && done[m].1 == r.peer && prev[j].peer
            == done[m].0 && prev[j].distance + 1 == k && r.next_hop == hop_via(prev[j], r.peer);
    assert(after[m0] == done[m0]);
    assert forall|m: int, j: int|
        #![trigger after[m], prev[j]]
        0 <= m < after.len() && 0 <= j < prev.len() && after[m].1 == r.peer && prev[j].peer
            == after[m].0 && prev[j].distance + 1 == k implies r.next_hop.not_above(
        hop_via(prev[j], r.peer),
    ) by {
        if m < done.len() {
            assert(done[m] == after[m]);
        }
    }
}

/// The pair the other way round.
spec fn flip(pair: (PeerId, PeerId)) -> (PeerId, PeerId) {
    (pair.1, pair.0)
}

/// A round that has looked at every connection, both ways, has found the
/// routes to all the peers one step further out.
proof fn lemma_round_complete(
    links: Links,
    source: PeerId,
    prev: Seq<Route>,
    routes: Seq<Route>,
    k: nat,
    done: Seq<(PeerId, PeerId)>,
)
    requires
        k >= 1,
        settled(links, source, prev, (k - 1) as nat),
        round_inv(prev, routes, k, done),
        forall|a: PeerId, b: PeerId| #[trigger] linked(links, a, b) ==> done.contains((a, b)),
        forall|m: int| 0 <= m < done.len() ==> linked(links, (#[trigger] done[m]).0, done[m].1),
    ensures
        settled(links, source, routes, k),
{
    let near = within(links, source, (k - 1) as nat);
    assert forall|i: int| 0 <= i < routes.len() implies is_route(
        links,
        source,
        #[trigger] routes[i],
    ) && routes[i].distance <= k by {
        if i < prev.len() {
            assert(routes[i] == prev[i]);
        } else {
            let r = routes[i];
            let v = r.peer;
            let (m0, j0) = choose|m: int, j: int|
                #![trigger done[m], prev[j]]
                0 <= m < done.len() && 0 <= j < prev.len() && done[m].1 == r.peer && prev[j].peer
                    == done[m].0 && prev[j].distance + 1 == k && r.next_hop == hop_via(
                    prev[j],
                    r.peer,
                );
            let u = prev[j0].peer;
            assert(is_route(links, source, prev[j0]));
            assert(linked(links, done[m0].0, done[m0].1));
            assert(!holds(prev, route_peer(), v)) by {
                if holds(prev, route_peer(), v) {
                    let p = position(prev, route_peer(), v);
                    assert(routes[p] == prev[p]);
                    assert(route_peer()(routes[p]) != route_peer()(routes[i]));
                }
            }
            assert(near.contains(u));
            assert(borders(links, near, v));
            assert(at_distance(links, source, v, k));
            if k >= 2 {
                let hops = first_hops(links, source, v, k);
                assert(at_distance(links, source, u, (k - 1) as nat) && linked(links, u, v)
                    && first_hops(links, source, u, (k - 1) as nat).contains(r.next_hop));
                assert(hops.contains(r.next_hop));
                assert forall|x: PeerId| hops.contains(x) implies r.next_hop.not_above(x) by {
                    let w = choose|w: PeerId|
                        #[trigger] at_distance(links, source, w, (k - 1) as nat) && linked(
                            links,
                            w,
                            v,
                        ) && first_hops(links, source, w, (k - 1) as nat).contains(x);
                    assert(near.contains(w));
                    let jw = position(prev, route_peer(), w);
                    assert(is_route(links, source, prev[jw]));
                    lemma_distance_unique(
                        links,
                        source,
                        w,
                        prev[jw].distance as nat,
                        (k - 1) as nat,
                    );
                    assert(done.contains((w, v)));
                    let mw = choose|mw: int| 0 <= mw < done.len() && done[mw] == (w, v);
                    assert(done[mw].1 == r.peer && prev[jw].peer == done[mw].0);
                    assert(r.next_hop.not_above(hop_via(prev[jw], r.peer)));
                    PeerId::lemma_total_order(r.next_hop, prev[jw].next_hop, x);
                }
            }
        }
    }
    assert forall|v: PeerId| #[trigger] within(links, source, k).contains(v) implies holds(
        routes,
        route_peer(),
        v,
    ) by {
        if near.contains(v) {
            let p = position(prev, route_peer(), v);
            assert(routes[p] == prev[p]);
        } else {
            let u = choose|u: PeerId| near.contains(u) && #[trigger] linked(links, u, v);
            let j = position(prev, route_peer(), u);
            assert(is_route(links, source, prev[j]));
            let du = prev[j].distance as nat;
            if du + 1 < k {
                assert(borders(links, within(links, source, du), v));
                assert(within(links, source, du + 1).contains(v));
                lemma_within_grows(links, source, du + 1, (k - 1) as nat);
            }
            assert(done.contains((u, v)));
            let m = choose|m: int| 0 <= m < done.len() && done[m] == (u, v);
            assert(!holds(prev, route_peer(), v)) by {
                if holds(prev, route_peer(), v) {
                    let p = position(prev, route_peer(), v);
                    assert(is_route(links, source, prev[p]));
                    lemma_within_grows(links, source, prev[p].distance as nat, (k - 1) as nat);
                }
            }
            assert(prev[j].peer == done[m].0 && prev[j].distance + 1 == k);
        }
    }
}

/// The routes from `source` over the connections `links`, found level by
/// level: first the source, then in each round the peers one step further
/// out, until a round finds none.
fn search(source: PeerId, links: &Vec<(PeerId, PeerId)>) -> (routes: Vec<Route>)
    ensures
        complete(pair_set(links@), source, routes@),
{
    let ghost ls = pair_set(links@);
    let mut routes: Vec<Route> = Vec::new();
    routes.push(Route { peer: source, next_hop: source, distance: 0 });
    let mut k: usize = 1;
    proof {
        assert(holds(routes@, route_peer(), source)) by {
            assert(routes@[0].peer == source);
        }
    }
    loop
        invariant_except_break
            1 <= k <= routes@.len(),
            settled(ls, source, routes@, (k - 1) as nat),
        invariant
            ls == pair_set(links@),
        ensures
            complete(ls, source, routes@),
        decreases usize::MAX - routes@.len(),
    {
        let ghost prev = routes@;
        let ghost mut done: Seq<(PeerId, PeerId)> = Seq::empty();
        let base: usize = routes.len();
        let mut j: usize = 0;
        while j < links.len()
            invariant
                j <= links@.len(),
                1 <= k <= prev.len(),
                ls == pair_set(links@),
                settled(ls, source, prev, (k - 1) as nat),
                round_inv(prev, routes@, k as nat, done),
                forall|jj: int|
                    0 <= jj < j ==> done.contains(#[trigger] links@[jj]) && done.contains(
                        flip(links@[jj]),
                    ),
                forall|m: int| 0 <= m < done.len() ==> linked(ls, (#[trigger] done[m]).0, done[m].1),
            decreases links@.len() - j,
        {
            let a: PeerId = links[j].0;
            let b: PeerId = links[j].1;
            let ghost done0 = done;
            relax(&mut routes, a, b, k, Ghost(prev), Ghost(done));
            proof {
                done = done.push((a, b));
            }
            let ghost done1 = done;
            relax(&mut routes, b, a, k, Ghost(prev), Ghost(done));
            proof {
                done = done.push((b, a));
                assert(links@.contains(links@[j as int]));
                assert(ls.contains((a, b)));
                assert(done1[done0.len() as int] == (a, b));
                assert(done[done0.len() as int] == (a, b));
                assert(done[done1.len() as int] == (b, a));
                assert forall|jj: int| 0 <= jj < j + 1 implies done.contains(
                    #[trigger] links@[jj],
                ) && done.contains(flip(links@[jj])) by {
                    if jj < j {
                        let x = choose|x: int| 0 <= x < done0.len() && done0[x] == links@[jj];
                        assert(done[x] == links@[jj]);
                        let y = choose|y: int| 0 <= y < done0.len() && done0[y] == flip(links@[jj]);
                        assert(done[y] == flip(links@[jj]));
                    }
                }
                assert forall|m: int| 0 <= m < done.len() implies linked(
                    ls,
                    (#[trigger] done[m]).0,
                    done[m].1,
                ) by {
                    if m < done0.len() {
                        assert(done[m] == done0[m]);
                    }
                }
            }
            j += 1;
        }
        proof {
            assert forall|a: PeerId, b: PeerId| #[trigger] linked(ls, a, b) implies done.contains(
                (a, b),
            ) by {
                if ls.contains((a, b)) {
                    let jj = choose|jj: int| 0 <= jj < links@.len() && links@[jj] == (a, b);
                    assert(done.contains(links@[jj]));
                } else {
                    let jj = choose|jj: int| 0 <= jj < links@.len() && links@[jj] == (b, a);
                    assert(done.contains(flip(links@[jj])));
                }
            }
            lemma_round_complete(ls, source, prev, routes@, k as nat, done);
        }
        if routes.len() == base {
            proof {
                assert(routes@ =~= prev);
                assert(within(ls, source, k as nat).subset_of(within(ls, source, (k - 1) as nat)))
                    by {
                    assert forall|v: PeerId| within(ls, source, k as nat).contains(v) implies within(
                        ls,
                        source,
                        (k - 1) as nat,
                    ).contains(v) by {
                        let p = position(prev, route_peer(), v);
                        assert(is_route(ls, source, prev[p]));
                        lemma_within_grows(ls, source, prev[p].distance as nat, (k - 1) as nat);
                    }
                }
                assert forall|v: PeerId| #[trigger] reachable(ls, source, v) implies holds(
                    routes@,
                    route_peer(),
                    v,
                ) by {
                    let m = choose|m: nat| #[trigger] within(ls, source, m).contains(v);
                    lemma_within_settles(ls, source, (k - 1) as nat, m);
                }
            }
            break;
        }
        k += 1;
    }
    routes
}

/// What a graph stands for.
pub ghost struct GraphView {
    /// The node that the routes start from.
    pub source: PeerId,
    /// The connections that the routes were last worked out from; `None`
    /// where they never were.
    pub links: Option<Links>,
}

impl GraphView {
    /// Whether the graph has a route to `dest`.
    pub open spec fn reaches(self, dest: PeerId) -> bool {
        match self.links {
            Some(links) => reachable(links, self.source, dest),
            None => false,
        }
    }

    /// How many connections the route to `dest` takes.
    pub open spec fn distance(self, dest: PeerId) -> Option<nat> {
        match self.links {
            Some(links) => distance(links, self.source, dest),
            None => None,
        }
    }

    /// The neighbour to send to for `dest`.
    pub open spec fn next_hop(self, dest: PeerId) -> Option<PeerId> {
        match self.links {
            Some(links) => next_hop(links, self.source, dest),
            None => None,
        }
    }
}

/// The routes from one node to the peers it can reach. They are worked out
/// as a whole from a set of edges by `rebuild`, and stay as they are until
/// the next `rebuild`: a graph that was never rebuilt has no route to anyone.
pub struct Graph {
    source: PeerId,
    routes: Vec<Route>,
    links: Ghost<Option<Links>>,
}

impl View for Graph {
    type V = GraphView;

    closed spec fn view(&self) -> GraphView {
        GraphView { source: self.source, links: self.links@ }
    }
}

impl Graph {
    #[verifier::type_invariant]
    spec fn well_formed(self) -> bool {
        match self.links@ {
            Some(links) => complete(links, self.source, self.routes@),
            None => self.routes@.len() == 0,
        }
    }

    /// The graph of the node `source`, with no routes yet.
    pub fn new(source: PeerId) -> (graph: Graph)
        ensures
            graph@ == (GraphView { source, links: None }),
    {
        Graph { source, routes: Vec::new(), links: Ghost(None) }
    }

    pub fn source(&self) -> (source: PeerId)
        ensures
            source == self@.source,
    {
        self.source
    }

    /// Works the routes out anew from the edges of `edges` that say that a
    /// connection exists. The new routes replace the old ones in one step.
    pub fn rebuild(&mut self, edges: &EdgeSet)
        ensures
            final(self)@ == (GraphView {
                source: old(self)@.source,
                links: Some(added_pairs(edges@)),
            }),
    {
        let pairs = edges.added_pairs();
        let routes = search(self.source, &pairs);
        proof {
            assert(pair_set(pairs@) =~= added_pairs(edges@));
        }
        *self = Graph { source: self.source, routes, links: Ghost(Some(added_pairs(edges@))) };
    }

    fn route_to(&self, dest: &PeerId) -> (r: Option<Route>)
        ensures
            match r {
                Some(route) => {
                    &&& route.peer == *dest
                    &&& self@.distance(*dest) == Some(route.distance as nat)
                    &&& self@.reaches(*dest)
                    &&& route.distance == 0 ==> self@.next_hop(*dest) is None
                    &&& route.distance > 0 ==> self@.next_hop(*dest) == Some(route.next_hop)
                },
                None => {
                    &&& !self@.reaches(*dest)
                    &&& self@.distance(*dest) is None
                    &&& self@.next_hop(*dest) is None
                },
            },
    {
        proof {
            use_type_invariant(self);
        }
        match find_route(&self.routes, dest) {
            Some(i) => {
                let route: Route = self.routes[i];
                proof {
                    let links = self.links@.unwrap();
                    assert(is_route(links, self.source, self.routes@[i as int]));
                    lemma_distance(links, self.source, *dest, route.distance as nat);
                    assert(within(links, self.source, route.distance as nat).contains(*dest));
                    if route.distance > 0 {
                        lemma_next_hop(
                            links,
                            self.source,
                            *dest,
                            route.distance as nat,
                            route.next_hop,
                        );
                    }
                }
                Some(route)
            },
            None => {
                proof {
                    if self.links@ is Some {
                        lemma_distance(self.links@.unwrap(), self.source, *dest, 0);
                    }
                }
                None
            },
        }
    }

    /// The neighbour to send to for `dest`: of the first hops of the
    /// shortest ways, the lowest. `None` where there is no route, and for
    /// the node itself.
    pub fn next_hop(&self, dest: &PeerId) -> (hop: Option<PeerId>)
        ensures
            hop == self@.next_hop(*dest),
    {
        match self.route_to(dest) {
            Some(route) => if route.distance == 0 {
                None
            } else {
                Some(route.next_hop)
            },
            None => None,
        }
    }

    /// How many connections the shortest way to `dest` takes; `None` where
    /// there is no route.
    pub fn distance(&self, dest: &PeerId) -> (d: Option<usize>)
        ensures
            match d {
                Some(d) => self@.distance(*dest) == Some(d as nat),
                None => self@.distance(*dest) is None,
            },
    {
        match self.route_to(dest) {
            Some(route) => Some(route.distance),
            None => None,
        }
    }

    /// Whether there is a route to `dest`.
    pub fn is_reachable(&self, dest: &PeerId) -> (b: bool)
        ensures
            b == self@.reaches(*dest),
    {
        self.route_to(dest).is_some()
    }

    /// The routes, one for each peer that can be reached, the node itself
    /// among them.
    pub fn routes(&self) -> (routes: Vec<Route>)
        ensures
            forall|v: PeerId| self@.reaches(v) <==> holds(routes@, route_peer(), v),
            keys_distinct(routes@, route_peer()),
            forall|i: int|
                0 <= i < routes@.len() ==> self@.distance((#[trigger] routes@[i]).peer) == Some(
                    routes@[i].distance as nat,
                ) && (routes@[i].distance > 0 ==> self@.next_hop(routes@[i].peer) == Some(
                    routes@[i].next_hop,
                )),
    {
        proof {
            use_type_invariant(self);
        }
        let routes = self.routes.clone();
        proof {
            assert(routes@ =~= self.routes@);
            assert forall|i: int| 0 <= i < routes@.len() implies self@.distance(
                (#[trigger] routes@[i]).peer,
            ) == Some(routes@[i].distance as nat) && (routes@[i].distance > 0 ==> self@.next_hop(
                routes@[i].peer,
            ) == Some(routes@[i].next_hop)) by {
                let links = self.links@.unwrap();
                let route = routes@[i];
                assert(is_route(links, self.source, self.routes@[i]));
                lemma_distance(links, self.source, route.peer, route.distance as nat);
                if route.distance > 0 {
                    lemma_next_hop(
                        links,
                        self.source,
                        route.peer,
                        route.distance as nat,
                        route.next_hop,
                    );
                }
            }
            assert forall|v: PeerId| self@.reaches(v) <==> holds(routes@, route_peer(), v) by {
                if holds(routes@, route_peer(), v) {
                    let p = position(routes@, route_peer(), v);
                    let links = self.links@.unwrap();
                    assert(is_route(links, self.source, self.routes@[p]));
                    assert(within(links, self.source, routes@[p].distance as nat).contains(v));
                }
            }
        }
        routes
    }
}

} // verus!
