//! What it means for a peer to be reachable, how far away it is, and which
//! neighbour leads to it. Definitions and their laws; no code runs here.

use vstd::prelude::*;
use crate::peer::PeerId;

verus! {

/// The connections of a network: the pairs of peers that are connected.
/// A connection has no direction: the pair may stand either way round.
pub type Links = Set<(PeerId, PeerId)>;

/// `a` and `b` are connected.
pub open spec fn linked(links: Links, a: PeerId, b: PeerId) -> bool {
    links.contains((a, b)) || links.contains((b, a))
}

/// Some peer of `near` is connected to `v`.
pub open spec fn borders(links: Links, near: Set<PeerId>, v: PeerId) -> bool {
    exists|u: PeerId| near.contains(u) && #[trigger] linked(links, u, v)
}

/// The peers that `source` reaches over at most `hops` connections.
pub open spec fn within(links: Links, source: PeerId, hops: nat) -> Set<PeerId>
    decreases hops,
{
    if hops == 0 {
        set![source]
    } else {
        let near = within(links, source, (hops - 1) as nat);
        Set::new(|v: PeerId| near.contains(v) || borders(links, near, v))
    }
}

/// `source` reaches `v`.
pub open spec fn reachable(links: Links, source: PeerId, v: PeerId) -> bool {
    exists|hops: nat| #[trigger] within(links, source, hops).contains(v)
}

/// The shortest way from `source` to `v` takes exactly `d` connections.
pub open spec fn at_distance(links: Links, source: PeerId, v: PeerId, d: nat) -> bool {
    within(links, source, d).contains(v) && (d > 0 ==> !within(links, source, (d - 1) as nat).contains(
        v,
    ))
}

/// How many connections the shortest way from `source` to `v` takes; `None`
/// where there is no way.
pub open spec fn distance(links: Links, source: PeerId, v: PeerId) -> Option<nat> {
    if reachable(links, source, v) {
        Some(choose|d: nat| at_distance(links, source, v, d))
    } else {
        None
    }
}

/// For a peer `v` at distance `d` from `source`: the neighbours of `source`
/// through which a shortest way to `v` leads.
pub open spec fn first_hops(links: Links, source: PeerId, v: PeerId, d: nat) -> Set<PeerId>
    decreases d,
{
    if d == 0 {
        Set::empty()
    } else if d == 1 {
        set![v]
    } else {
        Set::new(
            |h: PeerId|
                exists|u: PeerId|
                    #[trigger] at_distance(links, source, u, (d - 1) as nat) && linked(links, u, v)
                        && first_hops(links, source, u, (d - 1) as nat).contains(h),
        )
    }
}

/// `h` is the lowest identifier in `s`.
pub open spec fn is_least(s: Set<PeerId>, h: PeerId) -> bool {
    s.contains(h) && forall|x: PeerId| s.contains(x) ==> h.not_above(x)
}

/// The neighbour to send to for `dest`: of the neighbours of `source` through
/// which a shortest way to `dest` leads, the one with the lowest identifier.
/// `None` where `dest` is `source` itself or cannot be reached.
pub open spec fn next_hop(links: Links, source: PeerId, dest: PeerId) -> Option<PeerId> {
    match distance(links, source, dest) {
        Some(d) => if d == 0 {
            None
        } else {
            Some(choose|h: PeerId| is_least(first_hops(links, source, dest, d), h))
        },
        None => None,
    }
}

/// Whoever is within some number of hops is within any larger number.
pub proof fn lemma_within_grows(links: Links, source: PeerId, a: nat, b: nat)
    requires
        a <= b,
    ensures
        within(links, source, a).subset_of(within(links, source, b)),
    decreases b,
{
    if a < b {
        lemma_within_grows(links, source, a, (b - 1) as nat);
    }
}

/// A peer has at most one distance.
pub proof fn lemma_distance_unique(links: Links, source: PeerId, v: PeerId, d1: nat, d2: nat)
    requires
        at_distance(links, source, v, d1),
        at_distance(links, source, v, d2),
    ensures
        d1 == d2,
{
    if d1 < d2 {
        lemma_within_grows(links, source, d1, (d2 - 1) as nat);
    } else if d2 < d1 {
        lemma_within_grows(links, source, d2, (d1 - 1) as nat);
    }
}

/// A peer within `hops` has a distance, and it is at most `hops`.
pub proof fn lemma_distance_exists(links: Links, source: PeerId, v: PeerId, hops: nat) -> (d: nat)
    requires
        within(links, source, hops).contains(v),
    ensures
        d <= hops,
        at_distance(links, source, v, d),
    decreases hops,
{
    if hops > 0 && within(links, source, (hops - 1) as nat).contains(v) {
        lemma_distance_exists(links, source, v, (hops - 1) as nat)
    } else {
        hops
    }
}

/// `distance` is the distance: it says `Some(d)` exactly for a peer at distance `d`.
pub proof fn lemma_distance(links: Links, source: PeerId, v: PeerId, d: nat)
    ensures
        at_distance(links, source, v, d) <==> distance(links, source, v) == Some(d),
        distance(links, source, v) is None <==> !reachable(links, source, v),
{
    if at_distance(links, source, v, d) {
        assert(within(links, source, d).contains(v));
        let c = choose|c: nat| at_distance(links, source, v, c);
        lemma_distance_unique(links, source, v, c, d);
    }
    if reachable(links, source, v) {
        let hops = choose|hops: nat| #[trigger] within(links, source, hops).contains(v);
        let e = lemma_distance_exists(links, source, v, hops);
    }
}

/// A set has at most one lowest identifier.
pub proof fn lemma_least_unique(s: Set<PeerId>, h1: PeerId, h2: PeerId)
    requires
        is_least(s, h1),
        is_least(s, h2),
    ensures
        h1 == h2,
{
}

/// `next_hop` is the lowest first hop: for a peer at distance `d`, one or
/// more, whose lowest first hop is `h`, it says `Some(h)`.
pub proof fn lemma_next_hop(links: Links, source: PeerId, v: PeerId, d: nat, h: PeerId)
    requires
        at_distance(links, source, v, d),
        d >= 1,
        is_least(first_hops(links, source, v, d), h),
    ensures
        next_hop(links, source, v) == Some(h),
{
    lemma_distance(links, source, v, d);
    let c = choose|c: PeerId| is_least(first_hops(links, source, v, d), c);
    lemma_least_unique(first_hops(links, source, v, d), c, h);
}

/// Once a step reaches nobody new, no later step does.
pub proof fn lemma_within_settles(links: Links, source: PeerId, k: nat, m: nat)
    requires
        within(links, source, k + 1).subset_of(within(links, source, k)),
    ensures
        within(links, source, m).subset_of(within(links, source, k)),
    decreases m,
{
    if m <= k {
        lemma_within_grows(links, source, m, k);
    } else {
        lemma_within_settles(links, source, k, (m - 1) as nat);
        let near = within(links, source, (m - 1) as nat);
        assert forall|v: PeerId| within(links, source, m).contains(v) implies within(
            links,
            source,
            k,
        ).contains(v) by {
            if !near.contains(v) {
                let u = choose|u: PeerId| near.contains(u) && #[trigger] linked(links, u, v);
                assert(within(links, source, k).contains(u));
                assert(borders(links, within(links, source, k), v));
                assert(within(links, source, k + 1).contains(v));
            }
        }
    }
}

/// A walk: peers in a row, each connected to the next.
pub open spec fn is_walk(links: Links, walk: Seq<PeerId>) -> bool {
    walk.len() >= 1 && forall|i: int|
        0 <= i < walk.len() - 1 ==> linked(links, #[trigger] walk[i], walk[i + 1])
}

/// A walk from `source` to `v` over exactly `d` connections.
pub open spec fn walks_to(links: Links, source: PeerId, v: PeerId, d: nat, walk: Seq<PeerId>) -> bool {
    is_walk(links, walk) && walk.len() == d + 1 && walk[0] == source && walk[d as int] == v
}

/// Where a walk over `d` connections ends is within `d` hops of where it starts.
pub proof fn lemma_walk_stays_within(
    links: Links,
    source: PeerId,
    v: PeerId,
    d: nat,
    walk: Seq<PeerId>,
)
    requires
        walks_to(links, source, v, d, walk),
    ensures
        within(links, source, d).contains(v),
    decreases d,
{
    if d > 0 {
        let u = walk[d - 1];
        let shorter = walk.drop_last();
        assert(walks_to(links, source, u, (d - 1) as nat, shorter)) by {
            assert forall|i: int| 0 <= i < shorter.len() - 1 implies linked(
                links,
                #[trigger] shorter[i],
                shorter[i + 1],
            ) by {
                assert(linked(links, walk[i], walk[i + 1]));
            }
        }
        lemma_walk_stays_within(links, source, u, (d - 1) as nat, shorter);
        assert(linked(links, walk[d - 1], walk[d - 1 + 1]));
        assert(borders(links, within(links, source, (d - 1) as nat), v));
    }
}

/// To a peer within `hops` there is a walk over at most `hops` connections.
pub proof fn lemma_within_has_walk(links: Links, source: PeerId, v: PeerId, hops: nat) -> (walk: Seq<
    PeerId,
>)
    requires
        within(links, source, hops).contains(v),
    ensures
        walk.len() <= hops + 1,
        walks_to(links, source, v, (walk.len() - 1) as nat, walk),
    decreases hops,
{
    if hops == 0 {
        seq![source]
    } else {
        let near = within(links, source, (hops - 1) as nat);
        if near.contains(v) {
            lemma_within_has_walk(links, source, v, (hops - 1) as nat)
        } else {
            let u = choose|u: PeerId| near.contains(u) && #[trigger] linked(links, u, v);
            let shorter = lemma_within_has_walk(links, source, u, (hops - 1) as nat);
            let walk = shorter.push(v);
            assert forall|i: int| 0 <= i < walk.len() - 1 implies linked(
                links,
                #[trigger] walk[i],
                walk[i + 1],
            ) by {
                if i < shorter.len() - 1 {
                    assert(linked(links, shorter[i], shorter[i + 1]));
                }
            }
            walk
        }
    }
}

/// The distance is the length of the shortest walk: a peer at distance `d`
/// is the end of a walk over `d` connections, and of no shorter one.
pub proof fn lemma_distance_is_shortest_walk(links: Links, source: PeerId, v: PeerId, d: nat)
    requires
        at_distance(links, source, v, d),
    ensures
        exists|walk: Seq<PeerId>| walks_to(links, source, v, d, walk),
        forall|walk: Seq<PeerId>, n: nat| #[trigger] walks_to(links, source, v, n, walk) ==> d <= n,
{
    let walk = lemma_within_has_walk(links, source, v, d);
    let n = (walk.len() - 1) as nat;
    lemma_walk_stays_within(links, source, v, n, walk);
    if n < d {
        lemma_within_grows(links, source, n, (d - 1) as nat);
    }
    assert forall|other: Seq<PeerId>, m: nat| #[trigger]
        walks_to(links, source, v, m, other) implies d <= m by {
        lemma_walk_stays_within(links, source, v, m, other);
        if m < d {
            lemma_within_grows(links, source, m, (d - 1) as nat);
        }
    }
}

/// The first hops are the second peers of the shortest walks: for a peer
/// `v` at distance `d`, one or more, `h` is a first hop exactly where some
/// walk from `source` to `v` over `d` connections goes through `h` first.
pub proof fn lemma_first_hops_are_on_shortest_walks(
    links: Links,
    source: PeerId,
    v: PeerId,
    d: nat,
    h: PeerId,
)
    requires
        at_distance(links, source, v, d),
        d >= 1,
    ensures
        first_hops(links, source, v, d).contains(h) <==> exists|walk: Seq<PeerId>|
            #[trigger] walks_to(links, source, v, d, walk) && walk[1] == h,
{
    if first_hops(links, source, v, d).contains(h) {
        let walk = lemma_hop_has_walk(links, source, v, d, h);
        assert(walks_to(links, source, v, d, walk) && walk[1] == h);
    }
    if exists|walk: Seq<PeerId>| #[trigger] walks_to(links, source, v, d, walk) && walk[1] == h {
        let walk = choose|walk: Seq<PeerId>|
            #[trigger] walks_to(links, source, v, d, walk) && walk[1] == h;
        lemma_walk_gives_hop(links, source, v, d, walk);
    }
}

proof fn lemma_hop_has_walk(links: Links, source: PeerId, v: PeerId, d: nat, h: PeerId) -> (walk:
    Seq<PeerId>)
    requires
        at_distance(links, source, v, d),
        d >= 1,
        first_hops(links, source, v, d).contains(h),
    ensures
        walks_to(links, source, v, d, walk),
        walk[1] == h,
    decreases d,
{
    if d == 1 {
        assert(borders(links, within(links, source, 0), v));
        let walk = seq![source, v];
        assert forall|i: int| 0 <= i < walk.len() - 1 implies linked(
            links,
            #[trigger] walk[i],
            walk[i + 1],
        ) by {}
        walk
    } else {
        let u = choose|u: PeerId|
            #[trigger] at_distance(links, source, u, (d - 1) as nat) && linked(links, u, v)
                && first_hops(links, source, u, (d - 1) as nat).contains(h);
        let shorter = lemma_hop_has_walk(links, source, u, (d - 1) as nat, h);
        let walk = shorter.push(v);
        assert forall|i: int| 0 <= i < walk.len() - 1 implies linked(
            links,
            #[trigger] walk[i],
            walk[i + 1],
        ) by {
            if i < shorter.len() - 1 {
                assert(linked(links, shorter[i], shorter[i + 1]));
            }
        }
        walk
    }
}

proof fn lemma_walk_gives_hop(links: Links, source: PeerId, v: PeerId, d: nat, walk: Seq<PeerId>)
    requires
        at_distance(links, source, v, d),
        d >= 1,
        walks_to(links, source, v, d, walk),
    ensures
        first_hops(links, source, v, d).contains(walk[1]),
    decreases d,
{
    if d >= 2 {
        let u = walk[d - 1];
        let shorter = walk.drop_last();
        assert(walks_to(links, source, u, (d - 1) as nat, shorter)) by {
            assert forall|i: int| 0 <= i < shorter.len() - 1 implies linked(
                links,
                #[trigger] shorter[i],
                shorter[i + 1],
            ) by {
                assert(linked(links, walk[i], walk[i + 1]));
            }
        }
        lemma_walk_stays_within(links, source, u, (d - 1) as nat, shorter);
        assert(linked(links, walk[d - 1], walk[d - 1 + 1]));
        if within(links, source, (d - 2) as nat).contains(u) {
            assert(borders(links, within(links, source, (d - 2) as nat), v));
            assert(within(links, source, (d - 1) as nat).contains(v));
        }
        lemma_walk_gives_hop(links, source, u, (d - 1) as nat, shorter);
        assert(shorter[1] == walk[1]);
        assert(at_distance(links, source, u, (d - 1) as nat) && linked(links, u, v) && first_hops(
            links,
            source,
            u,
            (d - 1) as nat,
        ).contains(walk[1]));
    }
}

} // verus!
