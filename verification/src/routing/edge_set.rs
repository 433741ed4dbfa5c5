//! The set of edges: for each pair of peers at most one, the latest.

use vstd::prelude::*;
use crate::keyed::as_map;
use crate::keyed::holds;
use crate::keyed::keys_distinct;
use crate::keyed::lemma_as_map_index;
use crate::keyed::lemma_as_map_len;
use crate::keyed::lemma_as_map_push;
use crate::keyed::lemma_as_map_remove;
use crate::keyed::lemma_as_map_update;
use crate::keyed::position;
use crate::peer::PeerId;
use crate::peer_manager::peer_store::KnownPeerStore;
use crate::routing::edge::Edge;
use crate::routing::edge::EdgeType;
use crate::routing::edge::EdgeView;
use crate::routing::graph::Graph;
use crate::routing::graph::GraphView;
use crate::routing::verdict::taken_in;
use crate::routing::verdict::verdict;
use crate::routing::verdict::SignatureCheck;
use crate::routing::verdict::Verdict;

verus! {

/// An edge as the set holds it: what it says, and when it was last confirmed.
pub ghost struct StoredEdge {
    pub edge: EdgeView,
    /// The time at which the edge was taken in, or at which it was last found
    /// to lead to a peer that can be reached.
    pub refreshed_at: u64,
}

/// The edges of a set, by pair.
pub type EdgeMap = Map<(PeerId, PeerId), StoredEdge>;

/// The pair that a stored edge is filed under.
pub open spec fn edge_key() -> spec_fn(StoredEdge) -> (PeerId, PeerId) {
    |e: StoredEdge| e.edge.key
}

/// Every entry has its pair in order.
pub open spec fn keys_ordered(s: Seq<StoredEdge>) -> bool {
    forall|i: int| 0 <= i < s.len() ==> (#[trigger] s[i]).edge.key.0.not_above(s[i].edge.key.1)
}

/// Every edge of `edges` is filed under its own pair, and every pair is in
/// order.
pub open spec fn filed_by_pair(edges: EdgeMap) -> bool {
    forall|key: (PeerId, PeerId)| #[trigger]
        edges.contains_key(key) ==> edges[key].edge.key == key && key.0.not_above(key.1)
}

/// Whether a set that holds `edges` takes `edge` in: no edge is known for its
/// pair, or the one known has a lower nonce. An edge with the nonce of the
/// one known is never taken in, whatever it says.
pub open spec fn accepts(edges: EdgeMap, edge: EdgeView) -> bool {
    !edges.contains_key(edge.key) || edges[edge.key].edge.nonce < edge.nonce
}

/// Whether `edge` contradicts the one known for its pair: the same nonce,
/// another type.
pub open spec fn conflicts(edges: EdgeMap, edge: EdgeView) -> bool {
    edges.contains_key(edge.key) && edges[edge.key].edge.nonce == edge.nonce
        && edges[edge.key].edge.edge_type != edge.edge_type
}

/// What a set that holds `edges` holds after `edge` was offered to it at time `now`.
pub open spec fn merge(edges: EdgeMap, edge: EdgeView, now: u64) -> EdgeMap {
    if accepts(edges, edge) {
        edges.insert(edge.key, StoredEdge { edge, refreshed_at: now })
    } else {
        edges
    }
}

/// The pairs whose edge says that the connection exists.
pub open spec fn added_pairs(edges: EdgeMap) -> Set<(PeerId, PeerId)> {
    Set::new(
        |key: (PeerId, PeerId)|
            edges.contains_key(key) && edges[key].edge.edge_type == EdgeType::Added,
    )
}

/// How long ago `at` was, seen from `now`; zero where `at` lies after `now`.
pub open spec fn age(now: u64, at: u64) -> nat {
    if now >= at {
        (now - at) as nat
    } else {
        0
    }
}

/// The rule of one pruning pass.
pub ghost struct PruneRule {
    /// The peers that can be reached.
    pub reach: Set<PeerId>,
    /// The time of the pass.
    pub now: u64,
    /// How old an edge that says the connection was torn down may get.
    pub delete_removed_after: u64,
    /// How old an edge that says the connection exists may get once neither
    /// of its peers can be reached.
    pub save_peers_for: u64,
}

impl PruneRule {
    /// Whether one of the two peers of `key` can be reached.
    pub open spec fn touches(self, key: (PeerId, PeerId)) -> bool {
        self.reach.contains(key.0) || self.reach.contains(key.1)
    }

    /// Whether the pass keeps a stored edge. An edge that says the
    /// connection was torn down is kept while it is no older than
    /// `delete_removed_after`. An edge that says the connection exists is
    /// kept while one of its peers can be reached, and beyond that while it
    /// is no older than `save_peers_for`.
    pub open spec fn keeps(self, stored: StoredEdge) -> bool {
        match stored.edge.edge_type {
            EdgeType::Removed => age(self.now, stored.refreshed_at) <= self.delete_removed_after,
            EdgeType::Added => self.touches(stored.edge.key) || age(self.now, stored.refreshed_at)
                <= self.save_peers_for,
        }
    }

    /// A stored edge after the pass: one that says the connection exists
    /// and leads to a peer that can be reached counts as confirmed at the
    /// time of the pass, unless it was confirmed later than that already.
    pub open spec fn renew(self, stored: StoredEdge) -> StoredEdge {
        if stored.edge.edge_type == EdgeType::Added && self.touches(stored.edge.key) && self.now
            > stored.refreshed_at {
            StoredEdge { refreshed_at: self.now, ..stored }
        } else {
            stored
        }
    }
}

/// What is left of `edges` after a pruning pass: the edges that the rule
/// keeps, renewed.
pub open spec fn pruned(edges: EdgeMap, rule: PruneRule) -> EdgeMap {
    Map::new(
        |key: (PeerId, PeerId)| edges.contains_key(key) && rule.keeps(edges[key]),
        |key: (PeerId, PeerId)| rule.renew(edges[key]),
    )
}

/// The entries from position `n` on that the rule keeps, renewed, last one first.
spec fn sift(orig: Seq<StoredEdge>, rule: PruneRule, n: int) -> Seq<StoredEdge>
    decreases orig.len() - n,
{
    if n < 0 || n >= orig.len() {
        Seq::empty()
    } else if rule.keeps(orig[n]) {
        sift(orig, rule, n + 1).push(rule.renew(orig[n]))
    } else {
        sift(orig, rule, n + 1)
    }
}

/// Among the entries from position `n` on, the rule drops one that says
/// that a connection exists.
spec fn drops_added(orig: Seq<StoredEdge>, rule: PruneRule, n: int) -> bool
    decreases orig.len() - n,
{
    if n < 0 || n >= orig.len() {
        false
    } else {
        (orig[n].edge.edge_type == EdgeType::Added && !rule.keeps(orig[n])) || drops_added(
            orig,
            rule,
            n + 1,
        )
    }
}

/// `e` is an entry from position `n` on that the rule keeps, renewed.
spec fn came_from(orig: Seq<StoredEdge>, rule: PruneRule, n: int, e: StoredEdge) -> bool {
    exists|i: int| n <= i < orig.len() && rule.keeps(#[trigger] orig[i]) && e == rule.renew(orig[i])
}

proof fn lemma_sift(orig: Seq<StoredEdge>, rule: PruneRule, n: int)
    requires
        keys_distinct(orig, edge_key()),
        0 <= n <= orig.len(),
    ensures
        keys_distinct(sift(orig, rule, n), edge_key()),
        forall|x: int|
            0 <= x < sift(orig, rule, n).len() ==> came_from(
                orig,
                rule,
                n,
                #[trigger] sift(orig, rule, n)[x],
            ),
        forall|i: int|
            n <= i < orig.len() && rule.keeps(#[trigger] orig[i]) ==> sift(orig, rule, n).contains(
                rule.renew(orig[i]),
            ),
        drops_added(orig, rule, n) <==> exists|i: int|
            n <= i < orig.len() && (#[trigger] orig[i]).edge.edge_type == EdgeType::Added
                && !rule.keeps(orig[i]),
    decreases orig.len() - n,
{
    if n < orig.len() {
        lemma_sift(orig, rule, n + 1);
        let rest = sift(orig, rule, n + 1);
        let r = sift(orig, rule, n);
        assert forall|x: int| 0 <= x < rest.len() implies came_from(
            orig,
            rule,
            n,
            #[trigger] rest[x],
        ) by {
            assert(came_from(orig, rule, n + 1, rest[x]));
            let i = choose|i: int|
                n + 1 <= i < orig.len() && rule.keeps(#[trigger] orig[i]) && rest[x] == rule.renew(
                    orig[i],
                );
            assert(n <= i);
        }
        if rule.keeps(orig[n]) {
            let e = rule.renew(orig[n]);
            assert(r == rest.push(e));
            assert(!holds(rest, edge_key(), edge_key()(e))) by {
                if holds(rest, edge_key(), edge_key()(e)) {
                    let x = position(rest, edge_key(), edge_key()(e));
                    assert(came_from(orig, rule, n + 1, rest[x]));
                    let i = choose|i: int|
                        n + 1 <= i < orig.len() && rule.keeps(#[trigger] orig[i]) && rest[x]
                            == rule.renew(orig[i]);
                    assert(edge_key()(orig[n]) != edge_key()(orig[i]));
                }
            }
            lemma_as_map_push(rest, edge_key(), e);
            assert forall|x: int| 0 <= x < r.len() implies came_from(
                orig,
                rule,
                n,
                #[trigger] r[x],
            ) by {
                if x < rest.len() {
                    assert(r[x] == rest[x]);
                } else {
                    assert(rule.keeps(orig[n]) && r[x] == rule.renew(orig[n]));
                }
            }
            assert forall|i: int| n <= i < orig.len() && rule.keeps(#[trigger] orig[i]) implies r.contains(
                rule.renew(orig[i]),
            ) by {
                if i == n {
                    assert(r[rest.len() as int] == e);
                } else {
                    assert(rest.contains(rule.renew(orig[i])));
                    let x = choose|x: int| 0 <= x < rest.len() && rest[x] == rule.renew(orig[i]);
                    assert(r[x] == rest[x]);
                }
            }
        }
        if drops_added(orig, rule, n) {
            if orig[n].edge.edge_type == EdgeType::Added && !rule.keeps(orig[n]) {
            } else {
                let i = choose|i: int|
                    n + 1 <= i < orig.len() && (#[trigger] orig[i]).edge.edge_type
                        == EdgeType::Added && !rule.keeps(orig[i]);
                assert(n <= i);
            }
        }
    }
}

/// The entries that a pass keeps make up the pruned map, and the set of
/// existing connections changes exactly where the pass drops an edge that
/// says that a connection exists.
proof fn lemma_sift_map(orig: Seq<StoredEdge>, rule: PruneRule)
    requires
        keys_distinct(orig, edge_key()),
        keys_ordered(orig),
    ensures
        keys_distinct(sift(orig, rule, 0), edge_key()),
        keys_ordered(sift(orig, rule, 0)),
        as_map(sift(orig, rule, 0), edge_key()) == pruned(as_map(orig, edge_key()), rule),
        drops_added(orig, rule, 0) <==> added_pairs(pruned(as_map(orig, edge_key()), rule))
            != added_pairs(as_map(orig, edge_key())),
{
    lemma_sift(orig, rule, 0);
    let r = sift(orig, rule, 0);
    let before = as_map(orig, edge_key());
    let after = pruned(before, rule);
    assert forall|x: int| 0 <= x < r.len() implies (#[trigger] r[x]).edge.key.0.not_above(
        r[x].edge.key.1,
    ) by {
        assert(came_from(orig, rule, 0, r[x]));
    }
    assert forall|key: (PeerId, PeerId)| #[trigger]
        as_map(r, edge_key()).contains_key(key) == after.contains_key(key) by {
        if holds(r, edge_key(), key) {
            let x = position(r, edge_key(), key);
            assert(came_from(orig, rule, 0, r[x]));
            let i = choose|i: int|
                0 <= i < orig.len() && rule.keeps(#[trigger] orig[i]) && r[x] == rule.renew(orig[i]);
            lemma_as_map_index(orig, edge_key(), i);
        }
        if after.contains_key(key) {
            let i = position(orig, edge_key(), key);
            lemma_as_map_index(orig, edge_key(), i);
            assert(r.contains(rule.renew(orig[i])));
            let x = choose|x: int| 0 <= x < r.len() && r[x] == rule.renew(orig[i]);
            assert(edge_key()(r[x]) == key);
        }
    }
    assert forall|key: (PeerId, PeerId)| #[trigger]
        as_map(r, edge_key()).contains_key(key) implies as_map(r, edge_key())[key]
        == after[key] by {
        let x = position(r, edge_key(), key);
        lemma_as_map_index(r, edge_key(), x);
        assert(came_from(orig, rule, 0, r[x]));
        let i = choose|i: int|
            0 <= i < orig.len() && rule.keeps(#[trigger] orig[i]) && r[x] == rule.renew(orig[i]);
        lemma_as_map_index(orig, edge_key(), i);
    }
    assert(as_map(r, edge_key()) =~= after);
    if drops_added(orig, rule, 0) {
        let i = choose|i: int|
            0 <= i < orig.len() && (#[trigger] orig[i]).edge.edge_type == EdgeType::Added
                && !rule.keeps(orig[i]);
        lemma_as_map_index(orig, edge_key(), i);
        assert(added_pairs(before).contains(orig[i].edge.key));
        assert(!added_pairs(after).contains(orig[i].edge.key));
    } else {
        assert forall|key: (PeerId, PeerId)| added_pairs(before).contains(key) implies added_pairs(
            after,
        ).contains(key) by {
            let i = position(orig, edge_key(), key);
            lemma_as_map_index(orig, edge_key(), i);
            assert(orig[i].edge.edge_type == EdgeType::Added);
        }
        assert(added_pairs(after) =~= added_pairs(before));
    }
}

/// The peers that a graph has a route to.
pub open spec fn reach_of(graph: GraphView) -> Set<PeerId> {
    Set::new(|v: PeerId| graph.reaches(v))
}

/// An edge filed under its pair: the set looks edges up by the pair alone,
/// whatever nonce they carry.
#[derive(Debug)]
pub struct EdgeIndexedByKey {
    inner: Edge,
    refreshed_at: u64,
}

impl View for EdgeIndexedByKey {
    type V = StoredEdge;

    closed spec fn view(&self) -> StoredEdge {
        StoredEdge { edge: self.inner@, refreshed_at: self.refreshed_at }
    }
}

impl EdgeIndexedByKey {
    pub fn new(edge: Edge, refreshed_at: u64) -> (entry: Self)
        ensures
            entry@ == (StoredEdge { edge: edge@, refreshed_at }),
    {
        EdgeIndexedByKey { inner: edge, refreshed_at }
    }

    pub fn edge(&self) -> (edge: &Edge)
        ensures
            edge@ == self@.edge,
    {
        &self.inner
    }

    /// The pair that the edge is filed under.
    pub fn key(&self) -> (key: &(PeerId, PeerId))
        ensures
            *key == self@.edge.key,
            key.0.not_above(key.1),
    {
        self.inner.key()
    }

    pub fn refreshed_at(&self) -> (at: u64)
        ensures
            at == self@.refreshed_at,
    {
        self.refreshed_at
    }
}

/// The edges that a node knows: one per pair of peers. Its view is the map
/// from pairs to edges.
pub struct EdgeSet {
    repr: Vec<EdgeIndexedByKey>,
}

impl View for EdgeSet {
    type V = EdgeMap;

    closed spec fn view(&self) -> EdgeMap {
        as_map(self.entries(), edge_key())
    }
}

impl Default for EdgeSet {
    fn default() -> (set: Self)
        ensures
            set@ == EdgeMap::empty(),
    {
        let set = Self { repr: Vec::new() };
        assert(set@ =~= EdgeMap::empty());
        set
    }
}

impl EdgeSet {
    #[verifier::type_invariant]
    spec fn well_formed(self) -> bool {
        keys_distinct(self.entries(), edge_key()) && keys_ordered(self.entries())
    }

    closed spec fn entries(self) -> Seq<StoredEdge> {
        self.repr@.map_values(|e: EdgeIndexedByKey| e@)
    }

    fn find(&self, key: &(PeerId, PeerId)) -> (r: Option<usize>)
        ensures
            match r {
                Some(i) => i < self.repr.len() && self.entries()[i as int].edge.key == *key,
                None => !holds(self.entries(), edge_key(), *key),
            },
    {
        let mut i: usize = 0;
        while i < self.repr.len()
            invariant
                i <= self.repr.len(),
                forall|j: int| 0 <= j < i ==> (#[trigger] self.entries()[j]).edge.key != *key,
            decreases self.repr.len() - i,
        {
            let k = self.repr[i].inner.key();
            if k.0 == key.0 && k.1 == key.1 {
                return Some(i);
            }
            i += 1;
        }
        None
    }

    /// What would become of `edge` if it were offered now: the checks are
    /// made in the order bans, signatures, nonce.
    pub fn check(&self, edge: &Edge, checks: SignatureCheck, peers: &KnownPeerStore) -> (v: Verdict)
        ensures
            v == verdict(self@, peers@, edge@, checks),
    {
        let key = edge.key();
        if peers.is_banned(&key.0) || peers.is_banned(&key.1) {
            Verdict::BannedPeer
        } else if !checks.a_valid || !checks.b_valid {
            Verdict::BadSignature
        } else {
            match self.get(key) {
                None => Verdict::Accepted,
                Some(known) => {
                    if known.nonce() < edge.nonce() {
                        Verdict::Accepted
                    } else if known.nonce() == edge.nonce() && known.is_added() != edge.is_added() {
                        Verdict::Conflict
                    } else {
                        Verdict::Stale
                    }
                },
            }
        }
    }

    /// Offers `edge` to the set at time `now`. It is taken in, in the place
    /// of the edge known for its pair, where none of its peers is banned,
    /// both signatures are valid, and it is newer than the edge known.
    /// Otherwise the set stays as it is. Says whether the set changed.
    pub fn insert(
        &mut self,
        edge: Edge,
        checks: SignatureCheck,
        peers: &KnownPeerStore,
        now: u64,
    ) -> (changed: bool)
        ensures
            changed == (verdict(old(self)@, peers@, edge@, checks) is Accepted),
            final(self)@ == if changed {
                merge(old(self)@, edge@, now)
            } else {
                old(self)@
            },
            final(self)@ == taken_in(old(self)@, peers@, edge@, checks, now),
    {
        match self.check(&edge, checks, peers) {
            Verdict::Accepted => {
                self.insert_if_newer(edge, now);
                true
            },
            _ => false,
        }
    }

    /// Merges `edge` in if it is newer than what the set has for its pair:
    /// no edge is known for the pair, or the known one has a lower nonce.
    /// Says whether the set changed. Bans and signatures are not looked at
    /// here: `insert` and the routing table do that before they merge.
    pub(crate) fn insert_if_newer(&mut self, edge: Edge, now: u64) -> (changed: bool)
        ensures
            changed == accepts(old(self)@, edge@),
            final(self)@ == merge(old(self)@, edge@, now),
    {
        proof {
            use_type_invariant(&*self);
        }
        let found = self.find(edge.key());
        match found {
            Some(i) => {
                proof {
                    lemma_as_map_index(self.entries(), edge_key(), i as int);
                }
                if self.repr[i].inner.nonce() < edge.nonce() {
                    let entry = EdgeIndexedByKey::new(edge, now);
                    let mut repr: Vec<EdgeIndexedByKey> = Vec::new();
                    core::mem::swap(&mut self.repr, &mut repr);
                    proof {
                        lemma_as_map_update(old(self).entries(), edge_key(), i as int, entry@);
                        assert(repr@.update(i as int, entry).map_values(|e: EdgeIndexedByKey| e@)
                            =~= old(self).entries().update(i as int, entry@));
                    }
                    repr.set(i, entry);
                    core::mem::swap(&mut self.repr, &mut repr);
                    true
                } else {
                    false
                }
            },
            None => {
                let entry = EdgeIndexedByKey::new(edge, now);
                let mut repr: Vec<EdgeIndexedByKey> = Vec::new();
                core::mem::swap(&mut self.repr, &mut repr);
                proof {
                    lemma_as_map_push(old(self).entries(), edge_key(), entry@);
                    assert(repr@.push(entry).map_values(|e: EdgeIndexedByKey| e@) =~= old(
                        self,
                    ).entries().push(entry@));
                }
                repr.push(entry);
                core::mem::swap(&mut self.repr, &mut repr);
                true
            },
        }
    }

    /// The edge that the set has for the pair `key`.
    pub fn get(&self, key: &(PeerId, PeerId)) -> (r: Option<&Edge>)
        ensures
            match r {
                Some(edge) => self@.contains_key(*key) && edge@ == self@[*key].edge && edge@.key
                    == *key,
                None => !self@.contains_key(*key),
            },
    {
        proof {
            use_type_invariant(self);
        }
        match self.find(key) {
            Some(i) => {
                proof {
                    lemma_as_map_index(self.entries(), edge_key(), i as int);
                }
                Some(&self.repr[i].inner)
            },
            None => None,
        }
    }

    /// When the edge for the pair `key` was last confirmed.
    pub fn refreshed_at(&self, key: &(PeerId, PeerId)) -> (r: Option<u64>)
        ensures
            match r {
                Some(at) => self@.contains_key(*key) && at == self@[*key].refreshed_at,
                None => !self@.contains_key(*key),
            },
    {
        proof {
            use_type_invariant(self);
        }
        match self.find(key) {
            Some(i) => {
                proof {
                    lemma_as_map_index(self.entries(), edge_key(), i as int);
                }
                Some(self.repr[i].refreshed_at)
            },
            None => None,
        }
    }

    /// Drops the edge for the pair `key`, and says whether there was one.
    pub fn remove(&mut self, key: &(PeerId, PeerId)) -> (removed: bool)
        ensures
            removed == old(self)@.contains_key(*key),
            final(self)@ == old(self)@.remove(*key),
    {
        proof {
            use_type_invariant(&*self);
        }
        match self.find(key) {
            Some(i) => {
                proof {
                    lemma_as_map_index(self.entries(), edge_key(), i as int);
                    lemma_as_map_remove(self.entries(), edge_key(), i as int);
                    assert(self.repr@.remove(i as int).map_values(|e: EdgeIndexedByKey| e@)
                        =~= self.entries().remove(i as int));
                    assert forall|j: int| 0 <= j < self.entries().remove(i as int).len() implies (
                    #[trigger] self.entries().remove(i as int)[j]).edge.key.0.not_above(
                        self.entries().remove(i as int)[j].edge.key.1,
                    ) by {
                        assert(self.entries().remove(i as int)[j] == self.entries()[if j < i {
                            j
                        } else {
                            j + 1
                        }]);
                    }
                }
                let mut repr: Vec<EdgeIndexedByKey> = Vec::new();
                core::mem::swap(&mut self.repr, &mut repr);
                repr.remove(i);
                core::mem::swap(&mut self.repr, &mut repr);
                true
            },
            None => {
                assert(old(self)@.remove(*key) =~= old(self)@);
                false
            },
        }
    }

    /// How many pairs the set has an edge for. The set is finite, and files
    /// every edge under its own pair.
    pub fn len(&self) -> (n: usize)
        ensures
            self@.dom().finite(),
            n == self@.dom().len(),
            filed_by_pair(self@),
    {
        proof {
            use_type_invariant(self);
            lemma_as_map_len(self.entries(), edge_key());
            assert forall|key: (PeerId, PeerId)| #[trigger] self@.contains_key(key) implies self@[key].edge.key
                == key && key.0.not_above(key.1) by {
                let p = position(self.entries(), edge_key(), key);
                assert(self.entries()[p].edge.key == key);
            }
        }
        self.repr.len()
    }

    /// The edges of the set, each once, in no order that a caller may rely on.
    pub fn iter(&self) -> (edges: Vec<&Edge>)
        ensures
            edges@.len() == self@.dom().len(),
            forall|i: int|
                0 <= i < edges@.len() ==> self@.contains_key((#[trigger] edges@[i])@.key)
                    && self@[edges@[i]@.key].edge == edges@[i]@,
            forall|key: (PeerId, PeerId)|
                self@.contains_key(key) ==> exists|i: int|
                    0 <= i < edges@.len() && (#[trigger] edges@[i])@.key == key,
            forall|i: int, j: int|
                0 <= i < j < edges@.len() ==> edges@[i]@.key != edges@[j]@.key,
    {
        proof {
            use_type_invariant(self);
            lemma_as_map_len(self.entries(), edge_key());
        }
        let mut edges: Vec<&Edge> = Vec::new();
        let mut i: usize = 0;
        while i < self.repr.len()
            invariant
                i <= self.repr.len(),
                edges@.len() == i,
                forall|j: int| 0 <= j < i ==> (#[trigger] edges@[j])@ == self.entries()[j].edge,
            decreases self.repr.len() - i,
        {
            edges.push(&self.repr[i].inner);
            i += 1;
        }
        proof {
            assert forall|i: int| 0 <= i < edges@.len() implies self@.contains_key(
                (#[trigger] edges@[i])@.key,
            ) && self@[edges@[i]@.key].edge == edges@[i]@ by {
                lemma_as_map_index(self.entries(), edge_key(), i);
            }
            assert forall|key: (PeerId, PeerId)| self@.contains_key(key) implies exists|i: int|
                0 <= i < edges@.len() && (#[trigger] edges@[i])@.key == key by {
                let p = position(self.entries(), edge_key(), key);
                assert(edges@[p]@.key == key);
            }
        }
        edges
    }

    /// The pairs whose edge says that the connection exists, each once.
    pub fn added_pairs(&self) -> (pairs: Vec<(PeerId, PeerId)>)
        ensures
            forall|key: (PeerId, PeerId)| pairs@.contains(key) <==> added_pairs(self@).contains(key),
            forall|i: int| 0 <= i < pairs@.len() ==> (#[trigger] pairs@[i]).0.not_above(pairs@[i].1),
    {
        proof {
            use_type_invariant(self);
        }
        let mut pairs: Vec<(PeerId, PeerId)> = Vec::new();
        let mut i: usize = 0;
        while i < self.repr.len()
            invariant
                i <= self.repr.len(),
                keys_distinct(self.entries(), edge_key()),
                forall|j: int|
                    0 <= j < pairs@.len() ==> (#[trigger] pairs@[j]).0.not_above(pairs@[j].1),
                forall|key: (PeerId, PeerId)|
                    pairs@.contains(key) <==> exists|j: int|
                        0 <= j < i && (#[trigger] self.entries()[j]).edge.key == key
                            && self.entries()[j].edge.edge_type == EdgeType::Added,
            decreases self.repr.len() - i,
        {
            let edge = &self.repr[i].inner;
            if edge.is_added() {
                let key = *edge.key();
                let ghost before = pairs@;
                pairs.push(key);
                proof {
                    assert forall|k: (PeerId, PeerId)| pairs@.contains(k) <==> exists|j: int|
                        0 <= j < i + 1 && (#[trigger] self.entries()[j]).edge.key == k
                            && self.entries()[j].edge.edge_type == EdgeType::Added by {
                        if pairs@.contains(k) {
                            let p = choose|p: int| 0 <= p < pairs@.len() && pairs@[p] == k;
                            if p < before.len() {
                                assert(before[p] == k);
                                assert(before.contains(k));
                            } else {
                                assert(self.entries()[i as int].edge.key == k);
                            }
                        }
                        if exists|j: int|
                            0 <= j < i + 1 && (#[trigger] self.entries()[j]).edge.key == k
                                && self.entries()[j].edge.edge_type == EdgeType::Added {
                            let j = choose|j: int|
                                0 <= j < i + 1 && (#[trigger] self.entries()[j]).edge.key == k
                                    && self.entries()[j].edge.edge_type == EdgeType::Added;
                            if j < i {
                                assert(before.contains(k));
                                let p = choose|p: int| 0 <= p < before.len() && before[p] == k;
                                assert(pairs@[p] == k);
                            } else {
                                assert(pairs@[before.len() as int] == k);
                            }
                        }
                    }
                }
            }
            i += 1;
        }
        proof {
            assert forall|key: (PeerId, PeerId)| pairs@.contains(key) <==> added_pairs(
                self@,
            ).contains(key) by {
                if pairs@.contains(key) {
                    let j = choose|j: int|
                        0 <= j < i && (#[trigger] self.entries()[j]).edge.key == key
                            && self.entries()[j].edge.edge_type == EdgeType::Added;
                    lemma_as_map_index(self.entries(), edge_key(), j);
                }
                if added_pairs(self@).contains(key) {
                    let p = position(self.entries(), edge_key(), key);
                    lemma_as_map_index(self.entries(), edge_key(), p);
                }
            }
        }
        pairs
    }

    /// Prunes the set at time `now`: drops the edges that the rule does not
    /// keep, and renews those that lead to a peer that `graph` has a route
    /// to. Says whether the set of existing connections changed.
    pub(crate) fn prune(
        &mut self,
        graph: &Graph,
        now: u64,
        delete_removed_after: u64,
        save_peers_for: u64,
    ) -> (links_changed: bool)
        ensures
            final(self)@ == pruned(
                old(self)@,
                PruneRule { reach: reach_of(graph@), now, delete_removed_after, save_peers_for },
            ),
            links_changed == (added_pairs(final(self)@) != added_pairs(old(self)@)),
    {
        proof {
            use_type_invariant(&*self);
        }
        let ghost orig = self.entries();
        let ghost rule = PruneRule {
            reach: reach_of(graph@),
            now,
            delete_removed_after,
            save_peers_for,
        };
        let mut repr: Vec<EdgeIndexedByKey> = Vec::new();
        core::mem::swap(&mut self.repr, &mut repr);
        let mut kept: Vec<EdgeIndexedByKey> = Vec::new();
        let mut links_changed = false;
        assert(repr@.map_values(|e: EdgeIndexedByKey| e@) =~= orig);
        while repr.len() > 0
            invariant
                rule == (PruneRule {
                    reach: reach_of(graph@),
                    now,
                    delete_removed_after,
                    save_peers_for,
                }),
                repr@.len() <= orig.len(),
                forall|i: int| 0 <= i < repr@.len() ==> (#[trigger] repr@[i])@ == orig[i],
                kept@.map_values(|e: EdgeIndexedByKey| e@) == sift(orig, rule, repr@.len() as int),
                links_changed == drops_added(orig, rule, repr@.len() as int),
            decreases repr@.len(),
        {
            let ghost n = repr@.len() - 1;
            let ghost kept_before = kept@;
            let entry = repr.pop().unwrap();
            assert(entry@ == orig[n]);
            let stamp: u64 = entry.refreshed_at;
            let edge: Edge = entry.inner;
            let key: (PeerId, PeerId) = *edge.key();
            let age: u64 = if now >= stamp {
                now - stamp
            } else {
                0
            };
            let added: bool = edge.is_added();
            let reached: bool = graph.is_reachable(&key.0) || graph.is_reachable(&key.1);
            assert(reached == rule.touches(orig[n].edge.key));
            let keep: bool = if added {
                reached || age <= save_peers_for
            } else {
                age <= delete_removed_after
            };
            assert(keep == rule.keeps(orig[n]));
            if keep {
                let at: u64 = if added && reached && now > stamp {
                    now
                } else {
                    stamp
                };
                let fresh = EdgeIndexedByKey { inner: edge, refreshed_at: at };
                assert(fresh@ == rule.renew(orig[n]));
                kept.push(fresh);
                assert(kept@.map_values(|e: EdgeIndexedByKey| e@) =~= kept_before.map_values(
                    |e: EdgeIndexedByKey| e@,
                ).push(fresh@));
            } else if added {
                links_changed = true;
            }
        }
        proof {
            lemma_sift_map(orig, rule);
        }
        core::mem::swap(&mut self.repr, &mut kept);
        links_changed
    }
}

} // verus!
