//! The routing table: takes in the edges that gossip brings, keeps the
//! latest per pair, works out the routes, and prunes what has gone stale.

use vstd::prelude::*;
use crate::peer::PeerId;
use crate::peer_manager::peer_store::KnownPeerStore;
use crate::peer_manager::peer_store::PeerMap;
use crate::routing::edge::Edge;
use crate::routing::edge::EdgeView;
use crate::routing::edge_set::added_pairs;
use crate::routing::edge_set::pruned;
use crate::routing::edge_set::EdgeMap;
use crate::routing::edge_set::EdgeSet;
use crate::routing::edge_set::PruneRule;
use crate::routing::graph::Graph;
use crate::routing::reach::distance;
use crate::routing::reach::next_hop;
use crate::routing::reach::reachable;
use crate::routing::verdict::taken_in;
use crate::routing::verdict::verdict;
use crate::routing::verdict::SignatureCheck;
use crate::routing::verdict::Verdict;

verus! {

/// An edge as it arrives, with what was found of its signatures.
#[derive(Debug)]
pub struct SignedEdge {
    pub edge: Edge,
    pub checks: SignatureCheck,
}

/// What a routing table holds.
pub ghost struct RoutingTableView {
    /// The node whose table this is.
    pub local: PeerId,
    /// The latest edge of each pair.
    pub edges: EdgeMap,
    /// The set of existing connections has changed since the routes were
    /// last worked out.
    pub dirty: bool,
    pub delete_removed_after: u64,
    pub save_peers_for: u64,
}

impl RoutingTableView {
    /// The table after `edge` was offered to it at time `now`. Only an
    /// accepted edge changes anything. The routes are out of date afterwards
    /// where the set of existing connections is another than before.
    pub open spec fn offered(
        self,
        peers: PeerMap,
        edge: EdgeView,
        checks: SignatureCheck,
        now: u64,
    ) -> RoutingTableView {
        let edges = taken_in(self.edges, peers, edge, checks, now);
        RoutingTableView {
            edges,
            dirty: self.dirty || added_pairs(edges) != added_pairs(self.edges),
            ..self
        }
    }

    /// The table after the first `n` edges of `batch` were offered to it, one
    /// after the other, at time `now`.
    pub open spec fn offered_all(
        self,
        peers: PeerMap,
        batch: Seq<SignedEdge>,
        n: nat,
        now: u64,
    ) -> RoutingTableView
        decreases n,
    {
        if n == 0 {
            self
        } else {
            self.offered_all(peers, batch, (n - 1) as nat, now).offered(
                peers,
                batch[n - 1].edge@,
                batch[n - 1].checks,
                now,
            )
        }
    }

    /// The rule by which the table is pruned at time `now`.
    pub open spec fn prune_rule(self, now: u64) -> PruneRule {
        PruneRule {
            reach: Set::new(|v: PeerId| reachable(added_pairs(self.edges), self.local, v)),
            now,
            delete_removed_after: self.delete_removed_after,
            save_peers_for: self.save_peers_for,
        }
    }
}

/// The routing table of one node.
pub struct RoutingTable {
    local: PeerId,
    edges: EdgeSet,
    graph: Graph,
    dirty: bool,
    delete_removed_after: u64,
    save_peers_for: u64,
}

impl View for RoutingTable {
    type V = RoutingTableView;

    closed spec fn view(&self) -> RoutingTableView {
        RoutingTableView {
            local: self.local,
            edges: self.edges@,
            dirty: self.dirty,
            delete_removed_after: self.delete_removed_after,
            save_peers_for: self.save_peers_for,
        }
    }
}

impl RoutingTable {
    #[verifier::type_invariant]
    spec fn well_formed(self) -> bool {
        &&& self.graph@.source == self.local
        &&& !self.dirty ==> self.graph@.links == Some(added_pairs(self.edges@))
    }

    /// The table of the node `local`, with no edges. An edge that says a
    /// connection was torn down is dropped once it is older than
    /// `delete_removed_after`; one that says a connection exists and leads
    /// to no peer that can be reached, once it is older than
    /// `save_peers_for`.
    pub fn new(local: PeerId, delete_removed_after: u64, save_peers_for: u64) -> (table: Self)
        ensures
            table@ == (RoutingTableView {
                local,
                edges: EdgeMap::empty(),
                dirty: false,
                delete_removed_after,
                save_peers_for,
            }),
    {
        let edges = EdgeSet::default();
        let mut graph = Graph::new(local);
        graph.rebuild(&edges);
        RoutingTable { local, edges, graph, dirty: false, delete_removed_after, save_peers_for }
    }

    pub fn local(&self) -> (local: PeerId)
        ensures
            local == self@.local,
    {
        self.local
    }

    /// The edges of the table.
    pub fn edges(&self) -> (edges: &EdgeSet)
        ensures
            edges@ == self@.edges,
    {
        &self.edges
    }

    /// Whether the routes are out of date.
    pub fn is_dirty(&self) -> (dirty: bool)
        ensures
            dirty == self@.dirty,
    {
        self.dirty
    }

    /// What would become of `edge` if it were offered now.
    pub fn check(&self, edge: &Edge, checks: SignatureCheck, peers: &KnownPeerStore) -> (v: Verdict)
        ensures
            v == verdict(self@.edges, peers@, edge@, checks),
    {
        self.edges.check(edge, checks, peers)
    }

    /// Offers `edge` to the table at time `now`, and says what became of it.
    pub fn offer(
        &mut self,
        edge: Edge,
        checks: SignatureCheck,
        peers: &KnownPeerStore,
        now: u64,
    ) -> (v: Verdict)
        ensures
            v == verdict(old(self)@.edges, peers@, edge@, checks),
            final(self)@ == old(self)@.offered(peers@, edge@, checks, now),
    {
        proof {
            use_type_invariant(&*self);
        }
        let v = self.check(&edge, checks, peers);
        match v {
            Verdict::Accepted => {
                let was_added: bool = match self.edges.get(edge.key()) {
                    Some(known) => known.is_added(),
                    None => false,
                };
                let is_added: bool = edge.is_added();
                let ghost before = self.edges@;
                let ghost key = edge@.key;
                let was_dirty: bool = self.dirty;
                self.dirty = true;
                let mut edges = EdgeSet::default();
                core::mem::swap(&mut self.edges, &mut edges);
                let mut graph = Graph::new(self.local);
                core::mem::swap(&mut self.graph, &mut graph);
                edges.insert_if_newer(edge, now);
                proof {
                    let after = edges@;
                    if was_added != is_added {
                        assert(added_pairs(before).contains(key) != added_pairs(after).contains(key));
                    } else {
                        assert(added_pairs(after) =~= added_pairs(before));
                    }
                }
                let dirty: bool = was_dirty || was_added != is_added;
                *self = RoutingTable {
                    local: self.local,
                    edges,
                    graph,
                    dirty,
                    delete_removed_after: self.delete_removed_after,
                    save_peers_for: self.save_peers_for,
                };
            },
            _ => {},
        }
        v
    }

    /// Takes `edge` in at time `now` if none of its peers is banned, both
    /// signatures are valid and it is newer than the edge known for its
    /// pair. Says whether the table changed; if so the edge is to be passed
    /// on to other peers.
    pub fn insert_if_newer(
        &mut self,
        edge: Edge,
        checks: SignatureCheck,
        peers: &KnownPeerStore,
        now: u64,
    ) -> (changed: bool)
        ensures
            changed == (verdict(old(self)@.edges, peers@, edge@, checks) is Accepted),
            final(self)@ == old(self)@.offered(peers@, edge@, checks, now),
    {
        match self.offer(edge, checks, peers, now) {
            Verdict::Accepted => true,
            _ => false,
        }
    }

    /// Offers the edges of `batch` at time `now`, in their order, then brings
    /// the routes up to date. Says for each edge what became of it.
    pub fn ingest(&mut self, batch: &Vec<SignedEdge>, peers: &KnownPeerStore, now: u64) -> (verdicts:
        Vec<Verdict>)
        ensures
            final(self)@ == (RoutingTableView {
                dirty: false,
                ..old(self)@.offered_all(peers@, batch@, batch@.len(), now)
            }),
            verdicts@.len() == batch@.len(),
            forall|i: int|
                0 <= i < batch@.len() ==> #[trigger] verdicts@[i] == verdict(
                    old(self)@.offered_all(peers@, batch@, i as nat, now).edges,
                    peers@,
                    batch@[i].edge@,
                    batch@[i].checks,
                ),
    {
        let mut verdicts: Vec<Verdict> = Vec::new();
        let mut i: usize = 0;
        while i < batch.len()
            invariant
                i <= batch@.len(),
                verdicts@.len() == i,
                self@ == old(self)@.offered_all(peers@, batch@, i as nat, now),
                forall|j: int|
                    0 <= j < i ==> #[trigger] verdicts@[j] == verdict(
                        old(self)@.offered_all(peers@, batch@, j as nat, now).edges,
                        peers@,
                        batch@[j].edge@,
                        batch@[j].checks,
                    ),
            decreases batch@.len() - i,
        {
            let v = self.offer(batch[i].edge.duplicate(), batch[i].checks, peers, now);
            verdicts.push(v);
            i += 1;
        }
        self.rebuild_if_dirty();
        verdicts
    }

    /// Works the routes out anew if they are out of date.
    pub fn rebuild_if_dirty(&mut self)
        ensures
            final(self)@ == (RoutingTableView { dirty: false, ..old(self)@ }),
    {
        proof {
            use_type_invariant(&*self);
        }
        if self.dirty {
            let mut edges = EdgeSet::default();
            core::mem::swap(&mut self.edges, &mut edges);
            let mut graph = Graph::new(self.local);
            graph.rebuild(&edges);
            *self = RoutingTable {
                local: self.local,
                edges,
                graph,
                dirty: false,
                delete_removed_after: self.delete_removed_after,
                save_peers_for: self.save_peers_for,
            };
        }
    }

    /// The routes as they were last worked out.
    pub fn graph(&self) -> (graph: &Graph)
        ensures
            graph@.source == self@.local,
            !self@.dirty ==> graph@.links == Some(added_pairs(self@.edges)),
    {
        proof {
            use_type_invariant(self);
        }
        &self.graph
    }

    /// The neighbour to send to for `dest`, by the edges as they are now:
    /// the routes are brought up to date first.
    pub fn next_hop(&mut self, dest: &PeerId) -> (hop: Option<PeerId>)
        ensures
            hop == next_hop(added_pairs(old(self)@.edges), old(self)@.local, *dest),
            final(self)@ == (RoutingTableView { dirty: false, ..old(self)@ }),
    {
        self.rebuild_if_dirty();
        proof {
            use_type_invariant(&*self);
        }
        self.graph.next_hop(dest)
    }

    /// How many connections the shortest way to `dest` takes, by the edges
    /// as they are now; `None` where there is no way.
    pub fn distance(&mut self, dest: &PeerId) -> (d: Option<usize>)
        ensures
            match d {
                Some(d) => distance(added_pairs(old(self)@.edges), old(self)@.local, *dest) == Some(
                    d as nat,
                ),
                None => distance(added_pairs(old(self)@.edges), old(self)@.local, *dest) is None,
            },
            final(self)@ == (RoutingTableView { dirty: false, ..old(self)@ }),
    {
        self.rebuild_if_dirty();
        proof {
            use_type_invariant(&*self);
        }
        self.graph.distance(dest)
    }

    /// Whether `dest` can be reached, by the edges as they are now.
    pub fn is_reachable(&mut self, dest: &PeerId) -> (b: bool)
        ensures
            b == reachable(added_pairs(old(self)@.edges), old(self)@.local, *dest),
            final(self)@ == (RoutingTableView { dirty: false, ..old(self)@ }),
    {
        self.rebuild_if_dirty();
        proof {
            use_type_invariant(&*self);
        }
        self.graph.is_reachable(dest)
    }

    /// Prunes the table at time `now`: see `PruneRule`. The peers that can
    /// be reached are those of the edges as they are now. Returns how many
    /// edges were dropped.
    pub fn prune(&mut self, now: u64) -> (dropped: usize)
        ensures
            final(self)@.edges == pruned(old(self)@.edges, old(self)@.prune_rule(now)),
            final(self)@ == (RoutingTableView {
                edges: final(self)@.edges,
                dirty: added_pairs(final(self)@.edges) != added_pairs(old(self)@.edges),
                ..old(self)@
            }),
            dropped == old(self)@.edges.dom().len() - final(self)@.edges.dom().len(),
    {
        self.rebuild_if_dirty();
        proof {
            use_type_invariant(&*self);
        }
        self.dirty = true;
        let mut edges = EdgeSet::default();
        core::mem::swap(&mut self.edges, &mut edges);
        let mut graph = Graph::new(self.local);
        core::mem::swap(&mut self.graph, &mut graph);
        let before: usize = edges.len();
        let ghost old_edges = edges@;
        let links_changed = edges.prune(&graph, now, self.delete_removed_after, self.save_peers_for);
        let after: usize = edges.len();
        proof {
            assert(crate::routing::edge_set::reach_of(graph@) =~= old(self)@.prune_rule(now).reach);
            assert(edges@.dom().subset_of(old_edges.dom()));
            vstd::set_lib::lemma_len_subset(edges@.dom(), old_edges.dom());
        }
        *self = RoutingTable {
            local: self.local,
            edges,
            graph,
            dirty: links_changed,
            delete_removed_after: self.delete_removed_after,
            save_peers_for: self.save_peers_for,
        };
        before - after
    }
}

} // verus!
