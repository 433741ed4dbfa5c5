//! The gossiped graph of edges between peers, and the routes through it.

pub mod edge;
pub mod edge_set;
pub mod graph;
pub mod laws;
pub mod reach;
pub mod routing_table;
pub mod verdict;

pub use edge::{Edge, EdgeType};
pub use edge_set::{EdgeIndexedByKey, EdgeSet};
pub use graph::{Graph, Route};
pub use routing_table::{RoutingTable, SignedEdge};
pub use verdict::{SignatureCheck, Verdict};
