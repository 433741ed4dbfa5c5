//! Peer-to-peer topology for a gossip network: signed edges between peers,
//! the latest edge per pair, shortest routes, pruning of stale state, and the
//! clock and peer records these rest on. Beside them, the rules that the
//! packages of the workspace keep.
//!
//! Every function here is verified against its contract. What is taken on
//! trust about the standard library and about outside crates stands in
//! `time::std_time` and `themis::semver_specs`.

pub mod keyed;
pub mod peer;
pub mod peer_manager;
pub mod routing;
pub mod themis;
pub mod time;
