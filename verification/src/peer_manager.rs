//! What a node remembers about the peers it has met.

pub mod db_types;
pub mod peer_store;

pub use db_types::{KnownPeerState, KnownPeerStatus};
pub use peer_store::KnownPeerStore;
