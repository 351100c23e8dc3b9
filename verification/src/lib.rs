//! A per-node trust ledger for a peer-to-peer reputation network.
//!
//! A node keeps an integer trust score for each of its direct neighbours
//! (its local trust) and for each peer of the wider network (its global
//! trust). Beside each table of scores stands the table of shares: every
//! score set against the sum of its table, as an exact fraction.

pub mod config;
pub mod peer;
pub mod trust;

pub use config::RustyPeerConfig;
pub use peer::RustyPeer;
pub use trust::NormalizedTrust;
