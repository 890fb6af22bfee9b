//! Authenticated price snapshots: leaf encoding, a Merkle store with a
//! two-phase commit, inclusion proofs, the chain registry and the decisions
//! of the snapshot scheduler and the root publisher.

pub mod hex_text;
pub mod merkle;
pub mod notify;
pub mod registry;
pub mod store;
pub mod timer;
pub mod leaf;
