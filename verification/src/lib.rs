//! Topic-scoped gossip overlay for blockchain state-change events: message
//! codec, topic registry, peer set, mesh maintenance, validation and
//! propagation, all stated over mathematical models and verified.

pub mod config;
pub mod error;
pub mod identity;
pub mod network;
pub mod node;
pub mod types;

pub use node::IpdmNode;
