//! A quorum store: validators batch transactions, replicate each batch across
//! the validator set, and assemble a proof of store — an aggregate signature
//! attesting that a quorum has durably stored the batch's payload.

pub mod batch_aggregator;
pub mod batch_reader;
pub mod batch_store;
pub mod digest;
pub mod network_listener;
pub mod proof_builder;
pub mod quorum_store;
pub mod table;
pub mod types;
pub mod validator_verifier;

pub use quorum_store::{QuorumStore, QuorumStoreCommand, QuorumStoreConfig};
pub use types::{LogicalTime, QuorumStoreError};
