use vstd::prelude::*;

verus! {

/// The failures the relayer core distinguishes.
#[derive(Debug, Clone, Copy, PartialEq, Eq, Structural)]
pub enum NodeError {
    /// A Merkle tree with no leaves has no root.
    EmptyTree,
    /// A leaf index past the end of the tree.
    LeafOutOfRange,
    /// Leaves were added after the tree was last rebuilt.
    TreeNotRebuilt,
    /// No row or cursor matched.
    NotFound,
    /// A persistent store reported a failure.
    StorageFailure,
    /// The locally rebuilt root differs from the root the chain published.
    Divergence,
    /// Data from the remote chain had an unexpected shape or length.
    MalformedRemoteData,
    /// A slot range whose end precedes its start, or that starts before the first slot scanned.
    InvalidSlotRange,
    /// A configured account address that is not a valid base58 public key.
    InvalidAddress,
}

impl NodeError {
    /// A short human-readable description of the error.
    pub fn message(&self) -> (r: String) {
        match self {
            NodeError::EmptyTree => "merkle tree is empty".to_string(),
            NodeError::LeafOutOfRange => "leaf index out of range".to_string(),
            NodeError::TreeNotRebuilt => "merkle tree not rebuilt".to_string(),
            NodeError::NotFound => "not found".to_string(),
            NodeError::StorageFailure => "storage failure".to_string(),
            NodeError::Divergence => "local merkle tree is different to the tree on chain".to_string(),
            NodeError::MalformedRemoteData => "malformed data from the chain".to_string(),
            NodeError::InvalidSlotRange => "invalid slot range".to_string(),
            NodeError::InvalidAddress => "invalid account address".to_string(),
        }
    }
}

} // verus!
