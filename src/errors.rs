//! Errors of the consensus core.

use vstd::prelude::*;
use vstd::string::StringExecFns;

verus! {

/// Consensus error kinds.
#[derive(Debug, Clone, PartialEq, Eq)]
pub enum ConsensusError {
    BlockNotFound,
    InvalidBlock,
    InvalidVote,
    InvalidSignature,
    NoQuorum,
    AlreadyVoted,
    NotValidator,
    Timeout,
    NotInitialized,
    AlreadyStarted,
    CryptoError(String),
    NetworkError(String),
    Other(String),
}

impl ConsensusError {
    /// Human-readable description of the error.
    pub fn message(&self) -> (r: String)
        ensures
            r@ == match self {
                ConsensusError::BlockNotFound => "Block not found"@,
                ConsensusError::InvalidBlock => "Invalid block"@,
                ConsensusError::InvalidVote => "Invalid vote"@,
                ConsensusError::InvalidSignature => "Invalid signature"@,
                ConsensusError::NoQuorum => "No quorum reached"@,
                ConsensusError::AlreadyVoted => "Already voted"@,
                ConsensusError::NotValidator => "Not a validator"@,
                ConsensusError::Timeout => "Operation timeout"@,
                ConsensusError::NotInitialized => "Engine not initialized"@,
                ConsensusError::AlreadyStarted => "Engine already started"@,
                ConsensusError::CryptoError(m) => "Crypto error: "@ + m@,
                ConsensusError::NetworkError(m) => "Network error: "@ + m@,
                ConsensusError::Other(m) => m@,
            },
    {
        match self {
            ConsensusError::BlockNotFound => "Block not found".to_owned(),
            ConsensusError::InvalidBlock => "Invalid block".to_owned(),
            ConsensusError::InvalidVote => "Invalid vote".to_owned(),
            ConsensusError::InvalidSignature => "Invalid signature".to_owned(),
            ConsensusError::NoQuorum => "No quorum reached".to_owned(),
            ConsensusError::AlreadyVoted => "Already voted".to_owned(),
            ConsensusError::NotValidator => "Not a validator".to_owned(),
            ConsensusError::Timeout => "Operation timeout".to_owned(),
            ConsensusError::NotInitialized => "Engine not initialized".to_owned(),
            ConsensusError::AlreadyStarted => "Engine already started".to_owned(),
            ConsensusError::CryptoError(m) => "Crypto error: ".to_owned().concat(m.as_str()),
            ConsensusError::NetworkError(m) => "Network error: ".to_owned().concat(m.as_str()),
            ConsensusError::Other(m) => m.clone(),
        }
    }
}

} // verus!
