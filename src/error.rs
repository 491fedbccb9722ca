//! The error kinds of the pool.

use vstd::prelude::*;
use vstd::string::*;

verus! {

/// Every failure the pool reports, by kind.
#[derive(Debug, Clone)]
pub enum PoolError {
    /// The state store failed.
    Database(String),
    ShareValidation(String),
    StratumProtocol(String),
    Payout(String),
    Configuration(String),
    MinerNotFound(String),
    DuplicateShare,
    InvalidProof,
    InsufficientDifficulty,
    JobNotFound(String),
    Serialization(String),
    WebSocket(String),
    Other(String),
}

/// The text shown for an error.
pub open spec fn error_message(e: PoolError) -> Seq<char> {
    match e {
        PoolError::Database(s) => "Database error: "@ + s@,
        PoolError::ShareValidation(s) => "Share validation error: "@ + s@,
        PoolError::StratumProtocol(s) => "Stratum protocol error: "@ + s@,
        PoolError::Payout(s) => "Payout error: "@ + s@,
        PoolError::Configuration(s) => "Configuration error: "@ + s@,
        PoolError::MinerNotFound(s) => "Miner not found: "@ + s@,
        PoolError::DuplicateShare => "Duplicate share"@,
        PoolError::InvalidProof => "Invalid proof"@,
        PoolError::InsufficientDifficulty => "Insufficient difficulty"@,
        PoolError::JobNotFound(s) => "Job not found: "@ + s@,
        PoolError::Serialization(s) => "Serialization error: "@ + s@,
        PoolError::WebSocket(s) => "WebSocket error: "@ + s@,
        PoolError::Other(s) => "Other error: "@ + s@,
    }
}

fn prefixed(prefix: &str, s: &String) -> (r: String)
    ensures
        r@ == prefix@ + s@,
{
    String::from_str(prefix).concat(s.as_str())
}

impl PoolError {
    /// The error as text, as miners see it in an error response.
    pub fn message(&self) -> (r: String)
        ensures
            r@ == error_message(*self),
    {
        match self {
            PoolError::Database(s) => prefixed("Database error: ", s),
            PoolError::ShareValidation(s) => prefixed("Share validation error: ", s),
            PoolError::StratumProtocol(s) => prefixed("Stratum protocol error: ", s),
            PoolError::Payout(s) => prefixed("Payout error: ", s),
            PoolError::Configuration(s) => prefixed("Configuration error: ", s),
            PoolError::MinerNotFound(s) => prefixed("Miner not found: ", s),
            PoolError::DuplicateShare => String::from_str("Duplicate share"),
            PoolError::InvalidProof => String::from_str("Invalid proof"),
            PoolError::InsufficientDifficulty => String::from_str("Insufficient difficulty"),
            PoolError::JobNotFound(s) => prefixed("Job not found: ", s),
            PoolError::Serialization(s) => prefixed("Serialization error: ", s),
            PoolError::WebSocket(s) => prefixed("WebSocket error: ", s),
            PoolError::Other(s) => prefixed("Other error: ", s),
        }
    }
}

} // verus!
