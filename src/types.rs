//! Share submissions as miners send them, and the validator's verdict.

use vstd::prelude::*;

verus! {

/// One unit of work handed in by a miner for a job.
#[derive(Debug, Clone)]
pub struct ShareSubmission {
    pub job_id: String,
    pub miner_id: String,
    pub share_type: ShareType,
}

/// The two kinds of work a miner submits.
#[derive(Debug, Clone)]
pub enum ShareType {
    /// A low-difficulty share: evidence of partial witness evaluation.
    ComputationProof { nonce: u64, witness_commitment: [u8; 32], computation_steps: u64 },
    /// A full block proof.
    ValidBlock { nonce: u64, proof: Vec<u8> },
}

impl ShareType {
    pub open spec fn nonce_spec(&self) -> u64 {
        match self {
            ShareType::ComputationProof { nonce, .. } => *nonce,
            ShareType::ValidBlock { nonce, .. } => *nonce,
        }
    }

    /// The nonce the work was found at.
    pub fn nonce(&self) -> (r: u64)
        ensures
            r == self.nonce_spec(),
    {
        match self {
            ShareType::ComputationProof { nonce, .. } => *nonce,
            ShareType::ValidBlock { nonce, .. } => *nonce,
        }
    }
}

/// The outcome of validating one accepted share.
#[derive(Debug, Clone, Copy)]
pub struct ShareValidation {
    pub is_valid: bool,
    pub difficulty: u64,
    pub is_block: bool,
    /// Weight of the share in reward allocation; a product of a difficulty
    /// and a step count, so it is held in 128 bits.
    pub reward_units: u128,
}

} // verus!
