//! Verified core of a mining pool coordinator: share validation and
//! accounting, the Stratum session state machine, and PPLNS reward allocation.

pub mod computation_proof;
pub mod coordinator;
pub mod error;
pub mod json;
pub mod mining;
pub mod outside;
pub mod payout;
pub mod pool_client;
pub mod protocol;
pub mod schema;
pub mod server;
pub mod store;
pub mod types;
pub mod validator;
