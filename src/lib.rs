//! Block-header synchronisation: the wire codec for header requests and
//! responses, the per-peer request planner, the chain-continuity validator
//! for received headers, and the store of accepted header batches.

pub mod codec;
pub mod validator;
pub mod store;
pub mod planner;
