//! Verified core of a staking-governance read API: epoch-keyed single-slot
//! caching, exchange-rate table assembly, and delegated-stake aggregation
//! with exact reward arithmetic. I/O against the storage reader and the RPC
//! surface live with the embedding boundary; this crate holds the logic and
//! its proofs.

pub mod apy;
pub mod builder;
pub mod cache;
pub mod epochs;
pub mod errors;
pub mod rates;
pub mod stakes;
