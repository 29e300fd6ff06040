//! Verified core of a staking-rewards metrics exporter for a
//! proof-of-stake blockchain validator network.
//!
//! The library holds the durable epoch cache, the reward fetching rules,
//! the per-voter yield bookkeeping and the per-tick orchestration as a
//! state machine.  The surrounding process performs the network and
//! metric-sink actions the machine asks for and feeds the answers back.
//!
//! Yield percentages are carried as the bit patterns of their
//! double-precision values (`u64`), so that the verified bookkeeping is
//! exact while the floating-point evaluation itself stays with the caller.

pub mod caching;
pub mod codec;
pub mod config;
pub mod errors;
pub mod kv;
pub mod monitor;
pub mod types;
