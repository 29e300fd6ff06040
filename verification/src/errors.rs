use vstd::prelude::*;

verus! {

/// Failures of the durable epoch cache.
#[derive(Clone, Copy, PartialEq, Eq, Structural, Debug)]
pub enum CacheError {
    /// The underlying store is unreachable or rejected the operation.
    StorageError,
    /// Stored bytes do not decode into the expected shape.
    SerializationError,
}

/// Failures of one monitoring tick.
#[derive(Clone, Copy, PartialEq, Eq, Structural, Debug)]
pub enum MonitorError {
    /// The underlying store is unreachable or rejected the operation.
    StorageError,
    /// Stored or fetched bytes do not decode into the expected shape.
    SerializationError,
    /// The node's RPC interface failed; raised by the surrounding process.
    RpcError,
    /// A historical epoch was expected to have a first block, and none was found.
    MissingEpochData,
    /// A lookback epoch unexpectedly reported that it has no rewards yet.
    HistoricalGap,
    /// The current epoch has rewards, but none of the voting kind.
    NoCurrentRewards,
    /// A malformed address was met where a parse is required.
    AddressParseError,
}

impl CacheError {
    /// The corresponding tick-level error.
    pub fn to_monitor_error(&self) -> (r: MonitorError)
        ensures
            r == self.spec_to_monitor_error(),
    {
        match self {
            CacheError::StorageError => MonitorError::StorageError,
            CacheError::SerializationError => MonitorError::SerializationError,
        }
    }

    pub open spec fn spec_to_monitor_error(self) -> MonitorError {
        match self {
            CacheError::StorageError => MonitorError::StorageError,
            CacheError::SerializationError => MonitorError::SerializationError,
        }
    }
}

} // verus!
