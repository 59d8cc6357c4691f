use vstd::prelude::*;

verus! {

/// The error taxonomy of the governance core.
///
/// Every failure is surfaced to the caller as one of these typed errors;
/// nothing is retried or swallowed inside the core.
#[derive(Debug, Clone, PartialEq, Eq)]
pub enum IndexerError {
    /// A requested epoch or staking pool is not known.
    InvalidArgument(String),
    /// Stored data was malformed, or data that must be present was absent.
    DataCorruption(String),
    /// An error propagated unchanged from the storage reader.
    Storage(String),
    /// A raw object did not decode into the expected staked-position shape.
    ObjectConversion(String),
}

impl IndexerError {
    /// A human-readable description of the failure.
    pub fn message(&self) -> (r: &String)
        ensures
            r == self.spec_message(),
    {
        match self {
            IndexerError::InvalidArgument(m) => m,
            IndexerError::DataCorruption(m) => m,
            IndexerError::Storage(m) => m,
            IndexerError::ObjectConversion(m) => m,
        }
    }

    /// The message carried by any variant.
    pub open spec fn spec_message(self) -> String {
        match self {
            IndexerError::InvalidArgument(m) => m,
            IndexerError::DataCorruption(m) => m,
            IndexerError::Storage(m) => m,
            IndexerError::ObjectConversion(m) => m,
        }
    }
}

} // verus!
