use vstd::prelude::*;
use crate::errors::IndexerError;
use crate::rates::EpochId;

verus! {

/// What the core reads of one epoch's descriptor.
#[derive(Clone, Copy, PartialEq, Eq, Structural, Debug)]
pub struct EpochInfo {
    pub epoch: EpochId,
    pub reference_gas_price: Option<u64>,
}

/// The missing-epoch decision: a looked-up epoch that the storage reader did
/// not find is the caller's mistake, an invalid argument.
pub fn epoch_info_or_missing(info: Option<EpochInfo>) -> (r: Result<EpochInfo, IndexerError>)
    ensures
        r is Ok <==> info is Some,
        r matches Ok(v) ==> info == Some(v),
        r matches Err(e) ==> e is InvalidArgument,
{
    match info {
        Some(v) => Ok(v),
        None => Err(IndexerError::InvalidArgument("Missing epoch".to_string())),
    }
}

/// The reference gas price of an epoch descriptor; its absence from the
/// latest epoch is data corruption, not a caller error.
pub fn reference_gas_price_of(info: &EpochInfo) -> (r: Result<u64, IndexerError>)
    ensures
        r is Ok <==> info.reference_gas_price is Some,
        r matches Ok(v) ==> info.reference_gas_price == Some(v),
        r matches Err(e) ==> e is DataCorruption,
{
    match info.reference_gas_price {
        Some(p) => Ok(p),
        None => Err(
            IndexerError::DataCorruption("missing latest reference gas price".to_string()),
        ),
    }
}

} // verus!
