use vstd::prelude::*;
use crate::errors::IndexerError;
use crate::rates::{
    distinct_epochs, assemble_validator_rates, EpochId, ExchangeRate, ValidatorExchangeRates,
};

verus! {

/// One validator as reported by the system-state snapshot: its address, its
/// staking pool, and where its exchange-rate table lives.
#[derive(Clone, Copy, PartialEq, Eq, Structural, Debug)]
pub struct ValidatorSummary {
    pub sui_address: u64,
    pub staking_pool_id: u64,
    pub exchange_rates_id: u64,
    pub exchange_rates_size: u64,
}

/// The snapshot of global system state one request observes.
#[derive(Clone, Debug, PartialEq, Eq)]
pub struct SuiSystemStateSummary {
    pub epoch: EpochId,
    pub stake_subsidy_start_epoch: EpochId,
    pub active_validators: Vec<ValidatorSummary>,
    pub inactive_pools_id: u64,
    pub inactive_pools_size: u64,
}

/// A pointer to one validator's rate table: everything the builder needs
/// before fetching the table's entries.
#[derive(Clone, Copy, PartialEq, Eq, Structural, Debug)]
pub struct RateTableRef {
    pub address: u64,
    pub pool_id: u64,
    pub rates_id: u64,
    pub rates_size: u64,
    pub active: bool,
}

/// The rate-table pointer of one validator, marked active or inactive.
pub open spec fn spec_table_ref(v: ValidatorSummary, active: bool) -> RateTableRef {
    RateTableRef {
        address: v.sui_address,
        pool_id: v.staking_pool_id,
        rates_id: v.exchange_rates_id,
        rates_size: v.exchange_rates_size,
        active: active,
    }
}

/// Records one rate-table pointer per active validator of the snapshot.
#[verifier::loop_isolation(false)]
pub fn active_rate_table_refs(summary: &SuiSystemStateSummary) -> (r: Vec<RateTableRef>)
    ensures
        r@.len() == summary.active_validators@.len(),
        forall|i: int|
            0 <= i < r@.len() ==> r@[i] == spec_table_ref(
                #[trigger] summary.active_validators@[i],
                true,
            ),
{
    let mut refs: Vec<RateTableRef> = Vec::new();
    let mut i: usize = 0;
    while i < summary.active_validators.len()
        invariant
            i <= summary.active_validators@.len(),
            refs@.len() == i,
            forall|k: int|
                0 <= k < i ==> refs@[k] == spec_table_ref(
                    #[trigger] summary.active_validators@[k],
                    true,
                ),
        decreases summary.active_validators@.len() - i,
    {
        let v = summary.active_validators[i];
        refs.push(
            RateTableRef {
                address: v.sui_address,
                pool_id: v.staking_pool_id,
                rates_id: v.exchange_rates_id,
                rates_size: v.exchange_rates_size,
                active: true,
            },
        );
        i = i + 1;
    }
    refs
}

/// The rate-table pointer of one inactive validator resolved from the
/// inactive-pools table.
pub fn inactive_rate_table_ref(v: &ValidatorSummary) -> (r: RateTableRef)
    ensures
        r == spec_table_ref(*v, false),
{
    RateTableRef {
        address: v.sui_address,
        pool_id: v.staking_pool_id,
        rates_id: v.exchange_rates_id,
        rates_size: v.exchange_rates_size,
        active: false,
    }
}

/// The unsigned integer borne by eight bytes in little-endian order.
pub open spec fn le_u64(b: Seq<u8>) -> u64
    recommends
        b.len() == 8,
{
    (b[0] + b[1] * 0x100 + b[2] * 0x1_0000 + b[3] * 0x100_0000 + b[4] * 0x1_0000_0000 + b[5]
        * 0x100_0000_0000 + b[6] * 0x1_0000_0000_0000 + b[7] * 0x100_0000_0000_0000) as u64
}

/// Relies on bcs::from_bytes::<u64>: BCS encodes a u64 as exactly eight
/// little-endian bytes, and decoding consumes the whole input, so it succeeds
/// exactly on an eight-byte input and returns the little-endian value.
#[verifier::external_body]
fn decode_u64_bcs(bytes: &Vec<u8>) -> (r: Option<u64>)
    ensures
        r is Some <==> bytes@.len() == 8,
        r matches Some(v) ==> v == le_u64(bytes@),
{
    bcs::from_bytes::<u64>(bytes.as_slice()).ok()
}

/// Decodes the pool id borne by one entry of the inactive-pools table.
///
/// A malformed entry name is data corruption, never a silent skip.
pub fn parse_inactive_pool_id(bytes: &Vec<u8>) -> (r: Result<u64, IndexerError>)
    ensures
        r is Ok <==> bytes@.len() == 8,
        r matches Ok(v) ==> v == le_u64(bytes@),
        r matches Err(e) ==> e is DataCorruption,
{
    match decode_u64_bcs(bytes) {
        Some(v) => Ok(v),
        None => Err(
            IndexerError::DataCorruption("inactive-pool dynamic field malformed".to_string()),
        ),
    }
}

/// Collects one table's decoded history entries. Any malformed entry fails
/// the whole history with data corruption: there is no partial result.
#[verifier::loop_isolation(false)]
pub fn collect_history(entries: &Vec<Option<(EpochId, ExchangeRate)>>) -> (r: Result<
    Vec<(EpochId, ExchangeRate)>,
    IndexerError,
>)
    ensures
        r is Ok <==> (forall|i: int| 0 <= i < entries@.len() ==> (#[trigger] entries@[i]) is Some),
        r matches Ok(v) ==> v@ == entries@.map_values(
            |e: Option<(EpochId, ExchangeRate)>| e->Some_0,
        ),
        r matches Err(e) ==> e is DataCorruption,
{
    let mut out: Vec<(EpochId, ExchangeRate)> = Vec::new();
    let mut i: usize = 0;
    while i < entries.len()
        invariant
            i <= entries@.len(),
            out@ == entries@.take(i as int).map_values(
                |e: Option<(EpochId, ExchangeRate)>| e->Some_0,
            ),
            forall|k: int| 0 <= k < i ==> (#[trigger] entries@[k]) is Some,
        decreases entries@.len() - i,
    {
        match entries[i] {
            Some(pair) => {
                out.push(pair);
                proof {
                    assert(out@ =~= entries@.take(i + 1).map_values(
                        |e: Option<(EpochId, ExchangeRate)>| e->Some_0,
                    ));
                }
            },
            None => {
                return Err(IndexerError::DataCorruption("dynamic field malformed".to_string()));
            },
        }
        i = i + 1;
    }
    proof {
        assert(entries@.take(entries@.len() as int) =~= entries@);
    }
    Ok(out)
}

/// Assembles the full set of rate tables: for each rate-table pointer, its
/// fetched and decoded history entries are sorted descending by epoch and
/// packaged under the pointer's address, pool and activity flag.
///
/// Every assembled history is well formed: sorted strictly descending by
/// epoch, for every validator, always.
#[verifier::loop_isolation(false)]
pub fn assemble_rate_tables(
    refs: &Vec<RateTableRef>,
    histories: &Vec<Vec<(EpochId, ExchangeRate)>>,
) -> (r: Vec<ValidatorExchangeRates>)
    requires
        refs@.len() == histories@.len(),
        forall|i: int| 0 <= i < histories@.len() ==> distinct_epochs(#[trigger] histories@[i]@),
    ensures
        r@.len() == refs@.len(),
        forall|i: int|
            0 <= i < r@.len() ==> {
                &&& (#[trigger] r@[i]).address == refs@[i].address
                &&& r@[i].pool_id == refs@[i].pool_id
                &&& r@[i].active == refs@[i].active
                &&& r@[i].well_formed()
                &&& r@[i].rates@.to_multiset() == histories@[i]@.to_multiset()
            },
{
    let mut tables: Vec<ValidatorExchangeRates> = Vec::new();
    let mut i: usize = 0;
    while i < refs.len()
        invariant
            i <= refs@.len(),
            tables@.len() == i,
            forall|k: int|
                0 <= k < i ==> {
                    &&& (#[trigger] tables@[k]).address == refs@[k].address
                    &&& tables@[k].pool_id == refs@[k].pool_id
                    &&& tables@[k].active == refs@[k].active
                    &&& tables@[k].well_formed()
                    &&& tables@[k].rates@.to_multiset() == histories@[k]@.to_multiset()
                },
        decreases refs@.len() - i,
    {
        let rf = refs[i];
        let t = assemble_validator_rates(rf.address, rf.pool_id, rf.active, &histories[i]);
        tables.push(t);
        i = i + 1;
    }
    tables
}

} // verus!
