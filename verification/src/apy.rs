use vstd::prelude::*;
use crate::cache::EpochCache;
use crate::rates::{EpochId, ValidatorExchangeRates};

verus! {

/// One validator's annualized yield, as the opaque scalar the external APY
/// collaborator produced. The core never computes with it: the boundary
/// converts it to and from its numeric form.
pub type ApyValue = u64;

/// One validator's address with its yield.
#[derive(Clone, Copy, PartialEq, Eq, Structural, Debug)]
pub struct ValidatorApy {
    pub address: u64,
    pub apy: ApyValue,
}

/// The per-validator yields computed for one epoch.
#[derive(Clone, Debug, PartialEq, Eq)]
pub struct ValidatorApys {
    pub epoch: EpochId,
    pub apys: Vec<ValidatorApy>,
}

/// The single-slot, epoch-keyed cache of the current rate tables.
pub type ExchangeRateCache = EpochCache<Vec<ValidatorExchangeRates>>;

/// The single-slot, epoch-keyed cache of the per-validator yields.
pub type ApyCache = EpochCache<ValidatorApys>;

/// The yield recorded for an address: when an address appears more than once
/// the last entry wins, as in a map built by sequential insertion; an unknown
/// address has none, which is not an error.
pub open spec fn spec_apy_of(apys: Seq<ValidatorApy>, address: u64) -> Option<ApyValue>
    decreases apys.len(),
{
    if apys.len() == 0 {
        None
    } else if apys.last().address == address {
        Some(apys.last().apy)
    } else {
        spec_apy_of(apys.drop_last(), address)
    }
}

/// Looks up a validator's yield by its address.
pub fn validator_apy_of(apys: &ValidatorApys, address: u64) -> (r: Option<ApyValue>)
    ensures
        r == spec_apy_of(apys.apys@, address),
{
    let entries = &apys.apys;
    let mut i: usize = entries.len();
    proof {
        assert(entries@.take(entries@.len() as int) =~= entries@);
    }
    while i > 0
        invariant
            i <= entries@.len(),
            entries@ == apys.apys@,
            spec_apy_of(entries@, address) == spec_apy_of(entries@.take(i as int), address),
        decreases i,
    {
        proof {
            assert(entries@.take(i as int).last() == entries@[i - 1]);
            assert(entries@.take(i as int).drop_last() =~= entries@.take(i - 1));
        }
        if entries[i - 1].address == address {
            proof {
                assert(spec_apy_of(entries@.take(i as int), address) == Some(
                    entries@[i - 1].apy,
                ));
            }
            return Some(entries[i - 1].apy);
        }
        i = i - 1;
    }
    proof {
        assert(entries@.take(0) =~= Seq::<ValidatorApy>::empty());
    }
    None
}

} // verus!
