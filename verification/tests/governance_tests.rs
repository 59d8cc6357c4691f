use governance_core::apy::{validator_apy_of, ValidatorApy, ValidatorApys};
use governance_core::builder::{
    active_rate_table_refs, assemble_rate_tables, collect_history, inactive_rate_table_ref,
    parse_inactive_pool_id, SuiSystemStateSummary, ValidatorSummary,
};
use governance_core::cache::EpochCache;
use governance_core::epochs::{epoch_info_or_missing, reference_gas_price_of, EpochInfo};
use governance_core::errors::IndexerError;
use governance_core::rates::{assemble_validator_rates, check_distinct_epochs, ExchangeRate, ValidatorExchangeRates};
use governance_core::stakes::{
    estimated_reward_amount, get_delegated_stakes, make_stake_record, saturating_prev_epoch,
    StakeStatus, StakedPosition,
};

fn rate(r: u64) -> ExchangeRate {
    ExchangeRate { rate: r }
}

fn table(address: u64, pool_id: u64, rates: Vec<(u64, ExchangeRate)>) -> ValidatorExchangeRates {
    ValidatorExchangeRates { address, pool_id, active: true, rates }
}

fn position(id: u64, pool_id: u64, principal: u64, activation_epoch: u64) -> StakedPosition {
    StakedPosition { id, pool_id, principal, activation_epoch }
}

// A 5% gain in the rate ratio between activation and now, on a principal of
// 1,000,000, yields a reward of 50,000.
#[test]
fn reward_five_percent_gain() {
    let t = table(7, 1, vec![(10, rate(100_000_000)), (5, rate(105_000_000))]);
    let p = position(100, 1, 1_000_000, 5);
    let rec = make_stake_record(10, &t, p);
    assert_eq!(rec.status, StakeStatus::Active { estimated_reward: 50_000 });
    assert_eq!(rec.principal, 1_000_000);
    assert_eq!(rec.active_epoch, 5);
    assert_eq!(rec.request_epoch, 4);
}

// Equal rates at activation and now yield a reward of zero, status Active.
#[test]
fn reward_equal_rates() {
    let t = table(7, 1, vec![(10, rate(100_000_000)), (5, rate(100_000_000))]);
    let p = position(100, 1, 1_000_000, 5);
    let rec = make_stake_record(10, &t, p);
    assert_eq!(rec.status, StakeStatus::Active { estimated_reward: 0 });
}

// A rate-ratio loss clamps the reward at zero rather than going negative.
#[test]
fn reward_loss_clamped_to_zero() {
    let t = table(7, 1, vec![(10, rate(105_000_000)), (5, rate(100_000_000))]);
    let p = position(100, 1, 1_000_000, 10);
    // Activation at the current epoch: activation rate 105, current rate 105.
    let rec = make_stake_record(10, &t, p);
    assert_eq!(rec.status, StakeStatus::Active { estimated_reward: 0 });
    // Direct arithmetic check: activation rate below current rate clamps.
    assert_eq!(estimated_reward_amount(100, 105, 1_000_000), 0);
}

// Current epoch 9, activation epoch 10: the position is Pending.
#[test]
fn pending_before_activation() {
    let t = table(7, 1, vec![(10, rate(105)), (5, rate(100))]);
    let p = position(100, 1, 1_000_000, 10);
    let rec = make_stake_record(9, &t, p);
    assert_eq!(rec.status, StakeStatus::Pending);
}

// An empty input position list aggregates to an empty output.
#[test]
fn empty_positions_empty_output() {
    let tables = vec![table(7, 1, vec![(10, rate(105))])];
    let out = get_delegated_stakes(10, &vec![], &tables).unwrap();
    assert!(out.is_empty());
}

// A pool with an empty rate history yields reward zero for active positions.
#[test]
fn empty_history_zero_reward() {
    let tables = vec![table(7, 1, vec![])];
    let positions = vec![position(100, 1, 1_000_000, 5)];
    let out = get_delegated_stakes(10, &positions, &tables).unwrap();
    assert_eq!(out.len(), 1);
    assert_eq!(out[0].stakes.len(), 1);
    assert_eq!(out[0].stakes[0].status, StakeStatus::Active { estimated_reward: 0 });
}

// A pool absent from the rate tables fails the whole call with
// InvalidArgument; the group is never silently dropped.
#[test]
fn missing_pool_is_invalid_argument() {
    let tables = vec![table(7, 1, vec![(10, rate(105))])];
    let positions = vec![position(100, 1, 10, 5), position(101, 99, 10, 5)];
    let err = get_delegated_stakes(10, &positions, &tables).unwrap_err();
    assert!(matches!(err, IndexerError::InvalidArgument(_)));
}

// Positions are grouped by pool; each group carries its validator's address
// and the records of exactly its positions, in input order.
#[test]
fn grouping_by_pool() {
    let tables = vec![
        table(7, 1, vec![(10, rate(100))]),
        table(8, 2, vec![(10, rate(100))]),
    ];
    let positions = vec![
        position(100, 1, 10, 5),
        position(101, 2, 20, 5),
        position(102, 1, 30, 5),
    ];
    let out = get_delegated_stakes(10, &positions, &tables).unwrap();
    assert_eq!(out.len(), 2);
    assert_eq!(out[0].staking_pool, 1);
    assert_eq!(out[0].validator_address, 7);
    assert_eq!(out[0].stakes.len(), 2);
    assert_eq!(out[0].stakes[0].id, 100);
    assert_eq!(out[0].stakes[1].id, 102);
    assert_eq!(out[1].staking_pool, 2);
    assert_eq!(out[1].validator_address, 8);
    assert_eq!(out[1].stakes.len(), 1);
    assert_eq!(out[1].stakes[0].id, 101);
}

// An activation epoch missing from the history defaults to the zero rate,
// and a zero activation rate clamps the reward to zero.
#[test]
fn missing_activation_epoch_defaults_to_zero_rate() {
    let t = table(7, 1, vec![(10, rate(105)), (5, rate(100))]);
    let p = position(100, 1, 1_000_000, 7);
    let rec = make_stake_record(10, &t, p);
    assert_eq!(rec.status, StakeStatus::Active { estimated_reward: 0 });
}

// Rounding is to the nearest integer, halves rounded up.
#[test]
fn reward_rounds_to_nearest() {
    // 5 * (11 - 10) / 10 = 0.5, which rounds to 1.
    assert_eq!(estimated_reward_amount(11, 10, 5), 1);
    // 4 * (11 - 10) / 10 = 0.4, which rounds to 0.
    assert_eq!(estimated_reward_amount(11, 10, 4), 0);
    // 6 * (11 - 10) / 10 = 0.6, which rounds to 1.
    assert_eq!(estimated_reward_amount(11, 10, 6), 1);
}

// A zero current rate under a positive activation rate saturates.
#[test]
fn reward_zero_current_rate_saturates() {
    assert_eq!(estimated_reward_amount(1, 0, 10), u64::MAX);
    assert_eq!(estimated_reward_amount(0, 0, 10), 0);
}

// The request epoch is the epoch before activation, saturating at zero.
#[test]
fn request_epoch_saturates() {
    assert_eq!(saturating_prev_epoch(0), 0);
    assert_eq!(saturating_prev_epoch(1), 0);
    assert_eq!(saturating_prev_epoch(10), 9);
    let t = table(7, 1, vec![]);
    let rec = make_stake_record(10, &t, position(100, 1, 10, 0));
    assert_eq!(rec.request_epoch, 0);
}

// Histories assemble sorted strictly descending by epoch.
#[test]
fn assemble_sorts_descending() {
    let entries = vec![(1, rate(10)), (3, rate(30)), (2, rate(20))];
    let t = assemble_validator_rates(7, 1, true, &entries);
    assert_eq!(t.address, 7);
    assert_eq!(t.pool_id, 1);
    assert!(t.active);
    assert_eq!(t.rates, vec![(3, rate(30)), (2, rate(20)), (1, rate(10))]);
}

// A lookup within the epoch that stored a value is a hit.
#[test]
fn cache_same_epoch_hits() {
    let mut cache: EpochCache<u64> = EpochCache::new();
    assert_eq!(cache.lookup(3), None);
    cache.store(3, 42);
    assert_eq!(cache.lookup(3), Some(&42));
    assert_eq!(cache.lookup(3), Some(&42));
}

// After the observed epoch changes, the next lookup is a miss, and storing
// for the new epoch evicts the old entry.
#[test]
fn cache_epoch_change_misses() {
    let mut cache: EpochCache<u64> = EpochCache::new();
    cache.store(3, 42);
    assert_eq!(cache.lookup(4), None);
    cache.store(4, 43);
    assert_eq!(cache.lookup(4), Some(&43));
    assert_eq!(cache.lookup(3), None);
}

// Within one epoch the builder runs exactly once, counted by invocations of
// the miss path; an epoch change forces exactly one more run.
#[test]
fn single_computation_per_epoch() {
    let mut cache: EpochCache<u64> = EpochCache::new();
    let mut builds: u32 = 0;
    for _ in 0..3 {
        let v = match cache.lookup(7) {
            Some(v) => *v,
            None => {
                builds += 1;
                cache.store(7, 42);
                42
            }
        };
        assert_eq!(v, 42);
    }
    assert_eq!(builds, 1);
    let v = match cache.lookup(8) {
        Some(v) => *v,
        None => {
            builds += 1;
            cache.store(8, 99);
            99
        }
    };
    assert_eq!(v, 99);
    assert_eq!(builds, 2);
}

// From unsorted fetched histories to grouped stakes: the whole pipeline.
#[test]
fn end_to_end_assemble_and_aggregate() {
    let summary = SuiSystemStateSummary {
        epoch: 10,
        stake_subsidy_start_epoch: 2,
        active_validators: vec![ValidatorSummary {
            sui_address: 7,
            staking_pool_id: 1,
            exchange_rates_id: 51,
            exchange_rates_size: 2,
        }],
        inactive_pools_id: 60,
        inactive_pools_size: 0,
    };
    let refs = active_rate_table_refs(&summary);
    let histories = vec![vec![(5, rate(105_000_000)), (10, rate(100_000_000))]];
    let tables = assemble_rate_tables(&refs, &histories);
    let positions = vec![position(100, 1, 1_000_000, 5)];
    let out = get_delegated_stakes(summary.epoch, &positions, &tables).unwrap();
    assert_eq!(out.len(), 1);
    assert_eq!(out[0].validator_address, 7);
    assert_eq!(out[0].stakes[0].status, StakeStatus::Active { estimated_reward: 50_000 });
}

// An eight-byte entry name decodes to its little-endian value through the
// real BCS decoder; any other length is data corruption.
#[test]
fn parse_pool_id_little_endian() {
    let bytes = vec![42, 0, 0, 0, 0, 0, 0, 0];
    assert_eq!(parse_inactive_pool_id(&bytes).unwrap(), 42);
    let bytes = vec![0x01, 0x02, 0, 0, 0, 0, 0, 0];
    assert_eq!(parse_inactive_pool_id(&bytes).unwrap(), 0x0201);
    let encoded = bcs::to_bytes(&7_000_000_001u64).unwrap();
    assert_eq!(parse_inactive_pool_id(&encoded).unwrap(), 7_000_000_001);
    let err = parse_inactive_pool_id(&vec![1, 2, 3]).unwrap_err();
    assert!(matches!(err, IndexerError::DataCorruption(_)));
    let err = parse_inactive_pool_id(&vec![0; 9]).unwrap_err();
    assert!(matches!(err, IndexerError::DataCorruption(_)));
}

// The builder records one pointer per active validator, and marks inactive
// validators as such.
#[test]
fn rate_table_refs() {
    let summary = SuiSystemStateSummary {
        epoch: 10,
        stake_subsidy_start_epoch: 2,
        active_validators: vec![
            ValidatorSummary {
                sui_address: 7,
                staking_pool_id: 1,
                exchange_rates_id: 51,
                exchange_rates_size: 3,
            },
            ValidatorSummary {
                sui_address: 8,
                staking_pool_id: 2,
                exchange_rates_id: 52,
                exchange_rates_size: 4,
            },
        ],
        inactive_pools_id: 60,
        inactive_pools_size: 1,
    };
    let refs = active_rate_table_refs(&summary);
    assert_eq!(refs.len(), 2);
    assert_eq!(refs[0].address, 7);
    assert_eq!(refs[0].pool_id, 1);
    assert_eq!(refs[0].rates_id, 51);
    assert_eq!(refs[0].rates_size, 3);
    assert!(refs[0].active);
    assert!(refs[1].active);
    let inactive = inactive_rate_table_ref(&ValidatorSummary {
        sui_address: 9,
        staking_pool_id: 3,
        exchange_rates_id: 53,
        exchange_rates_size: 5,
    });
    assert_eq!(inactive.address, 9);
    assert!(!inactive.active);
}

// Assembling all tables keeps each pointer's identity and sorts each history.
#[test]
fn assemble_all_tables() {
    let summary = SuiSystemStateSummary {
        epoch: 10,
        stake_subsidy_start_epoch: 2,
        active_validators: vec![ValidatorSummary {
            sui_address: 7,
            staking_pool_id: 1,
            exchange_rates_id: 51,
            exchange_rates_size: 2,
        }],
        inactive_pools_id: 60,
        inactive_pools_size: 0,
    };
    let refs = active_rate_table_refs(&summary);
    let histories = vec![vec![(5, rate(100)), (10, rate(105))]];
    let tables = assemble_rate_tables(&refs, &histories);
    assert_eq!(tables.len(), 1);
    assert_eq!(tables[0].pool_id, 1);
    assert_eq!(tables[0].rates, vec![(10, rate(105)), (5, rate(100))]);
}

// A history with any malformed entry fails whole, with data corruption.
#[test]
fn collect_history_all_or_nothing() {
    let good = vec![Some((5, rate(100))), Some((10, rate(105)))];
    assert_eq!(collect_history(&good).unwrap(), vec![(5, rate(100)), (10, rate(105))]);
    let bad = vec![Some((5, rate(100))), None, Some((10, rate(105)))];
    let err = collect_history(&bad).unwrap_err();
    assert!(matches!(err, IndexerError::DataCorruption(_)));
    assert_eq!(collect_history(&vec![]).unwrap(), vec![]);
}

// Duplicate epochs in one history are detected; distinct ones pass.
#[test]
fn distinct_epoch_check() {
    assert!(check_distinct_epochs(&vec![(5, rate(100)), (10, rate(105))]));
    assert!(check_distinct_epochs(&vec![]));
    assert!(!check_distinct_epochs(&vec![(5, rate(100)), (10, rate(105)), (5, rate(90))]));
}

// APY lookups find a recorded address, miss an unknown one without failing,
// and let the last entry for an address win.
#[test]
fn apy_lookup() {
    let apys = ValidatorApys {
        epoch: 10,
        apys: vec![
            ValidatorApy { address: 7, apy: 500 },
            ValidatorApy { address: 8, apy: 600 },
            ValidatorApy { address: 7, apy: 700 },
        ],
    };
    assert_eq!(validator_apy_of(&apys, 8), Some(600));
    assert_eq!(validator_apy_of(&apys, 7), Some(700));
    assert_eq!(validator_apy_of(&apys, 9), None);
}

// A missing epoch is the caller's mistake; a missing reference gas price on
// a found epoch is data corruption.
#[test]
fn epoch_decisions() {
    let info = EpochInfo { epoch: 10, reference_gas_price: Some(1000) };
    assert_eq!(epoch_info_or_missing(Some(info)).unwrap(), info);
    let err = epoch_info_or_missing(None).unwrap_err();
    assert!(matches!(err, IndexerError::InvalidArgument(_)));
    assert_eq!(reference_gas_price_of(&info).unwrap(), 1000);
    let bare = EpochInfo { epoch: 10, reference_gas_price: None };
    let err = reference_gas_price_of(&bare).unwrap_err();
    assert!(matches!(err, IndexerError::DataCorruption(_)));
}

// The error message accompanies every variant.
#[test]
fn error_messages() {
    let err = IndexerError::Storage("reader went away".to_string());
    assert_eq!(err.message().as_str(), "reader went away");
    let err = IndexerError::ObjectConversion("not a staked position".to_string());
    assert_eq!(err.message().as_str(), "not a staked position");
}
