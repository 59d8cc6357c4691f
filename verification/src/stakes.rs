use vstd::prelude::*;
use crate::errors::IndexerError;
use crate::rates::{EpochId, ExchangeRate, ValidatorExchangeRates};

verus! {

/// A staked position as decoded from a raw staked-position object: the
/// transient input of one aggregation call.
#[derive(Clone, Copy, PartialEq, Eq, Structural, Debug)]
pub struct StakedPosition {
    pub id: u64,
    pub pool_id: u64,
    pub principal: u64,
    pub activation_epoch: EpochId,
}

/// The reward status of one stake record.
#[derive(Clone, Copy, PartialEq, Eq, Structural, Debug)]
pub enum StakeStatus {
    /// The position activates only at a future epoch.
    Pending,
    /// The position is active at the observed epoch.
    Active { estimated_reward: u64 },
}

/// One delegation record derived from a staked position.
#[derive(Clone, Copy, PartialEq, Eq, Structural, Debug)]
pub struct StakeRecord {
    pub id: u64,
    pub request_epoch: EpochId,
    pub active_epoch: EpochId,
    pub principal: u64,
    pub status: StakeStatus,
}

/// All stake records of one staking pool, with the pool's validator.
#[derive(Clone, Debug, PartialEq, Eq)]
pub struct DelegatedStake {
    pub validator_address: u64,
    pub staking_pool: u64,
    pub stakes: Vec<StakeRecord>,
}

/// Subtracts one from an epoch number, stopping at zero: the request epoch
/// of a position is the epoch before its activation.
pub fn saturating_prev_epoch(epoch: EpochId) -> (r: EpochId)
    ensures
        r == if epoch == 0 { 0u64 } else { (epoch - 1) as u64 },
{
    if epoch == 0 { 0 } else { epoch - 1 }
}

/// `num / den` rounded to the nearest integer, halves rounded up.
pub open spec fn round_div_nearest(num: int, den: int) -> int
    recommends
        den > 0,
        num >= 0,
{
    if 2 * (num % den) >= den {
        num / den + 1
    } else {
        num / den
    }
}

/// The estimated reward of an active position:
/// `max(0, round((activation_rate / current_rate - 1) * principal))`,
/// computed exactly on the fixed-point rate scalars (the scale cancels), and
/// saturating at `u64::MAX` where the exact value does not fit (a zero
/// current rate under a positive activation rate behaves as an unbounded
/// ratio and saturates too).
pub open spec fn spec_reward_amount(activation_rate: u64, current_rate: u64, principal: u64) -> u64 {
    if activation_rate <= current_rate {
        0u64
    } else if current_rate == 0 {
        u64::MAX
    } else {
        let exact = round_div_nearest(
            principal * (activation_rate - current_rate),
            current_rate as int,
        );
        if exact > u64::MAX {
            u64::MAX
        } else {
            exact as u64
        }
    }
}

/// Computes the estimated reward exactly as `spec_reward_amount` states it.
pub fn estimated_reward_amount(activation_rate: u64, current_rate: u64, principal: u64) -> (r:
    u64)
    ensures
        r == spec_reward_amount(activation_rate, current_rate, principal),
{
    if activation_rate <= current_rate {
        0
    } else if current_rate == 0 {
        u64::MAX
    } else {
        let diff: u64 = activation_rate - current_rate;
        proof {
            assert((principal as int) * (diff as int) <= (u64::MAX as int) * (u64::MAX as int))
                by (nonlinear_arith)
                requires
                    principal <= u64::MAX,
                    diff <= u64::MAX,
            ;
        }
        let num: u128 = (principal as u128) * (diff as u128);
        let den: u128 = current_rate as u128;
        let q: u128 = num / den;
        let rem: u128 = num % den;
        proof {
            assert((num as int) / (den as int) <= num as int) by (nonlinear_arith)
                requires
                    den >= 1,
                    num >= 0,
            ;
        }
        let exact: u128 = if 2 * rem >= den {
            q + 1
        } else {
            q
        };
        if exact > u64::MAX as u128 {
            u64::MAX
        } else {
            exact as u64
        }
    }
}

/// The rate recorded at exactly `epoch`: the first entry with that epoch, or
/// the zero-valued rate when the history has none.
pub open spec fn spec_find_rate(rates: Seq<(EpochId, ExchangeRate)>, epoch: EpochId) -> ExchangeRate
    decreases rates.len(),
{
    if rates.len() == 0 {
        ExchangeRate { rate: 0 }
    } else if rates.first().0 == epoch {
        rates.first().1
    } else {
        spec_find_rate(rates.drop_first(), epoch)
    }
}

/// Finds the rate at exactly `epoch`, defaulting to the zero-valued rate.
pub fn find_rate_at(rates: &Vec<(EpochId, ExchangeRate)>, epoch: EpochId) -> (r: ExchangeRate)
    ensures
        r == spec_find_rate(rates@, epoch),
{
    let mut i: usize = 0;
    proof {
        assert(rates@.skip(0) =~= rates@);
    }
    while i < rates.len()
        invariant
            i <= rates@.len(),
            spec_find_rate(rates@, epoch) == spec_find_rate(rates@.skip(i as int), epoch),
        decreases rates@.len() - i,
    {
        proof {
            assert(rates@.skip(i as int).first() == rates@[i as int]);
            assert(rates@.skip(i as int).drop_first() =~= rates@.skip(i + 1));
        }
        if rates[i].0 == epoch {
            return rates[i].1;
        }
        i = i + 1;
    }
    proof {
        assert(rates@.skip(rates@.len() as int) =~= Seq::<(EpochId, ExchangeRate)>::empty());
    }
    ExchangeRate::default()
}

/// The current rate of a history: the entry at the most recent epoch, which
/// in a well-formed history is the first entry; absent when the history is
/// empty.
pub open spec fn spec_current_rate(rates: Seq<(EpochId, ExchangeRate)>) -> Option<ExchangeRate> {
    if rates.len() == 0 {
        None
    } else {
        Some(rates.first().1)
    }
}

/// The estimated reward of a position against one pool's rate history: zero
/// when the pool has no recorded current rate.
pub open spec fn spec_reward(rates: Seq<(EpochId, ExchangeRate)>, p: StakedPosition) -> u64 {
    match spec_current_rate(rates) {
        None => 0u64,
        Some(cur) => spec_reward_amount(
            spec_find_rate(rates, p.activation_epoch).rate,
            cur.rate,
            p.principal,
        ),
    }
}

/// The status of a position at the observed epoch: Pending until the
/// activation epoch is reached, Active with its estimated reward afterwards.
pub open spec fn spec_status(epoch: EpochId, rates: Seq<(EpochId, ExchangeRate)>, p: StakedPosition) -> StakeStatus {
    if epoch >= p.activation_epoch {
        StakeStatus::Active { estimated_reward: spec_reward(rates, p) }
    } else {
        StakeStatus::Pending
    }
}

/// The stake record derived from one position against one pool's history.
pub open spec fn spec_record(epoch: EpochId, rates: Seq<(EpochId, ExchangeRate)>, p: StakedPosition) -> StakeRecord {
    StakeRecord {
        id: p.id,
        request_epoch: if p.activation_epoch == 0 {
            0u64
        } else {
            (p.activation_epoch - 1) as u64
        },
        active_epoch: p.activation_epoch,
        principal: p.principal,
        status: spec_status(epoch, rates, p),
    }
}

/// Derives the stake record of one position from its pool's rate history.
pub fn make_stake_record(epoch: EpochId, table: &ValidatorExchangeRates, p: StakedPosition) -> (r:
    StakeRecord)
    ensures
        r == spec_record(epoch, table.rates@, p),
{
    let status = if epoch >= p.activation_epoch {
        let estimated_reward = if table.rates.len() > 0 {
            let current = table.rates[0].1;
            let activation = find_rate_at(&table.rates, p.activation_epoch);
            estimated_reward_amount(activation.rate, current.rate, p.principal)
        } else {
            0
        };
        StakeStatus::Active { estimated_reward }
    } else {
        StakeStatus::Pending
    };
    let request_epoch = saturating_prev_epoch(p.activation_epoch);
    StakeRecord { id: p.id, request_epoch, active_epoch: p.activation_epoch, principal: p.principal, status }
}

/// The distinct pool ids of the input positions, in first-occurrence order:
/// the deterministic grouping the aggregator emits.
pub open spec fn pool_ids_in_order(ps: Seq<StakedPosition>) -> Seq<u64>
    decreases ps.len(),
{
    if ps.len() == 0 {
        Seq::empty()
    } else {
        let rest = pool_ids_in_order(ps.drop_last());
        if rest.contains(ps.last().pool_id) {
            rest
        } else {
            rest.push(ps.last().pool_id)
        }
    }
}

/// The positions of one pool, in input order.
pub open spec fn positions_of_pool(ps: Seq<StakedPosition>, pool: u64) -> Seq<StakedPosition> {
    ps.filter(|p: StakedPosition| p.pool_id == pool)
}

/// The rate table indexed by pool id; when several tables carry the same
/// pool id the last one wins, as in an index built by sequential insertion.
pub open spec fn spec_find_table(tables: Seq<ValidatorExchangeRates>, pool: u64) -> Option<
    ValidatorExchangeRates,
>
    decreases tables.len(),
{
    if tables.len() == 0 {
        None
    } else if tables.last().pool_id == pool {
        Some(tables.last())
    } else {
        spec_find_table(tables.drop_last(), pool)
    }
}

/// Every input position's pool has a rate table.
pub open spec fn all_pools_present(
    ps: Seq<StakedPosition>,
    tables: Seq<ValidatorExchangeRates>,
) -> bool {
    forall|i: int|
        0 <= i < ps.len() ==> spec_find_table(tables, (#[trigger] ps[i]).pool_id) is Some
}

/// The stake records of one pool's positions, in input order.
pub open spec fn records_of(
    epoch: EpochId,
    rates: Seq<(EpochId, ExchangeRate)>,
    ps: Seq<StakedPosition>,
    pool: u64,
) -> Seq<StakeRecord> {
    positions_of_pool(ps, pool).map_values(|p: StakedPosition| spec_record(epoch, rates, p))
}

/// What the aggregator emits for one pool: the pool's validator address and
/// the records of exactly its positions.
pub open spec fn delegated_stake_matches(
    d: DelegatedStake,
    epoch: EpochId,
    ps: Seq<StakedPosition>,
    tables: Seq<ValidatorExchangeRates>,
    pool: u64,
) -> bool {
    &&& spec_find_table(tables, pool) matches Some(t)
    &&& d.validator_address == spec_find_table(tables, pool)->Some_0.address
    &&& d.staking_pool == pool
    &&& d.stakes@ == records_of(epoch, spec_find_table(tables, pool)->Some_0.rates@, ps, pool)
}

/// Appending one position extends its own pool's records by one and leaves
/// every other pool's records unchanged.
proof fn lemma_records_of_push(
    epoch: EpochId,
    rates: Seq<(EpochId, ExchangeRate)>,
    ps: Seq<StakedPosition>,
    p: StakedPosition,
    pool: u64,
)
    ensures
        records_of(epoch, rates, ps.push(p), pool) == if p.pool_id == pool {
            records_of(epoch, rates, ps, pool).push(spec_record(epoch, rates, p))
        } else {
            records_of(epoch, rates, ps, pool)
        },
{
    broadcast use Seq::lemma_filter_push;

    assert(positions_of_pool(ps.push(p), pool) == if p.pool_id == pool {
        positions_of_pool(ps, pool).push(p)
    } else {
        positions_of_pool(ps, pool)
    });
    if p.pool_id == pool {
        assert(records_of(epoch, rates, ps.push(p), pool) =~= records_of(epoch, rates, ps, pool)
            .push(spec_record(epoch, rates, p)));
    }
}

/// Every position's pool id appears among the grouping keys, and every
/// grouping key is some position's pool id.
proof fn lemma_pool_ids_in_order_complete(ps: Seq<StakedPosition>)
    ensures
        forall|i: int|
            0 <= i < ps.len() ==> pool_ids_in_order(ps).contains((#[trigger] ps[i]).pool_id),
        forall|q: u64|
            pool_ids_in_order(ps).contains(q) ==> exists|i: int|
                0 <= i < ps.len() && (#[trigger] ps[i]).pool_id == q,
    decreases ps.len(),
{
    if ps.len() > 0 {
        lemma_pool_ids_in_order_complete(ps.drop_last());
        let rest = pool_ids_in_order(ps.drop_last());
        let all = pool_ids_in_order(ps);
        assert forall|i: int| 0 <= i < ps.len() implies all.contains(
            (#[trigger] ps[i]).pool_id,
        ) by {
            if i < ps.len() - 1 {
                assert(ps.drop_last()[i] == ps[i]);
                assert(rest.contains(ps[i].pool_id));
                if !rest.contains(ps.last().pool_id) {
                    let m = choose|m: int| 0 <= m < rest.len() && rest[m] == ps[i].pool_id;
                    assert(all[m] == ps[i].pool_id);
                }
            } else {
                if rest.contains(ps.last().pool_id) {
                    assert(all.contains(ps.last().pool_id));
                } else {
                    assert(all.last() == ps.last().pool_id);
                }
            }
        }
        assert forall|q: u64| all.contains(q) implies exists|i: int|
            0 <= i < ps.len() && (#[trigger] ps[i]).pool_id == q by {
            if rest.contains(q) {
                let i = choose|i: int|
                    0 <= i < ps.drop_last().len() && (#[trigger] ps.drop_last()[i]).pool_id == q;
                assert(ps[i].pool_id == q);
            } else {
                let m = choose|m: int| 0 <= m < all.len() && all[m] == q;
                assert(m == all.len() - 1);
                assert(ps.last().pool_id == q);
                assert(ps[ps.len() - 1].pool_id == q);
            }
        }
    }
}

/// A position whose activation epoch exceeds the observed epoch is Pending,
/// whatever the rate table holds.
pub proof fn lemma_future_activation_pending(
    epoch: EpochId,
    rates: Seq<(EpochId, ExchangeRate)>,
    p: StakedPosition,
)
    requires
        p.activation_epoch > epoch,
    ensures
        spec_record(epoch, rates, p).status is Pending,
{
}

/// A position active at the observed epoch carries exactly the clamped,
/// rounded rate-ratio reward: the rate at its activation epoch against the
/// pool's current rate, applied to its principal.
pub proof fn lemma_active_reward_formula(
    epoch: EpochId,
    rates: Seq<(EpochId, ExchangeRate)>,
    p: StakedPosition,
)
    requires
        epoch >= p.activation_epoch,
        rates.len() > 0,
    ensures
        spec_record(epoch, rates, p).status == (StakeStatus::Active {
            estimated_reward: spec_reward_amount(
                spec_find_rate(rates, p.activation_epoch).rate,
                rates.first().1.rate,
                p.principal,
            ),
        }),
{
}

/// In a pool with no recorded current rate, every active position yields an
/// estimated reward of zero.
pub proof fn lemma_no_current_rate_zero_reward(
    epoch: EpochId,
    rates: Seq<(EpochId, ExchangeRate)>,
    p: StakedPosition,
)
    requires
        epoch >= p.activation_epoch,
        rates.len() == 0,
    ensures
        spec_record(epoch, rates, p).status == (StakeStatus::Active { estimated_reward: 0u64 }),
{
}

/// Finds the index of the rate table for `pool`, preferring the last match.
pub fn find_rate_table(tables: &Vec<ValidatorExchangeRates>, pool: u64) -> (r: Option<usize>)
    ensures
        r matches Some(ix) ==> ix < tables@.len() && spec_find_table(tables@, pool) == Some(
            tables@[ix as int],
        ),
        r is None ==> spec_find_table(tables@, pool) is None,
{
    let mut i: usize = tables.len();
    proof {
        assert(tables@.take(tables@.len() as int) =~= tables@);
    }
    while i > 0
        invariant
            i <= tables@.len(),
            spec_find_table(tables@, pool) == spec_find_table(tables@.take(i as int), pool),
        decreases i,
    {
        proof {
            assert(tables@.take(i as int).last() == tables@[i - 1]);
            assert(tables@.take(i as int).drop_last() =~= tables@.take(i - 1));
        }
        if tables[i - 1].pool_id == pool {
            return Some(i - 1);
        }
        i = i - 1;
    }
    proof {
        assert(tables@.take(0) =~= Seq::<ValidatorExchangeRates>::empty());
    }
    None
}

/// Groups the input positions by pool, derives each position's stake record
/// against its pool's rate history at the observed epoch, and emits one
/// `DelegatedStake` per pool in first-occurrence order.
///
/// Succeeds exactly when every position's pool has a rate table; a pool
/// absent from the tables fails the whole call with `InvalidArgument` and is
/// never silently dropped.
#[verifier::loop_isolation(false)]
pub fn get_delegated_stakes(
    epoch: EpochId,
    stakes: &Vec<StakedPosition>,
    tables: &Vec<ValidatorExchangeRates>,
) -> (r: Result<Vec<DelegatedStake>, IndexerError>)
    ensures
        r is Ok <==> all_pools_present(stakes@, tables@),
        r matches Ok(out) ==> {
            &&& out@.len() == pool_ids_in_order(stakes@).len()
            &&& forall|j: int|
                0 <= j < out@.len() ==> delegated_stake_matches(
                    #[trigger] out@[j],
                    epoch,
                    stakes@,
                    tables@,
                    pool_ids_in_order(stakes@)[j],
                )
        },
        r matches Err(e) ==> e is InvalidArgument,
{
    let ghost all_pools = pool_ids_in_order(stakes@);
    // Group: collect the distinct pool ids in first-occurrence order.
    let mut pools: Vec<u64> = Vec::new();
    let mut i: usize = 0;
    proof {
        assert(stakes@.take(0) =~= Seq::<StakedPosition>::empty());
    }
    while i < stakes.len()
        invariant
            i <= stakes@.len(),
            pools@ == pool_ids_in_order(stakes@.take(i as int)),
        decreases stakes@.len() - i,
    {
        let pid = stakes[i].pool_id;
        let mut found = false;
        let mut k: usize = 0;
        while k < pools.len()
            invariant
                k <= pools@.len(),
                found <==> exists|m: int| 0 <= m < k && pools@[m] == pid,
            decreases pools@.len() - k,
        {
            if pools[k] == pid {
                found = true;
            }
            k = k + 1;
        }
        proof {
            assert(stakes@.take(i + 1).drop_last() =~= stakes@.take(i as int));
            assert(stakes@.take(i + 1).last() == stakes@[i as int]);
        }
        if !found {
            proof {
                assert(!pools@.contains(pid));
            }
            pools.push(pid);
        } else {
            proof {
                assert(pools@.contains(pid));
            }
        }
        i = i + 1;
    }
    proof {
        assert(stakes@.take(stakes@.len() as int) =~= stakes@);
        assert(pools@ == all_pools);
    }
    // Emit one DelegatedStake per pool.
    let mut out: Vec<DelegatedStake> = Vec::new();
    let mut j: usize = 0;
    while j < pools.len()
        invariant
            j <= pools@.len(),
            out@.len() == j,
            forall|m: int|
                0 <= m < j ==> delegated_stake_matches(
                    #[trigger] out@[m],
                    epoch,
                    stakes@,
                    tables@,
                    pools@[m],
                ),
        decreases pools@.len() - j,
    {
        let pool = pools[j];
        let t_ix = match find_rate_table(tables, pool) {
            Some(ix) => ix,
            None => {
                proof {
                    lemma_pool_ids_in_order_complete(stakes@);
                    assert(all_pools.contains(pool));
                    let w = choose|w: int|
                        0 <= w < stakes@.len() && (#[trigger] stakes@[w]).pool_id == pool;
                    assert(spec_find_table(tables@, stakes@[w].pool_id) is None);
                }
                return Err(
                    IndexerError::InvalidArgument(
                        "Cannot find rates for staking pool".to_string(),
                    ),
                );
            },
        };
        let table = &tables[t_ix];
        let mut recs: Vec<StakeRecord> = Vec::new();
        let mut k: usize = 0;
        proof {
            assert(stakes@.take(0) =~= Seq::<StakedPosition>::empty());
            assert(records_of(epoch, table.rates@, stakes@.take(0), pool) =~= Seq::<
                StakeRecord,
            >::empty());
        }
        while k < stakes.len()
            invariant
                k <= stakes@.len(),
                recs@ == records_of(epoch, table.rates@, stakes@.take(k as int), pool),
            decreases stakes@.len() - k,
        {
            proof {
                assert(stakes@.take(k + 1) =~= stakes@.take(k as int).push(stakes@[k as int]));
                lemma_records_of_push(
                    epoch,
                    table.rates@,
                    stakes@.take(k as int),
                    stakes@[k as int],
                    pool,
                );
            }
            if stakes[k].pool_id == pool {
                let rec = make_stake_record(epoch, table, stakes[k]);
                recs.push(rec);
            }
            k = k + 1;
        }
        proof {
            assert(stakes@.take(stakes@.len() as int) =~= stakes@);
        }
        let d = DelegatedStake {
            validator_address: table.address,
            staking_pool: pool,
            stakes: recs,
        };
        out.push(d);
        j = j + 1;
    }
    proof {
        lemma_pool_ids_in_order_complete(stakes@);
        assert forall|w: int| 0 <= w < stakes@.len() implies spec_find_table(
            tables@,
            (#[trigger] stakes@[w]).pool_id,
        ) is Some by {
            let q = stakes@[w].pool_id;
            assert(all_pools.contains(q));
            let m = choose|m: int| 0 <= m < all_pools.len() && all_pools[m] == q;
            assert(delegated_stake_matches(out@[m], epoch, stakes@, tables@, pools@[m]));
        }
    }
    Ok(out)
}

} // verus!
