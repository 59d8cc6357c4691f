use vstd::prelude::*;
use vstd::seq_lib::group_to_multiset_ensures;

verus! {

/// A protocol epoch: a monotonically increasing period of protocol time.
pub type EpochId = u64;

/// The value of one staking-pool token relative to the underlying asset at
/// some epoch, as a fixed-point scalar. Only ratios of two such scalars enter
/// the reward math, so the fixed-point scale cancels out of every result.
#[derive(Clone, Copy, PartialEq, Eq, Structural, Debug)]
pub struct ExchangeRate {
    pub rate: u64,
}

impl Default for ExchangeRate {
    /// The zero-valued rate, used when a pool has no entry for an epoch.
    fn default() -> (r: Self)
        ensures
            r.rate == 0,
    {
        ExchangeRate { rate: 0 }
    }
}

/// The full exchange-rate history of one validator's staking pool.
#[derive(Clone, Debug, PartialEq, Eq)]
pub struct ValidatorExchangeRates {
    pub address: u64,
    pub pool_id: u64,
    pub active: bool,
    /// Rate history, most recent epoch first.
    pub rates: Vec<(EpochId, ExchangeRate)>,
}

/// The entries are sorted strictly descending by epoch: the most recent epoch
/// comes first, and no epoch appears twice.
pub open spec fn sorted_strict_desc(rates: Seq<(EpochId, ExchangeRate)>) -> bool {
    forall|i: int, j: int| 0 <= i < j < rates.len() ==> rates[i].0 > rates[j].0
}

/// No two entries share an epoch.
pub open spec fn distinct_epochs(entries: Seq<(EpochId, ExchangeRate)>) -> bool {
    forall|i: int, j: int| 0 <= i < j < entries.len() ==> entries[i].0 != entries[j].0
}

impl ValidatorExchangeRates {
    /// The invariant every assembled history satisfies.
    pub open spec fn well_formed(self) -> bool {
        sorted_strict_desc(self.rates@)
    }
}

/// Decides whether a fetched history has pairwise distinct epochs, as the
/// table it came from guarantees of well-formed data.
#[verifier::loop_isolation(false)]
pub fn check_distinct_epochs(entries: &Vec<(EpochId, ExchangeRate)>) -> (r: bool)
    ensures
        r == distinct_epochs(entries@),
{
    let mut i: usize = 0;
    while i < entries.len()
        invariant
            i <= entries@.len(),
            forall|a: int, b: int|
                0 <= a < i && a < b < entries@.len() ==> entries@[a].0 != entries@[b].0,
        decreases entries@.len() - i,
    {
        let mut j: usize = i + 1;
        while j < entries.len()
            invariant
                i < j <= entries@.len(),
                forall|b: int| i < b < j ==> entries@[i as int].0 != entries@[b].0,
            decreases entries@.len() - j,
        {
            if entries[i].0 == entries[j].0 {
                return false;
            }
            j = j + 1;
        }
        i = i + 1;
    }
    true
}

/// Inserts one entry into a strictly descending history, keeping it strictly
/// descending. The new entry's epoch must not already be present.
#[verifier::loop_isolation(false)]
fn insert_desc(v: &Vec<(EpochId, ExchangeRate)>, x: (EpochId, ExchangeRate)) -> (r: Vec<
    (EpochId, ExchangeRate),
>)
    requires
        sorted_strict_desc(v@),
        forall|i: int| 0 <= i < v@.len() ==> (#[trigger] v@[i]).0 != x.0,
    ensures
        sorted_strict_desc(r@),
        r@.to_multiset() == v@.to_multiset().insert(x),
        r@.len() == v@.len() + 1,
{
    let mut out: Vec<(EpochId, ExchangeRate)> = Vec::new();
    let mut i: usize = 0;
    while i < v.len() && v[i].0 > x.0
        invariant
            i <= v@.len(),
            out@ == v@.take(i as int),
            forall|k: int| 0 <= k < i ==> (#[trigger] v@[k]).0 > x.0,
        decreases v@.len() - i,
    {
        let e = v[i];
        out.push(e);
        proof {
            assert(out@ =~= v@.take(i + 1));
        }
        i = i + 1;
    }
    let ghost split: int = i as int;
    out.push(x);
    let mut j: usize = i;
    while j < v.len()
        invariant
            split <= j <= v@.len(),
            out@ == v@.take(split) + seq![x] + v@.subrange(split, j as int),
        decreases v@.len() - j,
    {
        let e = v[j];
        out.push(e);
        proof {
            assert(out@ =~= v@.take(split) + seq![x] + v@.subrange(split, j + 1));
        }
        j = j + 1;
    }
    proof {
        assert(out@ =~= v@.insert(split, x));
        broadcast use group_to_multiset_ensures;

        assert(out@.to_multiset() == v@.to_multiset().insert(x));
        // Sortedness: everything before the split is above x.0, everything
        // at or after it is below, because x.0 is absent from v.
        assert forall|a: int, b: int| 0 <= a < b < out@.len() implies out@[a].0 > out@[b].0 by {
            if a < split && b == split {
                assert(out@[a] == v@[a]);
            } else if a == split && b > split {
                assert(out@[b] == v@[b - 1]);
                assert(v@[b - 1].0 != x.0);
                assert(!(v@[b - 1].0 > x.0));
            } else if a < split && b > split {
                assert(out@[a] == v@[a] && out@[b] == v@[b - 1]);
            } else if a > split && b > split {
                assert(out@[a] == v@[a - 1] && out@[b] == v@[b - 1]);
            } else {
                assert(out@[a] == v@[a] && out@[b] == v@[b]);
            }
        }
    }
    out
}

/// Packages one validator's decoded rate-history entries as a
/// `ValidatorExchangeRates`, sorting the entries descending by epoch.
///
/// The output is strictly descending by epoch and holds exactly the input
/// entries: the histories the builder produces are always well formed.
#[verifier::loop_isolation(false)]
pub fn assemble_validator_rates(
    address: u64,
    pool_id: u64,
    active: bool,
    entries: &Vec<(EpochId, ExchangeRate)>,
) -> (r: ValidatorExchangeRates)
    requires
        distinct_epochs(entries@),
    ensures
        r.address == address,
        r.pool_id == pool_id,
        r.active == active,
        r.well_formed(),
        r.rates@.to_multiset() == entries@.to_multiset(),
        r.rates@.len() == entries@.len(),
{
    let mut sorted: Vec<(EpochId, ExchangeRate)> = Vec::new();
    let mut i: usize = 0;
    proof {
        assert(entries@.take(0) =~= sorted@);
    }
    while i < entries.len()
        invariant
            i <= entries@.len(),
            sorted_strict_desc(sorted@),
            sorted@.to_multiset() == entries@.take(i as int).to_multiset(),
            sorted@.len() == i,
        decreases entries@.len() - i,
    {
        proof {
            broadcast use group_to_multiset_ensures;

            assert forall|k: int| 0 <= k < sorted@.len() implies (#[trigger] sorted@[k]).0
                != entries@[i as int].0 by {
                let e = sorted@[k];
                assert(sorted@.contains(e));
                assert(sorted@.to_multiset().count(e) > 0);
                assert(entries@.take(i as int).contains(e));
                let k2 = choose|k2: int|
                    0 <= k2 < i && entries@.take(i as int)[k2] == e;
                assert(entries@[k2] == e);
                assert(entries@[k2].0 != entries@[i as int].0);
            }
        }
        let e = entries[i];
        sorted = insert_desc(&sorted, e);
        proof {
            broadcast use group_to_multiset_ensures;

            assert(entries@.take(i + 1) =~= entries@.take(i as int).push(entries@[i as int]));
        }
        i = i + 1;
    }
    proof {
        assert(entries@.take(entries@.len() as int) =~= entries@);
    }
    ValidatorExchangeRates { address, pool_id, active, rates: sorted }
}

/// A well-formed history is uniquely determined by its entries: two strictly
/// descending histories holding the same entries are the same sequence. So
/// the assembled history is the one and only well-formed arrangement of what
/// was fetched.
pub proof fn lemma_sorted_desc_unique(
    s1: Seq<(EpochId, ExchangeRate)>,
    s2: Seq<(EpochId, ExchangeRate)>,
)
    requires
        sorted_strict_desc(s1),
        sorted_strict_desc(s2),
        s1.to_multiset() == s2.to_multiset(),
    ensures
        s1 == s2,
    decreases s1.len(),
{
    broadcast use group_to_multiset_ensures;

    assert(s1.to_multiset().len() == s1.len());
    assert(s2.to_multiset().len() == s2.len());
    if s1.len() == 0 {
        assert(s2.len() == 0);
        assert(s1 =~= s2);
    } else {
        assert(s2.len() == s1.len());
        let a = s1.first();
        let b = s2.first();
        assert(s1.contains(a));
        assert(s2.to_multiset().count(a) > 0);
        assert(s2.contains(a));
        let ia = choose|i: int| 0 <= i < s2.len() && s2[i] == a;
        assert(s2.contains(b));
        assert(s1.to_multiset().count(b) > 0);
        assert(s1.contains(b));
        let ib = choose|i: int| 0 <= i < s1.len() && s1[i] == b;
        // The first entry of each history carries its strictly greatest
        // epoch, and each first entry occurs in the other history, so the
        // two first entries must coincide.
        if ia > 0 {
            assert(s2[0].0 > s2[ia].0);
        }
        if ib > 0 {
            assert(s1[0].0 > s1[ib].0);
        }
        assert(a == b);
        assert(s1.remove(0) =~= s1.drop_first());
        assert(s2.remove(0) =~= s2.drop_first());
        assert(s1.drop_first().to_multiset() == s1.to_multiset().remove(a));
        assert(s2.drop_first().to_multiset() == s2.to_multiset().remove(a));
        assert(sorted_strict_desc(s1.drop_first())) by {
            assert forall|i: int, j: int|
                0 <= i < j < s1.drop_first().len() implies s1.drop_first()[i].0
                > s1.drop_first()[j].0 by {
                assert(s1.drop_first()[i] == s1[i + 1]);
                assert(s1.drop_first()[j] == s1[j + 1]);
            }
        }
        assert(sorted_strict_desc(s2.drop_first())) by {
            assert forall|i: int, j: int|
                0 <= i < j < s2.drop_first().len() implies s2.drop_first()[i].0
                > s2.drop_first()[j].0 by {
                assert(s2.drop_first()[i] == s2[i + 1]);
                assert(s2.drop_first()[j] == s2[j + 1]);
            }
        }
        lemma_sorted_desc_unique(s1.drop_first(), s2.drop_first());
        assert(s1 =~= s2) by {
            assert forall|i: int| 0 <= i < s1.len() implies s1[i] == s2[i] by {
                if i > 0 {
                    assert(s1[i] == s1.drop_first()[i - 1]);
                    assert(s2[i] == s2.drop_first()[i - 1]);
                }
            }
        }
    }
}

/// In a well-formed history the first entry carries the most recent epoch:
/// every other entry's epoch is strictly below it.
pub proof fn lemma_first_is_most_recent(rates: Seq<(EpochId, ExchangeRate)>)
    requires
        sorted_strict_desc(rates),
        rates.len() > 0,
    ensures
        forall|i: int| 1 <= i < rates.len() ==> (#[trigger] rates[i]).0 < rates[0].0,
{
}

} // verus!
