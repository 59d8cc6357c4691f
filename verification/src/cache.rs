use vstd::prelude::*;

verus! {

/// A single-slot, epoch-keyed cache.
///
/// It holds at most one value, tagged with the epoch that produced it.
/// Storing a value for a new epoch evicts whatever was held before, so the
/// first lookup after an epoch change is always a miss and forces a full
/// rebuild. A failed rebuild stores nothing: the caller simply does not call
/// `store`, and the cache stays usable with its previous entry.
pub struct EpochCache<T> {
    entry: Option<(u64, T)>,
}

impl<T> EpochCache<T> {
    /// The entry the cache holds, if any, with the epoch it is tagged with.
    pub closed spec fn spec_entry(self) -> Option<(u64, T)> {
        self.entry
    }

    /// What a lookup at `epoch` returns: the held value exactly when the
    /// entry is tagged with that same epoch.
    pub open spec fn spec_lookup(self, epoch: u64) -> Option<T> {
        match self.spec_entry() {
            Some(p) => if p.0 == epoch {
                Some(p.1)
            } else {
                None
            },
            None => None,
        }
    }

    /// An empty cache: every lookup misses until something is stored.
    pub fn new() -> (r: Self)
        ensures
            r.spec_entry() is None,
            forall|e: u64| r.spec_lookup(e) is None,
    {
        EpochCache { entry: None }
    }

    /// Returns the cached value if one is held for exactly this epoch.
    pub fn lookup(&self, epoch: u64) -> (r: Option<&T>)
        ensures
            r matches Some(v) ==> self.spec_lookup(epoch) == Some(*v),
            r is None ==> self.spec_lookup(epoch) is None,
    {
        match &self.entry {
            Some(p) => if p.0 == epoch {
                Some(&p.1)
            } else {
                None
            },
            None => None,
        }
    }

    /// Stores a freshly computed value for `epoch`, evicting any previous
    /// entry: the capacity is fixed at one.
    pub fn store(&mut self, epoch: u64, value: T)
        ensures
            final(self).spec_entry() == Some((epoch, value)),
    {
        self.entry = Some((epoch, value));
    }
}

/// A repeated lookup within the same epoch is a hit: once a value is stored
/// for an epoch, every later lookup at that epoch returns it, so a caller
/// that recomputes only on a miss computes at most once per epoch.
pub proof fn lemma_same_epoch_lookup_hits<T>(c: EpochCache<T>, epoch: u64, value: T)
    requires
        c.spec_entry() == Some((epoch, value)),
    ensures
        c.spec_lookup(epoch) == Some(value),
{
}

/// After the observed epoch changes, the next lookup is a miss: whatever was
/// stored for one epoch is invisible at every other epoch, so an epoch change
/// always forces a rebuild.
pub proof fn lemma_epoch_change_misses<T>(c: EpochCache<T>, stored: u64, observed: u64)
    requires
        c.spec_entry() matches Some(p) && p.0 == stored,
        observed != stored,
    ensures
        c.spec_lookup(observed) is None,
{
}

} // verus!
