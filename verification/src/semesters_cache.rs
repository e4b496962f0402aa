use vstd::prelude::*;

use crate::cache::{fresh_at, CacheEntry, SEMESTERS_TTL_SECS};
use crate::error::AppError;
use crate::types::SemestersWithCurrent;

verus! {

/// The cache of the one semester list, with a long time to live. It is
/// created from a first successful fetch, so a value is always present —
/// possibly stale, never absent.
pub struct SemestersCache {
    entry: CacheEntry<SemestersWithCurrent>,
}

impl SemestersCache {
    /// The stored semester list and its fetch time.
    pub closed spec fn spec_entry(self) -> (SemestersWithCurrent, u64) {
        (self.entry.value, self.entry.fetched_at)
    }

    /// The list a read at `now` is served without a fetch, if the entry is
    /// still fresh.
    pub open spec fn fresh_value_at(self, now: int) -> Option<SemestersWithCurrent> {
        if fresh_at(self.spec_entry().1 as int, SEMESTERS_TTL_SECS as int, now) {
            Some(self.spec_entry().0)
        } else {
            None
        }
    }

    /// A cache primed with a first fetched semester list.
    pub fn new(initial: SemestersWithCurrent, now: u64) -> (r: Self)
        ensures
            r.spec_entry() == (initial, now),
    {
        SemestersCache { entry: CacheEntry { value: initial, fetched_at: now } }
    }

    /// Serves the cached list when it is fresh at `now`; otherwise serves
    /// nothing, and the caller must fetch. Reading never changes the cache.
    pub fn lookup(&self, now: u64) -> (r: Option<&SemestersWithCurrent>)
        ensures
            match r {
                Some(v) => self.fresh_value_at(now as int) == Some(*v),
                None => self.fresh_value_at(now as int) is None,
            },
    {
        let fresh = self.entry.fetched_at <= now && now - self.entry.fetched_at
            < SEMESTERS_TTL_SECS;
        if fresh {
            Some(&self.entry.value)
        } else {
            None
        }
    }

    /// The stored list, fresh or stale — what a reader falls back to.
    pub fn stored(&self) -> (r: &SemestersWithCurrent)
        ensures
            *r == self.spec_entry().0,
    {
        &self.entry.value
    }

    /// Applies the outcome of a refresh fetch: a success replaces the entry
    /// wholesale; a failure leaves the previously cached list, even a stale
    /// one, in place and retrievable.
    pub fn apply_refresh(
        &mut self,
        outcome: Result<SemestersWithCurrent, AppError>,
        now: u64,
    ) -> (r: Result<(), AppError>)
        ensures
            match outcome {
                Ok(v) => r is Ok && final(self).spec_entry() == (v, now),
                Err(e) => r == Err::<(), AppError>(e) && *final(self) == *old(self),
            },
    {
        match outcome {
            Ok(v) => {
                self.entry = CacheEntry { value: v, fetched_at: now };
                Ok(())
            },
            Err(e) => Err(e),
        }
    }
}

} // verus!
