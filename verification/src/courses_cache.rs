use vstd::prelude::*;

use crate::cache::{fresh_at, TtlCache, COURSES_TTL_SECS};
use crate::error::AppError;
use crate::types::Course;

verus! {

/// The course catalog of a semester: an association list from course code
/// to course.
pub type CourseCatalog = Vec<(String, Course)>;

/// The per-semester cache of course catalogs, with a long time to live.
pub struct CoursesCache {
    cache: TtlCache<String, CourseCatalog>,
}

impl CoursesCache {
    /// Well-formedness: the inner cache is well-formed and carries the
    /// courses time to live.
    pub closed spec fn wf(self) -> bool {
        &&& self.cache.wf()
        &&& self.cache.spec_ttl() == COURSES_TTL_SECS
    }

    /// The catalog stored for a semester, and its fetch time, if any.
    pub closed spec fn spec_get(self, semester: Seq<char>) -> Option<(CourseCatalog, u64)> {
        self.cache.spec_get(semester)
    }

    /// The catalog a read at `now` is served, if any: the stored catalog
    /// exactly when its entry is fresh.
    pub open spec fn fresh_value_at(self, semester: Seq<char>, now: int) -> Option<CourseCatalog> {
        match self.spec_get(semester) {
            Some((v, f)) => if fresh_at(f as int, COURSES_TTL_SECS as int, now) {
                Some(v)
            } else {
                None
            },
            None => None,
        }
    }

    /// An empty courses cache.
    pub fn new() -> (r: Self)
        ensures
            r.wf(),
            forall|semester: Seq<char>| r.spec_get(semester) is None,
    {
        CoursesCache { cache: TtlCache::new(COURSES_TTL_SECS) }
    }

    /// Serves the cached catalog for a semester at time `now` when its
    /// entry is fresh; otherwise serves nothing, and the caller must fetch.
    pub fn lookup(&self, semester: &String, now: u64) -> (r: Option<&CourseCatalog>)
        requires
            self.wf(),
        ensures
            match r {
                Some(v) => self.fresh_value_at(semester@, now as int) == Some(*v),
                None => self.fresh_value_at(semester@, now as int) is None,
            },
    {
        self.cache.lookup(semester, now)
    }

    /// Applies the outcome of a refresh fetch: a success replaces the
    /// semester's entry wholesale; a failure leaves the cache exactly as it
    /// was, so a previously cached catalog, even a stale one, stays
    /// retrievable.
    pub fn apply_refresh(
        &mut self,
        semester: String,
        outcome: Result<CourseCatalog, AppError>,
        now: u64,
    ) -> (r: Result<(), AppError>)
        requires
            old(self).wf(),
        ensures
            final(self).wf(),
            match outcome {
                Ok(v) => {
                    &&& r is Ok
                    &&& final(self).spec_get(semester@) == Some((v, now))
                    &&& forall|s2: Seq<char>|
                        s2 != semester@ ==> final(self).spec_get(s2) == old(self).spec_get(s2)
                },
                Err(e) => r == Err::<(), AppError>(e) && *final(self) == *old(self),
            },
    {
        self.cache.apply_refresh(semester, outcome, now)
    }
}

} // verus!
