use vstd::prelude::*;

use crate::cache::{fresh_at, CacheKey, TtlCache, ACTIVITIES_TTL_SECS};
use crate::error::AppError;
use crate::types::{dup_activities, Activity, ActivityV, CourseIdentifier, CourseIdentifierV};

verus! {

/// An activities fetch is tried up to this many times before the cache
/// gives up and serves an empty list.
pub const ACTIVITIES_MAX_ATTEMPTS: u64 = 5;

/// The fixed delay between two activities fetch attempts, in milliseconds.
pub const ACTIVITIES_RETRY_DELAY_MS: u64 = 1000;

/// What one remote fetch attempt for activities came back with.
pub enum FetchOutcome {
    /// The fetch and parse succeeded, possibly with an empty list.
    Fetched(Vec<Activity>),
    /// The fetch failed, on the network or while parsing.
    Failed(AppError),
}

/// Mathematical value of a fetch outcome.
pub ghost enum FetchOutcomeV {
    Fetched(Seq<ActivityV>),
    Failed(AppError),
}

impl View for FetchOutcome {
    type V = FetchOutcomeV;

    open spec fn view(&self) -> FetchOutcomeV {
        match self {
            FetchOutcome::Fetched(v) => FetchOutcomeV::Fetched(v.deep_view()),
            FetchOutcome::Failed(e) => FetchOutcomeV::Failed(*e),
        }
    }
}

impl DeepView for FetchOutcome {
    type V = FetchOutcomeV;

    open spec fn deep_view(&self) -> FetchOutcomeV {
        self.view()
    }
}

/// The outcome that ends the retrying: a fetch of at least one activity.
pub open spec fn outcome_accepts(o: FetchOutcomeV) -> bool {
    match o {
        FetchOutcomeV::Fetched(v) => v.len() > 0,
        FetchOutcomeV::Failed(_) => false,
    }
}

/// How many fetch attempts the retry policy makes when the successive
/// attempts would come back as `outcomes`, with `budget` attempts allowed.
pub open spec fn attempts_used(outcomes: Seq<FetchOutcomeV>, budget: nat) -> int
    decreases budget,
{
    if budget == 0 || outcomes.len() == 0 {
        0
    } else if outcome_accepts(outcomes[0]) || budget == 1 {
        1
    } else {
        1 + attempts_used(outcomes.drop_first(), (budget - 1) as nat)
    }
}

/// What the retry policy serves: the first nonempty fetched list within the
/// budget, else the empty list — never an error.
pub open spec fn retry_value(outcomes: Seq<FetchOutcomeV>, budget: nat) -> Seq<ActivityV>
    decreases budget,
{
    if budget == 0 || outcomes.len() == 0 {
        Seq::empty()
    } else if outcome_accepts(outcomes[0]) {
        outcomes[0]->Fetched_0
    } else if budget == 1 {
        Seq::empty()
    } else {
        retry_value(outcomes.drop_first(), (budget - 1) as nat)
    }
}

/// What one step of the retry loop tells its driver to do.
pub enum RetryStep {
    /// Serve this list and stop.
    Done(Vec<Activity>),
    /// Sleep for the fixed delay and fetch again.
    RetryAfterDelay,
}

/// The per-course-offering cache of activity lists, with a short time to
/// live and the degrade-gracefully retry policy around its fetches.
pub struct ActivitiesCache {
    cache: TtlCache<CourseIdentifier, Vec<Activity>>,
}

impl ActivitiesCache {
    /// Well-formedness: the inner cache is well-formed and carries the
    /// activities time to live.
    pub closed spec fn wf(self) -> bool {
        &&& self.cache.wf()
        &&& self.cache.spec_ttl() == ACTIVITIES_TTL_SECS
    }

    /// The activity list stored for an offering, and its fetch time, if any.
    pub closed spec fn spec_get(self, k: CourseIdentifierV) -> Option<(Seq<ActivityV>, u64)> {
        match self.cache.spec_get(k) {
            Some((v, f)) => Some((v.deep_view(), f)),
            None => None,
        }
    }

    /// The list a read at `now` is served, if any: the stored list exactly
    /// when its entry is fresh.
    pub open spec fn fresh_value_at(self, k: CourseIdentifierV, now: int) -> Option<Seq<ActivityV>> {
        match self.spec_get(k) {
            Some((v, f)) => if fresh_at(f as int, ACTIVITIES_TTL_SECS as int, now) {
                Some(v)
            } else {
                None
            },
            None => None,
        }
    }

    /// An empty activities cache.
    pub fn new() -> (r: Self)
        ensures
            r.wf(),
            forall|k: CourseIdentifierV| r.spec_get(k) is None,
    {
        ActivitiesCache { cache: TtlCache::new(ACTIVITIES_TTL_SECS) }
    }

    /// Serves the cached list for an offering at time `now` when its entry
    /// is fresh; otherwise serves nothing, and the caller must fetch.
    pub fn lookup(&self, key: &CourseIdentifier, now: u64) -> (r: Option<&Vec<Activity>>)
        requires
            self.wf(),
        ensures
            match r {
                Some(v) => self.fresh_value_at(key@, now as int) == Some(v.deep_view()),
                None => self.fresh_value_at(key@, now as int) is None,
            },
    {
        self.cache.lookup(key, now)
    }

    /// One step of the activities retry policy, applied to the outcome of
    /// fetch attempt `attempt`, counted from one. A fetch that brought
    /// activities is stored wholesale and served; a failed or empty fetch is
    /// retried after the fixed delay while attempts remain; after the last
    /// attempt the policy gives up and serves the empty list — an error
    /// never surfaces, and a failed or empty fetch leaves the cache, and any
    /// stale entry in it, exactly as it was.
    pub fn retry_step(
        &mut self,
        key: &CourseIdentifier,
        attempt: u64,
        outcome: FetchOutcome,
        now: u64,
    ) -> (r: RetryStep)
        requires
            old(self).wf(),
            1 <= attempt <= ACTIVITIES_MAX_ATTEMPTS,
        ensures
            final(self).wf(),
            outcome_accepts(outcome@) ==> {
                &&& r matches RetryStep::Done(v) && v.deep_view() == outcome@->Fetched_0
                &&& final(self).spec_get(key@) == Some((outcome@->Fetched_0, now))
                &&& forall|k2: CourseIdentifierV|
                    k2 != key@ ==> final(self).spec_get(k2) == old(self).spec_get(k2)
            },
            !outcome_accepts(outcome@) && attempt < ACTIVITIES_MAX_ATTEMPTS ==> r
                is RetryAfterDelay && *final(self) == *old(self),
            !outcome_accepts(outcome@) && attempt == ACTIVITIES_MAX_ATTEMPTS ==> (r matches
            RetryStep::Done(v) && v.deep_view() == Seq::<ActivityV>::empty()) && *final(self)
                == *old(self),
    {
        match outcome {
            FetchOutcome::Fetched(v) => {
                if v.len() > 0 {
                    let out = dup_activities(&v);
                    self.cache.store(key.dup(), v, now);
                    RetryStep::Done(out)
                } else if attempt < ACTIVITIES_MAX_ATTEMPTS {
                    RetryStep::RetryAfterDelay
                } else {
                    let empty: Vec<Activity> = Vec::new();
                    proof {
                        assert(empty.deep_view() =~= Seq::<ActivityV>::empty());
                    }
                    RetryStep::Done(empty)
                }
            },
            FetchOutcome::Failed(_) => {
                if attempt < ACTIVITIES_MAX_ATTEMPTS {
                    RetryStep::RetryAfterDelay
                } else {
                    let empty: Vec<Activity> = Vec::new();
                    proof {
                        assert(empty.deep_view() =~= Seq::<ActivityV>::empty());
                    }
                    RetryStep::Done(empty)
                }
            },
        }
    }

    /// The whole retry loop, run over the outcomes the successive fetch
    /// attempts would return. The request loop performs one real fetch per
    /// attempt, sleeping between attempts, and hands each outcome to
    /// `retry_step`; this function is that loop over outcomes already drawn,
    /// and pins down what is served and how many attempts are made.
    #[verifier::loop_isolation(false)]
    pub fn run_retry(
        &mut self,
        key: &CourseIdentifier,
        outcomes: Vec<FetchOutcome>,
        now: u64,
    ) -> (r: (Vec<Activity>, u64))
        requires
            old(self).wf(),
            outcomes@.len() == ACTIVITIES_MAX_ATTEMPTS,
        ensures
            final(self).wf(),
            r.0.deep_view() == retry_value(
                outcomes.deep_view(),
                ACTIVITIES_MAX_ATTEMPTS as nat,
            ),
            r.1 == attempts_used(outcomes.deep_view(), ACTIVITIES_MAX_ATTEMPTS as nat),
            r.0.deep_view().len() > 0 ==> final(self).spec_get(key@) == Some(
                (r.0.deep_view(), now),
            ) && forall|k2: CourseIdentifierV|
                k2 != key@ ==> final(self).spec_get(k2) == old(self).spec_get(k2),
            r.0.deep_view().len() == 0 ==> *final(self) == *old(self),
    {
        let ghost all = outcomes.deep_view();
        let mut rest = outcomes;
        let mut attempt: u64 = 1;
        while attempt < ACTIVITIES_MAX_ATTEMPTS
            invariant
                1 <= attempt <= ACTIVITIES_MAX_ATTEMPTS,
                rest@.len() == ACTIVITIES_MAX_ATTEMPTS - attempt + 1,
                rest.deep_view() == all.skip(attempt - 1),
                *self == *old(self),
                attempts_used(all, ACTIVITIES_MAX_ATTEMPTS as nat) == attempt - 1 + attempts_used(
                    rest.deep_view(),
                    (ACTIVITIES_MAX_ATTEMPTS - attempt + 1) as nat,
                ),
                retry_value(all, ACTIVITIES_MAX_ATTEMPTS as nat) == retry_value(
                    rest.deep_view(),
                    (ACTIVITIES_MAX_ATTEMPTS - attempt + 1) as nat,
                ),
            decreases ACTIVITIES_MAX_ATTEMPTS - attempt,
        {
            let ghost rest0 = rest@;
            let ghost rest0_dv = rest.deep_view();
            let o = rest.remove(0);
            proof {
                assert(o@ == rest0_dv[0]);
                assert forall|t: int| 0 <= t < rest@.len() implies rest.deep_view()[t]
                    == rest0_dv[t + 1] by {
                    assert(rest@[t] == rest0.remove(0)[t]);
                    assert(rest0.remove(0)[t] == rest0[t + 1]);
                }
                assert(rest.deep_view() =~= rest0_dv.drop_first());
                assert(rest.deep_view() =~= all.skip(attempt as int));
            }
            match self.retry_step(key, attempt, o, now) {
                RetryStep::Done(v) => {
                    return (v, attempt);
                },
                RetryStep::RetryAfterDelay => {
                    attempt = attempt + 1;
                },
            }
        }
        let ghost rest0_dv = rest.deep_view();
        let o = rest.remove(0);
        proof {
            assert(o@ == rest0_dv[0]);
        }
        match self.retry_step(key, attempt, o, now) {
            RetryStep::Done(v) => (v, attempt),
            RetryStep::RetryAfterDelay => {
                proof {
                    assert(false);
                }
                (Vec::new(), attempt)
            },
        }
    }
}

/// Retry-then-empty: a remote source that always returns an empty activity
/// list causes exactly the maximum number of fetch attempts, after which the
/// policy serves the empty list, not an error.
pub proof fn lemma_retry_then_empty(outcomes: Seq<FetchOutcomeV>)
    requires
        outcomes.len() >= ACTIVITIES_MAX_ATTEMPTS,
        forall|i: int|
            0 <= i < outcomes.len() ==> outcomes[i] == FetchOutcomeV::Fetched(
                Seq::<ActivityV>::empty(),
            ),
    ensures
        attempts_used(outcomes, ACTIVITIES_MAX_ATTEMPTS as nat) == ACTIVITIES_MAX_ATTEMPTS,
        retry_value(outcomes, ACTIVITIES_MAX_ATTEMPTS as nat) == Seq::<ActivityV>::empty(),
{
    lemma_retry_all_empty(outcomes, ACTIVITIES_MAX_ATTEMPTS as nat);
}

/// With every outcome an empty success, the policy uses its whole budget of
/// attempts and ends with the empty list.
proof fn lemma_retry_all_empty(outcomes: Seq<FetchOutcomeV>, budget: nat)
    requires
        outcomes.len() >= budget,
        budget >= 1,
        forall|i: int|
            0 <= i < outcomes.len() ==> outcomes[i] == FetchOutcomeV::Fetched(
                Seq::<ActivityV>::empty(),
            ),
    ensures
        attempts_used(outcomes, budget) == budget,
        retry_value(outcomes, budget) == Seq::<ActivityV>::empty(),
    decreases budget,
{
    assert(!outcome_accepts(outcomes[0]));
    if budget > 1 {
        lemma_retry_all_empty(outcomes.drop_first(), (budget - 1) as nat);
    }
}

} // verus!
