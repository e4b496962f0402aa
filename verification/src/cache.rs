use vstd::prelude::*;

use vstd::pervasive::VecAdditionalExecFns;

use crate::error::AppError;
use crate::types::CourseIdentifier;

verus! {

/// Time to live of a cached activity list: two hours. Schedules shift.
pub const ACTIVITIES_TTL_SECS: u64 = 7200;

/// Time to live of a cached course catalog: two weeks. It changes rarely.
pub const COURSES_TTL_SECS: u64 = 1209600;

/// Time to live of the cached semester list: one week.
pub const SEMESTERS_TTL_SECS: u64 = 604800;

/// One cache entry: the value, whole, and the moment it was fetched,
/// in seconds of some monotone clock.
pub struct CacheEntry<V> {
    pub value: V,
    pub fetched_at: u64,
}

/// An entry fetched at `fetched_at` is fresh at `now` while it has not yet
/// reached the time to live.
pub open spec fn fresh_at(fetched_at: int, ttl: int, now: int) -> bool {
    fetched_at <= now < fetched_at + ttl
}

/// A cache key: a type whose structural equality the contracts can see.
pub trait CacheKey: View + Sized {
    /// Equality of keys, as equality of their mathematical values.
    fn key_eq(&self, other: &Self) -> (r: bool)
        ensures
            r == (self@ == other@),
    ;
}

impl CacheKey for CourseIdentifier {
    fn key_eq(&self, other: &Self) -> (r: bool)
        ensures
            r == (self@ == other@),
    {
        self.course_code == other.course_code && self.course_term == other.course_term
            && self.semester == other.semester
    }
}

impl CacheKey for String {
    fn key_eq(&self, other: &Self) -> (r: bool)
        ensures
            r == (self@ == other@),
    {
        self.eq(other)
    }
}

/// A keyed cache with a fixed time to live.
///
/// Reads serve a fresh entry as it stands; a refresh replaces an entry
/// wholesale, never piecewise, and a failed refresh changes nothing, so a
/// stale value survives until a refresh succeeds.
pub struct TtlCache<K: CacheKey, V> {
    ttl: u64,
    entries: Vec<(K, CacheEntry<V>)>,
}

impl<K: CacheKey, V> TtlCache<K, V> {
    /// Well-formedness: keys are unique. Constructors establish it and every
    /// method preserves it.
    pub closed spec fn wf(self) -> bool {
        forall|p: int, q: int|
            #![trigger self.entries@[p].0@, self.entries@[q].0@]
            0 <= p < self.entries@.len() && 0 <= q < self.entries@.len() && self.entries@[p].0@
                == self.entries@[q].0@ ==> p == q
    }

    /// The fixed time to live.
    pub closed spec fn spec_ttl(self) -> u64 {
        self.ttl
    }

    spec fn has_key(self, k: K::V) -> bool {
        exists|p: int| 0 <= p < self.entries@.len() && #[trigger] self.entries@[p].0@ == k
    }

    spec fn idx_of(self, k: K::V) -> int {
        choose|p: int| 0 <= p < self.entries@.len() && #[trigger] self.entries@[p].0@ == k
    }

    /// The value and fetch time stored under a key, if any.
    pub closed spec fn spec_get(self, k: K::V) -> Option<(V, u64)> {
        if self.has_key(k) {
            Some(
                (
                    self.entries@[self.idx_of(k)].1.value,
                    self.entries@[self.idx_of(k)].1.fetched_at,
                ),
            )
        } else {
            None
        }
    }

    /// The value a read at time `now` is served, if any: the stored value
    /// exactly when its entry is fresh.
    pub open spec fn fresh_value_at(self, k: K::V, now: int) -> Option<V> {
        match self.spec_get(k) {
            Some((v, f)) => if fresh_at(f as int, self.spec_ttl() as int, now) {
                Some(v)
            } else {
                None
            },
            None => None,
        }
    }

    /// An empty cache with the given time to live.
    pub fn new(ttl: u64) -> (r: Self)
        ensures
            r.wf(),
            r.spec_ttl() == ttl,
            forall|k: K::V| r.spec_get(k) is None,
    {
        TtlCache { ttl, entries: Vec::new() }
    }

    /// Serves the cached value for `key` at time `now` when a fresh entry
    /// exists; serves nothing when the entry is absent or stale — then the
    /// caller must fetch. Reading never changes the cache.
    #[verifier::loop_isolation(false)]
    pub fn lookup(&self, key: &K, now: u64) -> (r: Option<&V>)
        requires
            self.wf(),
        ensures
            match r {
                Some(v) => self.fresh_value_at(key@, now as int) == Some(*v),
                None => self.fresh_value_at(key@, now as int) is None,
            },
    {
        let mut i: usize = 0;
        while i < self.entries.len()
            invariant
                i <= self.entries@.len(),
                self.wf(),
                forall|p: int| 0 <= p < i ==> #[trigger] self.entries@[p].0@ != key@,
            decreases self.entries@.len() - i,
        {
            if self.entries[i].0.key_eq(key) {
                proof {
                    assert(self.has_key(key@));
                    assert(self.entries@[self.idx_of(key@)].0@ == key@);
                    assert(self.idx_of(key@) == i as int);
                }
                let e = &self.entries[i].1;
                let is_fresh = e.fetched_at <= now && now - e.fetched_at < self.ttl;
                if is_fresh {
                    return Some(&e.value);
                } else {
                    return None;
                }
            }
            i += 1;
        }
        proof {
            if self.has_key(key@) {
                let p = choose|p: int|
                    0 <= p < self.entries@.len() && #[trigger] self.entries@[p].0@ == key@;
                assert(self.entries@[p].0@ != key@);
            }
        }
        None
    }

    /// Stores a value under a key, replacing any previous entry wholesale.
    #[verifier::loop_isolation(false)]
    pub fn store(&mut self, key: K, value: V, now: u64)
        requires
            old(self).wf(),
        ensures
            final(self).wf(),
            final(self).spec_ttl() == old(self).spec_ttl(),
            final(self).spec_get(key@) == Some((value, now)),
            forall|k2: K::V| k2 != key@ ==> final(self).spec_get(k2) == old(self).spec_get(k2),
    {
        let ghost key_v = key@;
        let ghost old_entries = self.entries@;
        let mut i: usize = 0;
        while i < self.entries.len()
            invariant
                i <= self.entries@.len(),
                self == old(self),
                self.wf(),
                forall|p: int| 0 <= p < i ==> #[trigger] self.entries@[p].0@ != key_v,
            decreases self.entries@.len() - i,
        {
            if self.entries[i].0.key_eq(&key) {
                self.entries.set(i, (key, CacheEntry { value, fetched_at: now }));
                proof {
                    let se = self.entries@;
                    assert forall|p: int| 0 <= p < se.len() implies #[trigger] se[p].0@
                        == old_entries[p].0@ by {
                            if p != i as int {
                                assert(se[p] == old_entries[p]);
                            }
                        }
                    assert(self.wf());
                    assert(self.has_key(key_v)) by {
                        assert(se[i as int].0@ == key_v);
                    }
                    assert(self.idx_of(key_v) == i as int);
                    lemma_unequal_keys(*old(self), *self, key_v);
                }
                return ;
            }
            i += 1;
        }
        proof {
            if old(self).has_key(key_v) {
                let p = choose|p: int|
                    0 <= p < old(self).entries@.len() && #[trigger] old(self).entries@[p].0@
                        == key_v;
                assert(self.entries@[p].0@ != key_v);
            }
        }
        self.entries.push((key, CacheEntry { value, fetched_at: now }));
        proof {
            let se = self.entries@;
            let n = old_entries.len() as int;
            assert forall|p: int| 0 <= p < n implies #[trigger] se[p].0@ == old_entries[p].0@ by {
                assert(se[p] == old_entries[p]);
            }
            assert(se[n].0@ == key_v);
            assert(self.wf());
            assert(self.has_key(key_v));
            assert(self.idx_of(key_v) == n);
            lemma_unequal_keys(*old(self), *self, key_v);
        }
    }

    /// Applies the outcome of a refresh fetch for `key`: a success replaces
    /// the entry wholesale; a failure leaves the cache exactly as it was, so
    /// a previously cached value, even a stale one, stays retrievable.
    pub fn apply_refresh(&mut self, key: K, outcome: Result<V, AppError>, now: u64) -> (r: Result<
        (),
        AppError,
    >)
        requires
            old(self).wf(),
        ensures
            final(self).wf(),
            final(self).spec_ttl() == old(self).spec_ttl(),
            match outcome {
                Ok(v) => {
                    &&& r is Ok
                    &&& final(self).spec_get(key@) == Some((v, now))
                    &&& forall|k2: K::V|
                        k2 != key@ ==> final(self).spec_get(k2) == old(self).spec_get(k2)
                },
                Err(e) => r == Err::<(), AppError>(e) && *final(self) == *old(self),
            },
    {
        match outcome {
            Ok(v) => {
                self.store(key, v, now);
                Ok(())
            },
            Err(e) => Err(e),
        }
    }
}

/// In two caches whose entries carry the same keys in the same order, any
/// key other than the one at a replaced or appended position resolves alike.
proof fn lemma_unequal_keys<K: CacheKey, V>(a: TtlCache<K, V>, b: TtlCache<K, V>, changed: K::V)
    requires
        a.wf(),
        b.wf(),
        a.entries@.len() <= b.entries@.len(),
        forall|p: int|
            0 <= p < a.entries@.len() ==> #[trigger] b.entries@[p].0@ == a.entries@[p].0@ && (
            b.entries@[p].0@ != changed ==> b.entries@[p] == a.entries@[p]),
        forall|p: int|
            a.entries@.len() <= p < b.entries@.len() ==> #[trigger] b.entries@[p].0@ == changed,
    ensures
        forall|k2: <K as View>::V| k2 != changed ==> b.spec_get(k2) == a.spec_get(k2),
{
    assert forall|k2: <K as View>::V| k2 != changed implies b.spec_get(k2) == a.spec_get(k2) by {
        if b.has_key(k2) {
            let p = b.idx_of(k2);
            assert(b.entries@[p].0@ == k2);
            assert(p < a.entries@.len());
            assert(a.has_key(k2));
            let q = a.idx_of(k2);
            assert(a.entries@[q].0@ == k2);
            assert(b.entries@[q].0@ == k2);
            assert(q == p);
            assert(b.entries@[p] == a.entries@[p]);
        } else {
            if a.has_key(k2) {
                let q = a.idx_of(k2);
                assert(a.entries@[q].0@ == k2);
                assert(b.entries@[q].0@ == k2);
                assert(b.has_key(k2));
            }
        }
    }
}

/// Cache freshness: an entry fetched at `f` is served without any fetch at
/// every time before `f + ttl`, and from `f + ttl` on the cache serves
/// nothing, so the caller must go to the remote source.
pub proof fn lemma_cache_freshness<K: CacheKey, V>(
    c: TtlCache<K, V>,
    k: <K as View>::V,
    v: V,
    f: u64,
    eps: int,
)
    requires
        c.spec_get(k) == Some((v, f)),
        0 < eps <= c.spec_ttl(),
    ensures
        c.fresh_value_at(k, f + c.spec_ttl() - eps) == Some(v),
        c.fresh_value_at(k, f + c.spec_ttl() + eps) is None,
{
}

} // verus!
