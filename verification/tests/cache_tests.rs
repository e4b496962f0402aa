use ntnu_timeplan_api::activities_cache::{
    ActivitiesCache, FetchOutcome, RetryStep, ACTIVITIES_MAX_ATTEMPTS,
};
use ntnu_timeplan_api::cache::TtlCache;
use ntnu_timeplan_api::error::AppError;
use ntnu_timeplan_api::semesters_cache::SemestersCache;
use ntnu_timeplan_api::types::{Activity, CourseIdentifier, Semester, SemestersWithCurrent};

fn identifier(code: &str) -> CourseIdentifier {
    CourseIdentifier {
        course_code: code.to_string(),
        course_term: 1,
        semester: "23v".to_string(),
    }
}

fn activity(id: &str, groups: &[&str]) -> Activity {
    Activity {
        id: id.to_string(),
        course_code: "PROG1004".to_string(),
        week: 2,
        start: 1_673_859_600,
        end: 1_673_866_800,
        title: "Forelesning".to_string(),
        summary: "".to_string(),
        staff_members: Vec::new(),
        student_groups: groups.iter().map(|g| g.to_string()).collect(),
        rooms: Vec::new(),
    }
}

#[test]
fn cache_serves_fresh_entry_without_fetch() {
    let mut cache: TtlCache<String, i32> = TtlCache::new(10);
    cache.store("k".to_string(), 42, 100);
    // Just before expiry the cached value is served.
    assert_eq!(cache.lookup(&"k".to_string(), 109), Some(&42));
    // From expiry on, nothing is served: the caller must fetch.
    assert_eq!(cache.lookup(&"k".to_string(), 110), None);
    assert_eq!(cache.lookup(&"k".to_string(), 200), None);
    // An unknown key is never served.
    assert_eq!(cache.lookup(&"other".to_string(), 100), None);
}

#[test]
fn cache_replaces_entry_wholesale() {
    let mut cache: TtlCache<String, i32> = TtlCache::new(10);
    cache.store("k".to_string(), 1, 100);
    cache.store("k".to_string(), 2, 105);
    assert_eq!(cache.lookup(&"k".to_string(), 112), Some(&2));
}

#[test]
fn failed_refresh_keeps_cached_value() {
    let mut cache: TtlCache<String, i32> = TtlCache::new(10);
    cache.store("k".to_string(), 7, 100);
    let r = cache.apply_refresh("k".to_string(), Err(AppError::NetworkError), 120);
    assert_eq!(r, Err(AppError::NetworkError));
    // The previously cached value, now stale, was not deleted: a later
    // successful refresh is still possible, and re-reading within a fresh
    // window of the old fetch time still serves it.
    assert_eq!(cache.lookup(&"k".to_string(), 105), Some(&7));
    let r2 = cache.apply_refresh("k".to_string(), Ok(8), 130);
    assert_eq!(r2, Ok(()));
    assert_eq!(cache.lookup(&"k".to_string(), 131), Some(&8));
}

#[test]
fn retry_gives_up_empty_after_five_attempts() {
    let mut cache = ActivitiesCache::new();
    let key = identifier("PROG1004");
    let outcomes: Vec<FetchOutcome> = (0..5).map(|_| FetchOutcome::Fetched(Vec::new())).collect();
    let (served, attempts) = cache.run_retry(&key, outcomes, 1000);
    assert_eq!(attempts, ACTIVITIES_MAX_ATTEMPTS);
    assert_eq!(attempts, 5);
    assert!(served.is_empty());
    // Nothing was stored: a later read still finds nothing.
    assert_eq!(cache.lookup(&key, 1000), None);
}

#[test]
fn retry_stops_at_first_nonempty_fetch() {
    let mut cache = ActivitiesCache::new();
    let key = identifier("PROG1004");
    let outcomes = vec![
        FetchOutcome::Failed(AppError::NetworkError),
        FetchOutcome::Fetched(Vec::new()),
        FetchOutcome::Fetched(vec![activity("1", &["BPROG_2"])]),
        FetchOutcome::Fetched(vec![activity("unused", &[])]),
        FetchOutcome::Fetched(Vec::new()),
    ];
    let (served, attempts) = cache.run_retry(&key, outcomes, 1000);
    assert_eq!(attempts, 3);
    assert_eq!(served, vec![activity("1", &["BPROG_2"])]);
    // The fetched list was stored and is served fresh afterwards.
    assert_eq!(cache.lookup(&key, 1000), Some(&vec![activity("1", &["BPROG_2"])]));
    assert_eq!(cache.lookup(&key, 1000 + 7199), Some(&vec![activity("1", &["BPROG_2"])]));
    assert_eq!(cache.lookup(&key, 1000 + 7200), None);
}

#[test]
fn retry_step_retries_failures_and_errors_never_surface() {
    let mut cache = ActivitiesCache::new();
    let key = identifier("PROG1004");
    let step = cache.retry_step(&key, 1, FetchOutcome::Failed(AppError::ParsingError), 0);
    assert!(matches!(step, RetryStep::RetryAfterDelay));
    let step = cache.retry_step(&key, 5, FetchOutcome::Failed(AppError::ParsingError), 0);
    match step {
        RetryStep::Done(v) => assert!(v.is_empty()),
        RetryStep::RetryAfterDelay => panic!("the last attempt must end the loop"),
    }
}

#[test]
fn semesters_cache_freshness_and_resilience() {
    let semesters = vec![
        ("23v".to_string(), Semester { name: "V\u{00e5}r 2023".to_string() }),
        ("23h".to_string(), Semester { name: "H\u{00f8}st 2023".to_string() }),
    ];
    let initial = SemestersWithCurrent::new(semesters, "23v".to_string()).unwrap();
    let mut cache = SemestersCache::new(initial.clone(), 1000);

    // Fresh for one week from the fetch.
    assert_eq!(cache.lookup(1000 + 604_799), Some(&initial));
    assert_eq!(cache.lookup(1000 + 604_800), None);

    // A failed refresh leaves the stored list retrievable.
    let r = cache.apply_refresh(Err(AppError::NetworkError), 1000 + 604_900);
    assert_eq!(r, Err(AppError::NetworkError));
    assert_eq!(cache.stored(), &initial);

    // A successful refresh replaces it wholesale.
    let newer = SemestersWithCurrent::new(
        vec![("24v".to_string(), Semester { name: "V\u{00e5}r 2024".to_string() })],
        "24v".to_string(),
    )
    .unwrap();
    cache.apply_refresh(Ok(newer.clone()), 1000 + 605_000).unwrap();
    assert_eq!(cache.lookup(1000 + 605_001), Some(&newer));
}

#[test]
fn semesters_reject_broken_invariant() {
    // The current code must reference an entry.
    let r = SemestersWithCurrent::new(
        vec![("23v".to_string(), Semester { name: "x".to_string() })],
        "24h".to_string(),
    );
    assert_eq!(r, Err(AppError::ParsingError));
    // Semester codes must be unique.
    let r = SemestersWithCurrent::new(
        vec![
            ("23v".to_string(), Semester { name: "x".to_string() }),
            ("23v".to_string(), Semester { name: "y".to_string() }),
        ],
        "23v".to_string(),
    );
    assert_eq!(r, Err(AppError::ParsingError));
    // A well-formed input passes and is searchable.
    let ok = SemestersWithCurrent::new(
        vec![("23v".to_string(), Semester { name: "x".to_string() })],
        "23v".to_string(),
    )
    .unwrap();
    assert!(ok.has_semester(&"23v".to_string()));
    assert!(!ok.has_semester(&"24h".to_string()));
}
