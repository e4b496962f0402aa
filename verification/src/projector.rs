use vstd::prelude::*;

use crate::activity_to_event::{activity_to_event, event_of, CalendarEvent, CalendarEventV};
use crate::types::{Activity, ActivityV};

verus! {

/// Whether an activity belongs to a query: one of the query's target groups
/// is among the activity's student groups. An empty target list matches
/// nothing — it is not "match all".
pub open spec fn groups_intersect(groups: Seq<Seq<char>>, targets: Seq<Seq<char>>) -> bool {
    exists|i: int, j: int|
        0 <= i < targets.len() && 0 <= j < groups.len() && #[trigger] targets[i] == #[trigger] groups[j]
}

/// An empty target-group list excludes every activity.
pub proof fn lemma_empty_targets_match_nothing(groups: Seq<Seq<char>>)
    ensures
        !groups_intersect(groups, Seq::<Seq<char>>::empty()),
{
}

/// Whether the activity's student groups meet the target groups.
#[verifier::loop_isolation(false)]
pub fn includes_target_group(activity: &Activity, target_student_groups: &Vec<String>) -> (r: bool)
    ensures
        r == groups_intersect(activity@.student_groups, target_student_groups.deep_view()),
{
    let ghost groups = activity@.student_groups;
    let ghost targets = target_student_groups.deep_view();
    let mut i: usize = 0;
    while i < target_student_groups.len()
        invariant
            i <= targets.len(),
            forall|p: int, q: int|
                0 <= p < i && 0 <= q < groups.len() ==> #[trigger] targets[p] != #[trigger] groups[q],
        decreases targets.len() - i,
    {
        let target = &target_student_groups[i];
        let mut j: usize = 0;
        while j < activity.student_groups.len()
            invariant
                j <= groups.len(),
                forall|q: int| 0 <= q < j ==> targets[i as int] != #[trigger] groups[q],
            decreases groups.len() - j,
        {
            if activity.student_groups[j].eq(target) {
                proof {
                    assert(groups[j as int] == targets[i as int]);
                }
                return true;
            }
            j += 1;
        }
        i += 1;
    }
    false
}

/// One calendar query already resolved against the cache: the activities
/// fetched for its course offering, with the query's filter and custom name.
pub struct ResolvedQuery {
    pub activities: Vec<Activity>,
    pub student_groups: Vec<String>,
    pub custom_name: Option<String>,
}

/// Mathematical value of a `ResolvedQuery`.
pub ghost struct ResolvedQueryV {
    pub activities: Seq<ActivityV>,
    pub student_groups: Seq<Seq<char>>,
    pub custom_name: Option<Seq<char>>,
}

impl View for ResolvedQuery {
    type V = ResolvedQueryV;

    open spec fn view(&self) -> ResolvedQueryV {
        ResolvedQueryV {
            activities: self.activities.deep_view(),
            student_groups: self.student_groups.deep_view(),
            custom_name: match self.custom_name {
                Some(ref n) => Some(n@),
                None => None,
            },
        }
    }
}

impl DeepView for ResolvedQuery {
    type V = ResolvedQueryV;

    open spec fn deep_view(&self) -> ResolvedQueryV {
        self.view()
    }
}

/// The events of some activities under one query: each activity whose
/// student groups meet the targets, projected, in input order.
pub open spec fn matching_events(
    activities: Seq<ActivityV>,
    targets: Seq<Seq<char>>,
    custom: Option<Seq<char>>,
) -> Seq<CalendarEventV>
    decreases activities.len(),
{
    if activities.len() == 0 {
        Seq::empty()
    } else {
        let rest = matching_events(activities.drop_first(), targets, custom);
        if groups_intersect(activities[0].student_groups, targets) {
            seq![event_of(activities[0], custom)] + rest
        } else {
            rest
        }
    }
}

/// The events of one resolved query.
pub open spec fn events_of_query(q: ResolvedQueryV) -> Seq<CalendarEventV> {
    matching_events(q.activities, q.student_groups, q.custom_name)
}

/// The events of all resolved queries, concatenated in order. Queries that
/// resolve overlapping activities yield duplicate events; no deduplication
/// is performed across queries.
pub open spec fn events_of(rs: Seq<ResolvedQueryV>) -> Seq<CalendarEventV>
    decreases rs.len(),
{
    if rs.len() == 0 {
        Seq::empty()
    } else {
        events_of_query(rs[0]) + events_of(rs.drop_first())
    }
}

/// Taking one more activity appends its event exactly when it matches.
proof fn lemma_matching_events_snoc(
    activities: Seq<ActivityV>,
    x: ActivityV,
    targets: Seq<Seq<char>>,
    custom: Option<Seq<char>>,
)
    ensures
        matching_events(activities.push(x), targets, custom) == if groups_intersect(
            x.student_groups,
            targets,
        ) {
            matching_events(activities, targets, custom).push(event_of(x, custom))
        } else {
            matching_events(activities, targets, custom)
        },
    decreases activities.len(),
{
    if activities.len() == 0 {
        assert(activities.push(x).drop_first() =~= Seq::<ActivityV>::empty());
        assert(activities.push(x)[0] == x);
        assert(matching_events(Seq::<ActivityV>::empty(), targets, custom) == Seq::<
            CalendarEventV,
        >::empty());
        assert(matching_events(activities, targets, custom) == Seq::<CalendarEventV>::empty());
        if groups_intersect(x.student_groups, targets) {
            assert(seq![event_of(x, custom)] + Seq::<CalendarEventV>::empty() =~= Seq::<
                CalendarEventV,
            >::empty().push(event_of(x, custom)));
        }
    } else {
        assert(activities.push(x).drop_first() =~= activities.drop_first().push(x));
        assert(activities.push(x)[0] == activities[0]);
        lemma_matching_events_snoc(activities.drop_first(), x, targets, custom);
        let rest = matching_events(activities.drop_first(), targets, custom);
        if groups_intersect(x.student_groups, targets) {
            if groups_intersect(activities[0].student_groups, targets) {
                assert(seq![event_of(activities[0], custom)] + rest.push(event_of(x, custom)) =~= (
                seq![event_of(activities[0], custom)] + rest).push(event_of(x, custom)));
            }
        }
    }
}

/// Splitting a query list splits its events.
proof fn lemma_events_of_append(a: Seq<ResolvedQueryV>, c: Seq<ResolvedQueryV>)
    ensures
        events_of(a + c) == events_of(a) + events_of(c),
    decreases a.len(),
{
    if a.len() == 0 {
        assert(a + c =~= c);
        assert(events_of(a) == Seq::<CalendarEventV>::empty());
        assert(Seq::<CalendarEventV>::empty() + events_of(c) =~= events_of(c));
    } else {
        assert((a + c).drop_first() =~= a.drop_first() + c);
        assert((a + c)[0] == a[0]);
        lemma_events_of_append(a.drop_first(), c);
        assert(events_of_query(a[0]) + (events_of(a.drop_first()) + events_of(c)) =~= (
        events_of_query(a[0]) + events_of(a.drop_first())) + events_of(c));
    }
}

/// Appends the events of one resolved query.
#[verifier::loop_isolation(false)]
fn push_events_of_query(out: &mut Vec<CalendarEvent>, q: &ResolvedQuery)
    ensures
        final(out).deep_view() == old(out).deep_view() + events_of_query(q@),
{
    let ghost acts = q@.activities;
    let mut i: usize = 0;
    while i < q.activities.len()
        invariant
            i <= acts.len(),
            out.deep_view() == old(out).deep_view() + matching_events(
                acts.take(i as int),
                q@.student_groups,
                q@.custom_name,
            ),
        decreases acts.len() - i,
    {
        proof {
            assert(acts[i as int] == q.activities@[i as int]@);
        }
        if includes_target_group(&q.activities[i], &q.student_groups) {
            let ghost out_dv = out.deep_view();
            let ev = activity_to_event(&q.activities[i], &q.custom_name);
            out.push(ev);
            proof {
                assert(out.deep_view() =~= out_dv.push(ev@));
            }
        }
        proof {
            lemma_matching_events_snoc(
                acts.take(i as int),
                acts[i as int],
                q@.student_groups,
                q@.custom_name,
            );
            assert(acts.take(i + 1) =~= acts.take(i as int).push(acts[i as int]));
        }
        i += 1;
    }
    proof {
        assert(acts.take(acts.len() as int) =~= acts);
    }
}

/// Projects the resolved queries to the flat list of calendar events: for
/// each query, the activities whose student groups meet the query's targets,
/// each mapped to one event, concatenated across queries in order.
#[verifier::loop_isolation(false)]
pub fn build_events(resolved: &Vec<ResolvedQuery>) -> (r: Vec<CalendarEvent>)
    ensures
        r.deep_view() == events_of(resolved.deep_view()),
{
    let ghost rs = resolved.deep_view();
    let mut out: Vec<CalendarEvent> = Vec::new();
    let mut k: usize = 0;
    while k < resolved.len()
        invariant
            k <= rs.len(),
            out.deep_view() == events_of(rs.take(k as int)),
        decreases rs.len() - k,
    {
        proof {
            assert(rs[k as int] == resolved@[k as int]@);
        }
        push_events_of_query(&mut out, &resolved[k]);
        proof {
            lemma_events_of_append(rs.take(k as int), seq![rs[k as int]]);
            assert(rs.take(k + 1) =~= rs.take(k as int) + seq![rs[k as int]]);
            assert(seq![rs[k as int]].drop_first() =~= Seq::<ResolvedQueryV>::empty());
            assert(events_of(Seq::<ResolvedQueryV>::empty()) == Seq::<CalendarEventV>::empty());
            assert(events_of(seq![rs[k as int]]) =~= events_of_query(rs[k as int]));
        }
        k += 1;
    }
    proof {
        assert(rs.take(rs.len() as int) =~= rs);
    }
    out
}

} // verus!
