use vstd::prelude::*;

use crate::types::{Activity, ActivityV};

verus! {

/// The activities of one course offering together with every student group
/// that occurs across them.
pub struct ActivitiesForCourse {
    pub all_student_groups: Vec<String>,
    pub activities: Vec<Activity>,
}

/// Mathematical value of an `ActivitiesForCourse`.
pub ghost struct ActivitiesForCourseV {
    pub all_student_groups: Seq<Seq<char>>,
    pub activities: Seq<ActivityV>,
}

impl View for ActivitiesForCourse {
    type V = ActivitiesForCourseV;

    open spec fn view(&self) -> ActivitiesForCourseV {
        ActivitiesForCourseV {
            all_student_groups: self.all_student_groups.deep_view(),
            activities: self.activities.deep_view(),
        }
    }
}

impl DeepView for ActivitiesForCourse {
    type V = ActivitiesForCourseV;

    open spec fn deep_view(&self) -> ActivitiesForCourseV {
        self.view()
    }
}

/// The activities among `acts` with the given course code, in input order.
pub open spec fn acts_with_code(acts: Seq<ActivityV>, code: Seq<char>) -> Seq<ActivityV> {
    acts.filter(|a: ActivityV| a.course_code == code)
}

/// The group name `g` occurs in the student groups of some activity.
pub open spec fn group_occurs(acts: Seq<ActivityV>, g: Seq<char>) -> bool {
    exists|i: int, j: int|
        0 <= i < acts.len() && 0 <= j < acts[i].student_groups.len()
            && #[trigger] acts[i].student_groups[j] == g
}

/// No string appears twice.
pub open spec fn distinct_strings(v: Seq<Seq<char>>) -> bool {
    forall|p: int, q: int| 0 <= p < q < v.len() ==> v[p] != v[q]
}

/// The course codes of the grouping's entries, in order.
pub open spec fn grouped_codes(r: Seq<(String, ActivitiesForCourse)>) -> Seq<Seq<char>> {
    r.map_values(|e: (String, ActivitiesForCourse)| e.0@)
}

/// The course codes of the activities, in order.
pub open spec fn input_codes(acts: Seq<ActivityV>) -> Seq<Seq<char>> {
    acts.map_values(|a: ActivityV| a.course_code)
}

/// Every activity's course code owns an entry in the grouping.
pub open spec fn every_code_grouped(
    acts: Seq<ActivityV>,
    r: Seq<(String, ActivitiesForCourse)>,
) -> bool {
    forall|i: int| 0 <= i < acts.len() ==> grouped_codes(r).contains((#[trigger] acts[i]).course_code)
}

/// Every entry's course code is the code of some input activity: the
/// grouping holds no entry for a code that never occurs.
pub open spec fn codes_from_input(
    acts: Seq<ActivityV>,
    r: Seq<(String, ActivitiesForCourse)>,
) -> bool {
    forall|p: int| 0 <= p < r.len() ==> input_codes(acts).contains(#[trigger] r[p].0@)
}

/// The group names collected while walking the activities up to activity
/// `i`, and within it up to group `j`.
spec fn group_seen(acts: Seq<ActivityV>, i: int, j: int, g: Seq<char>) -> bool {
    ||| (exists|p: int, q: int|
        0 <= p < i && 0 <= q < acts[p].student_groups.len() && #[trigger] acts[p].student_groups[q]
            == g)
    ||| (exists|q: int| 0 <= q < j && 0 <= i < acts.len() && #[trigger] acts[i].student_groups[q] == g)
}

/// Whether the list holds this string.
#[verifier::loop_isolation(false)]
fn contains_string(v: &Vec<String>, s: &String) -> (r: bool)
    ensures
        r == v.deep_view().contains(s@),
{
    let mut i: usize = 0;
    while i < v.len()
        invariant
            i <= v@.len(),
            forall|p: int| 0 <= p < i ==> v.deep_view()[p] != s@,
        decreases v@.len() - i,
    {
        if v[i].eq(s) {
            proof {
                assert(v.deep_view()[i as int] == s@);
            }
            return true;
        }
        i += 1;
    }
    proof {
        if v.deep_view().contains(s@) {
            let k = choose|k: int| 0 <= k < v.deep_view().len() && v.deep_view()[k] == s@;
            assert(v.deep_view()[k] != s@);
        }
    }
    false
}

/// Every student group that occurs in the activities, each exactly once.
#[verifier::loop_isolation(false)]
pub fn all_student_groups(activities: &Vec<Activity>) -> (r: Vec<String>)
    ensures
        forall|g: Seq<char>|
            #[trigger] r.deep_view().contains(g) <==> group_occurs(activities.deep_view(), g),
        distinct_strings(r.deep_view()),
{
    let ghost av = activities.deep_view();
    let mut out: Vec<String> = Vec::new();
    let mut i: usize = 0;
    while i < activities.len()
        invariant
            i <= av.len(),
            distinct_strings(out.deep_view()),
            forall|g: Seq<char>| #[trigger] out.deep_view().contains(g) <==> group_seen(av, i as int, 0, g),
        decreases av.len() - i,
    {
        let groups = &activities[i].student_groups;
        proof {
            assert(av[i as int] == activities@[i as int]@);
            assert(av[i as int].student_groups == groups.deep_view());
        }
        let mut j: usize = 0;
        while j < groups.len()
            invariant
                j <= groups@.len(),
                distinct_strings(out.deep_view()),
                forall|g: Seq<char>|
                    #[trigger] out.deep_view().contains(g) <==> group_seen(av, i as int, j as int, g),
            decreases groups@.len() - j,
        {
            let g0 = &groups[j];
            proof {
                assert(groups.deep_view()[j as int] == g0@);
                assert(av[i as int].student_groups[j as int] == g0@);
            }
            let ghost dv_pre = out.deep_view();
            let already = contains_string(&out, g0);
            if !already {
                out.push(g0.clone());
                proof {
                    let dv2 = out.deep_view();
                    assert(dv2 =~= dv_pre.push(g0@));
                    assert(dv2.contains(g0@)) by {
                        assert(dv2[dv_pre.len() as int] == g0@);
                    }
                    assert forall|g: Seq<char>| #[trigger] dv2.contains(g) implies dv_pre.contains(
                        g,
                    ) || g == g0@ by {
                        let k = choose|k: int| 0 <= k < dv2.len() && dv2[k] == g;
                        if k < dv_pre.len() {
                            assert(dv_pre[k] == g);
                        }
                    }
                    assert forall|g: Seq<char>| #[trigger] dv_pre.contains(g) implies dv2.contains(
                        g,
                    ) by {
                        let k = choose|k: int| 0 <= k < dv_pre.len() && dv_pre[k] == g;
                        assert(dv2[k] == g);
                    }
                }
            }
            proof {
                assert(out.deep_view().contains(g0@));
                assert forall|g: Seq<char>| #[trigger] out.deep_view().contains(g) implies
                    group_seen(av, i as int, j + 1, g) by {
                    if dv_pre.contains(g) {
                        assert(group_seen(av, i as int, j as int, g));
                    } else {
                        assert(g == g0@);
                        assert(av[i as int].student_groups[j as int] == g);
                    }
                }
                assert forall|g: Seq<char>| group_seen(av, i as int, j + 1, g) implies #[trigger]
                    out.deep_view().contains(g) by {
                    if group_seen(av, i as int, j as int, g) {
                        assert(dv_pre.contains(g));
                    } else {
                        assert(g == g0@);
                    }
                }
            }
            j += 1;
        }
        proof {
            assert forall|g: Seq<char>| group_seen(av, i as int, groups@.len() as int, g) implies
                group_seen(av, i + 1, 0, g) by {
                if exists|q: int|
                    0 <= q < groups@.len() && 0 <= i < av.len() && #[trigger] av[i as int].student_groups[q]
                        == g {
                    let q = choose|q: int|
                        0 <= q < groups@.len() && #[trigger] av[i as int].student_groups[q] == g;
                    assert(av[i as int].student_groups[q] == g);
                }
            }
            assert forall|g: Seq<char>| group_seen(av, i + 1, 0, g) implies group_seen(
                av,
                i as int,
                groups@.len() as int,
                g,
            ) by {
                let (p, q) = choose|p: int, q: int|
                    0 <= p < i + 1 && 0 <= q < av[p].student_groups.len()
                        && #[trigger] av[p].student_groups[q] == g;
                if p < i {
                } else {
                    assert(av[i as int].student_groups[q] == g);
                }
            }
        }
        i += 1;
    }
    proof {
        assert forall|g: Seq<char>| group_seen(av, av.len() as int, 0, g) implies group_occurs(
            av,
            g,
        ) by {
        }
        assert forall|g: Seq<char>| group_occurs(av, g) implies group_seen(
            av,
            av.len() as int,
            0,
            g,
        ) by {
        }
    }
    out
}

/// A list with no activity of the given code filters to nothing.
proof fn lemma_no_code_filters_empty(acts: Seq<ActivityV>, code: Seq<char>)
    requires
        forall|i: int| 0 <= i < acts.len() ==> (#[trigger] acts[i]).course_code != code,
    ensures
        acts_with_code(acts, code) == Seq::<ActivityV>::empty(),
    decreases acts.len(),
{
    reveal(Seq::filter);
    if acts.len() > 0 {
        lemma_no_code_filters_empty(acts.drop_last(), code);
    }
}

/// Filtering one more activity appends it exactly when its code matches.
proof fn lemma_acts_with_code_snoc(acts: Seq<ActivityV>, x: ActivityV, code: Seq<char>)
    ensures
        acts_with_code(acts.push(x), code) == if x.course_code == code {
            acts_with_code(acts, code).push(x)
        } else {
            acts_with_code(acts, code)
        },
{
    reveal(Seq::filter);
    assert(acts.push(x).drop_last() =~= acts);
    assert(acts.push(x).last() == x);
}

/// Groups the activities by course code: exactly one entry per code that
/// occurs and no other, each holding exactly the activities with that code
/// in input order, and every student group that occurs across them, each
/// exactly once.
#[verifier::loop_isolation(false)]
pub fn get_activities_for_courses(activities: Vec<Activity>) -> (r: Vec<
    (String, ActivitiesForCourse),
>)
    ensures
        forall|p: int, q: int| 0 <= p < q < r@.len() ==> r@[p].0@ != r@[q].0@,
        codes_from_input(activities.deep_view(), r@),
        forall|p: int|
            0 <= p < r@.len() ==> (#[trigger] r@[p].1).activities.deep_view() == acts_with_code(
                activities.deep_view(),
                r@[p].0@,
            ),
        every_code_grouped(activities.deep_view(), r@),
        forall|p: int, g: Seq<char>|
            0 <= p < r@.len() ==> (#[trigger] r@[p].1.all_student_groups.deep_view().contains(g)
                <==> group_occurs(r@[p].1.activities.deep_view(), g)),
        forall|p: int|
            0 <= p < r@.len() ==> distinct_strings(
                (#[trigger] r@[p].1).all_student_groups.deep_view(),
            ),
{
    let ghost all = activities.deep_view();
    let mut rest = activities;
    let total = rest.len();
    let mut grouped: Vec<(String, Vec<Activity>)> = Vec::new();
    let mut k: usize = 0;
    while k < total
        invariant
            total == all.len(),
            k + rest@.len() == all.len(),
            rest.deep_view() == all.skip(k as int),
            forall|p: int, q: int| 0 <= p < q < grouped@.len() ==> grouped@[p].0@ != grouped@[q].0@,
            forall|p: int|
                0 <= p < grouped@.len() ==> (#[trigger] grouped@[p].1).deep_view()
                    == acts_with_code(all.take(k as int), grouped@[p].0@),
            forall|i: int|
                0 <= i < k ==> exists|p: int|
                    0 <= p < grouped@.len() && #[trigger] grouped@[p].0@ == (#[trigger] all[i]).course_code,
            forall|p: int|
                0 <= p < grouped@.len() ==> input_codes(all).contains(#[trigger] grouped@[p].0@),
        decreases rest@.len(),
    {
        let ghost rest0 = rest@;
        let ghost rest0_dv = rest.deep_view();
        let act = rest.remove(0);
        proof {
            assert(act@ == rest0_dv[0]);
            assert(act@ == all[k as int]);
            assert forall|t: int| 0 <= t < rest@.len() implies rest.deep_view()[t] == rest0_dv[t
                + 1] by {
                assert(rest@[t] == rest0.remove(0)[t]);
                assert(rest0.remove(0)[t] == rest0[t + 1]);
            }
            assert(rest.deep_view() =~= all.skip(k + 1));
        }
        // Find the entry with this activity's code, if one exists.
        let mut idx: usize = 0;
        let mut found = false;
        while idx < grouped.len() && !found
            invariant
                idx <= grouped@.len(),
                !found ==> forall|p: int| 0 <= p < idx ==> grouped@[p].0@ != act@.course_code,
                found ==> idx < grouped@.len() && grouped@[idx as int].0@ == act@.course_code,
            decreases grouped@.len() - idx + (if found { 0int } else { 1int }),
        {
            if grouped[idx].0.eq(&act.course_code) {
                found = true;
            } else {
                idx += 1;
            }
        }
        if found {
            let ghost grouped0 = grouped@;
            let mut entry = grouped.remove(idx);
            let ghost entry_dv = entry.1.deep_view();
            entry.1.push(act);
            proof {
                assert(entry.1.deep_view() =~= entry_dv.push(all[k as int]));
            }
            let ghost entry_snap = entry;
            grouped.insert(idx, entry);
            proof {
                assert(grouped@ =~= grouped0.update(idx as int, entry_snap));
                assert(entry_snap.0 == grouped0[idx as int].0);
                assert(entry_snap.1.deep_view() == acts_with_code(
                    all.take(k as int),
                    grouped0[idx as int].0@,
                ).push(all[k as int]));
                assert forall|p: int| 0 <= p < grouped@.len() implies (#[trigger] grouped@[p].1).deep_view()
                    == acts_with_code(all.take(k + 1), grouped@[p].0@) by {
                    lemma_acts_with_code_snoc(all.take(k as int), all[k as int], grouped@[p].0@);
                    assert(all.take(k + 1) =~= all.take(k as int).push(all[k as int]));
                    if p == idx as int {
                        assert(grouped@[p] == entry_snap);
                        assert(grouped@[p].0@ == all[k as int].course_code);
                    } else {
                        assert(grouped@[p] == grouped0[p]);
                        assert(grouped@[p].0@ != all[k as int].course_code);
                    }
                }
                assert forall|i2: int|
                    0 <= i2 < k + 1 implies exists|p: int|
                    0 <= p < grouped@.len() && #[trigger] grouped@[p].0@ == (#[trigger] all[i2]).course_code by {
                    if i2 < k {
                        let w = choose|w: int|
                            0 <= w < grouped0.len() && #[trigger] grouped0[w].0@
                                == all[i2].course_code;
                        if w == idx as int {
                            assert(grouped@[w].0@ == all[i2].course_code);
                        } else {
                            assert(grouped@[w].0@ == all[i2].course_code);
                        }
                    } else {
                        assert(grouped@[idx as int].0@ == all[k as int].course_code);
                    }
                }
                assert forall|p: int| 0 <= p < grouped@.len() implies input_codes(all).contains(
                    #[trigger] grouped@[p].0@,
                ) by {
                    assert(grouped@[p].0@ == grouped0[p].0@);
                    assert(input_codes(all).contains(grouped0[p].0@));
                }
            }
        } else {
            let ghost grouped0 = grouped@;
            let code = act.course_code.clone();
            let mut acts_vec: Vec<Activity> = Vec::new();
            acts_vec.push(act);
            proof {
                assert(acts_vec.deep_view() =~= seq![all[k as int]]);
            }
            grouped.push((code, acts_vec));
            proof {
                assert(grouped@ =~= grouped0.push(grouped@[grouped0.len() as int]));
                assert(grouped@[grouped0.len() as int].0@ == all[k as int].course_code);
                assert forall|i2: int|
                    0 <= i2 < k + 1 implies exists|p: int|
                    0 <= p < grouped@.len() && #[trigger] grouped@[p].0@ == (#[trigger] all[i2]).course_code by {
                    if i2 < k {
                        let w = choose|w: int|
                            0 <= w < grouped0.len() && #[trigger] grouped0[w].0@
                                == all[i2].course_code;
                        assert(grouped@[w].0@ == all[i2].course_code);
                    } else {
                        assert(grouped@[grouped0.len() as int].0@ == all[k as int].course_code);
                    }
                }
                assert forall|p: int| 0 <= p < grouped@.len() implies input_codes(all).contains(
                    #[trigger] grouped@[p].0@,
                ) by {
                    if p < grouped0.len() {
                        assert(grouped@[p].0@ == grouped0[p].0@);
                        assert(input_codes(all).contains(grouped0[p].0@));
                    } else {
                        assert(input_codes(all)[k as int] == all[k as int].course_code);
                        assert(grouped@[p].0@ == all[k as int].course_code);
                    }
                }
                assert forall|p: int| 0 <= p < grouped@.len() implies (#[trigger] grouped@[p].1).deep_view()
                    == acts_with_code(all.take(k + 1), grouped@[p].0@) by {
                    lemma_acts_with_code_snoc(all.take(k as int), all[k as int], grouped@[p].0@);
                    assert(all.take(k + 1) =~= all.take(k as int).push(all[k as int]));
                    if p == grouped0.len() as int {
                        assert(grouped@[p].0@ == all[k as int].course_code);
                        assert forall|t: int|
                            0 <= t < all.take(k as int).len() implies (#[trigger] all.take(
                            k as int,
                        )[t]).course_code != grouped@[p].0@ by {
                            if all[t].course_code == all[k as int].course_code {
                                let w = choose|w: int|
                                    0 <= w < grouped0.len() && #[trigger] grouped0[w].0@ == all[t].course_code;
                                assert(grouped0[w].0@ != act@.course_code);
                            }
                        }
                        lemma_no_code_filters_empty(all.take(k as int), grouped@[p].0@);
                        assert(grouped@[p].1.deep_view() == seq![all[k as int]]);
                        assert(Seq::<ActivityV>::empty().push(all[k as int]) =~= seq![
                            all[k as int],
                        ]);
                    } else {
                        assert(grouped@[p] == grouped0[p]);
                    }
                }
            }
        }
        k += 1;
    }
    proof {
        assert(all.take(all.len() as int) =~= all);
    }
    // Collect the student groups of each entry.
    let ghost final_grouped = grouped@;
    let total2 = grouped.len();
    let mut out: Vec<(String, ActivitiesForCourse)> = Vec::new();
    let mut done: usize = 0;
    while done < total2
        invariant
            total2 == final_grouped.len(),
            done + grouped@.len() == final_grouped.len(),
            grouped@ == final_grouped.skip(done as int),
            out@.len() == done,
            forall|p: int|
                0 <= p < done ==> #[trigger] out@[p].0 == final_grouped[p].0 && out@[p].1.activities
                    == final_grouped[p].1,
            forall|p: int, g: Seq<char>|
                0 <= p < done ==> (#[trigger] out@[p].1.all_student_groups.deep_view().contains(g)
                    <==> group_occurs(out@[p].1.activities.deep_view(), g)),
            forall|p: int|
                0 <= p < done ==> distinct_strings(
                    (#[trigger] out@[p].1).all_student_groups.deep_view(),
                ),
        decreases grouped@.len(),
    {
        let ghost g0 = grouped@;
        let (code, acts_vec) = grouped.remove(0);
        proof {
            assert(g0[0] == final_grouped[done as int]);
            assert(grouped@ =~= final_grouped.skip(done + 1));
        }
        let groups = all_student_groups(&acts_vec);
        let ghost out0 = out@;
        out.push((code, ActivitiesForCourse { all_student_groups: groups, activities: acts_vec }));
        proof {
            assert(out@[done as int].0 == final_grouped[done as int].0);
            assert(out@[done as int].1.activities == final_grouped[done as int].1);
            assert(forall|p: int| 0 <= p < done ==> #[trigger] out@[p] == out0[p]);
        }
        done += 1;
    }
    proof {
        assert forall|p: int, q: int| 0 <= p < q < out@.len() implies out@[p].0@ != out@[q].0@ by {
            assert(out@[p].0 == final_grouped[p].0);
            assert(out@[q].0 == final_grouped[q].0);
        }
        assert forall|p: int|
            0 <= p < out@.len() implies (#[trigger] out@[p].1).activities.deep_view()
            == acts_with_code(all, out@[p].0@) by {
            assert(out@[p].0 == final_grouped[p].0);
            assert(out@[p].1.activities == final_grouped[p].1);
        }
        assert forall|i: int|
            0 <= i < all.len() implies grouped_codes(out@).contains(
            (#[trigger] all[i]).course_code,
        ) by {
            let w = choose|w: int|
                0 <= w < final_grouped.len() && #[trigger] final_grouped[w].0@ == all[i].course_code;
            assert(out@[w].0 == final_grouped[w].0);
            assert(grouped_codes(out@)[w] == all[i].course_code);
        }
        assert(every_code_grouped(all, out@));
        assert forall|p: int| 0 <= p < out@.len() implies input_codes(all).contains(
            #[trigger] out@[p].0@,
        ) by {
            assert(out@[p].0 == final_grouped[p].0);
            assert(input_codes(all).contains(final_grouped[p].0@));
        }
        assert(codes_from_input(all, out@));
    }
    out
}

} // verus!
