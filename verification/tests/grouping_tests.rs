use ntnu_timeplan_api::activities_for_courses::{all_student_groups, get_activities_for_courses};
use ntnu_timeplan_api::types::Activity;

fn activity(id: &str, code: &str, groups: &[&str]) -> Activity {
    Activity {
        id: id.to_string(),
        course_code: code.to_string(),
        week: 2,
        start: 0,
        end: 0,
        title: "t".to_string(),
        summary: "".to_string(),
        staff_members: Vec::new(),
        student_groups: groups.iter().map(|g| g.to_string()).collect(),
        rooms: Vec::new(),
    }
}

#[test]
fn student_groups_are_collected_once_each() {
    let activities = vec![
        activity("1", "A", &["BPROG_1", "BPROG_2"]),
        activity("2", "A", &["BPROG_2", "BIT_1"]),
        activity("3", "B", &[]),
    ];
    let groups = all_student_groups(&activities);
    assert_eq!(groups, vec!["BPROG_1", "BPROG_2", "BIT_1"]);
}

#[test]
fn activities_are_grouped_by_course_code() {
    let activities = vec![
        activity("1", "PROG1004", &["BPROG_2"]),
        activity("2", "IDATT2000", &["BIDATA_1"]),
        activity("3", "PROG1004", &["BPROG_1"]),
    ];
    let grouped = get_activities_for_courses(activities);
    assert_eq!(grouped.len(), 2);

    assert_eq!(grouped[0].0, "PROG1004");
    let prog = &grouped[0].1;
    let ids: Vec<&str> = prog.activities.iter().map(|a| a.id.as_str()).collect();
    assert_eq!(ids, vec!["1", "3"]);
    assert_eq!(prog.all_student_groups, vec!["BPROG_2", "BPROG_1"]);

    assert_eq!(grouped[1].0, "IDATT2000");
    let idatt = &grouped[1].1;
    let ids: Vec<&str> = idatt.activities.iter().map(|a| a.id.as_str()).collect();
    assert_eq!(ids, vec!["2"]);
    assert_eq!(idatt.all_student_groups, vec!["BIDATA_1"]);
}

#[test]
fn grouping_an_empty_list_yields_nothing() {
    let grouped = get_activities_for_courses(Vec::new());
    assert!(grouped.is_empty());
}
