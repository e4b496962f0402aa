use ntnu_timeplan_api::activity_to_event::activity_to_event;
use ntnu_timeplan_api::calendar_export::events_to_ics;
use ntnu_timeplan_api::projector::{build_events, includes_target_group, ResolvedQuery};
use ntnu_timeplan_api::types::{Activity, Room, StaffMember};

fn activity(id: &str, groups: &[&str]) -> Activity {
    Activity {
        id: id.to_string(),
        course_code: "PROG1004".to_string(),
        week: 2,
        start: 1_673_859_600,
        end: 1_673_866_800,
        title: "Programvareutvikling".to_string(),
        summary: "".to_string(),
        staff_members: vec![
            StaffMember { first_name: "Kari".to_string(), last_name: "Nordmann".to_string() },
            StaffMember { first_name: "Ola".to_string(), last_name: "Hansen".to_string() },
        ],
        student_groups: groups.iter().map(|g| g.to_string()).collect(),
        rooms: vec![
            Room {
                name: "A154".to_string(),
                building_name: "Ametyst".to_string(),
                url: "https://use.mazemap.com/a154".to_string(),
            },
            Room {
                name: "S310".to_string(),
                building_name: "Smaragd".to_string(),
                url: "https://use.mazemap.com/s310".to_string(),
            },
        ],
    }
}

fn strings(items: &[&str]) -> Vec<String> {
    items.iter().map(|s| s.to_string()).collect()
}

#[test]
fn filter_includes_on_any_shared_group() {
    let a = activity("1", &["A", "B"]);
    assert!(includes_target_group(&a, &strings(&["B", "C"])));
    assert!(!includes_target_group(&a, &strings(&["C"])));
    assert!(!includes_target_group(&a, &strings(&[])));
}

#[test]
fn event_formats_rooms_and_staff() {
    let a = activity("act-17", &["BPROG_2"]);
    let event = activity_to_event(&a, &None);

    assert_eq!(event.uid, "act-17");
    assert_eq!(event.summary, "PROG1004 Programvareutvikling");
    assert_eq!(event.start, 1_673_859_600);
    assert_eq!(event.end, 1_673_866_800);
    // The location is only the first room's formatted name.
    assert_eq!(event.location.as_deref(), Some("A154 (Ametyst)"));
    // The description holds both rooms' lines, in input order.
    assert_eq!(
        event.description,
        "PROG1004 Programvareutvikling\n\n\
         Kari Nordmann, Ola Hansen\n\n\
         A154 (Ametyst): https://use.mazemap.com/a154\n\
         S310 (Smaragd): https://use.mazemap.com/s310"
    );
}

#[test]
fn custom_name_takes_precedence_in_summary() {
    let a = activity("act-17", &["BPROG_2"]);
    let event = activity_to_event(&a, &Some("My class".to_string()));
    assert_eq!(event.summary, "My class");
}

#[test]
fn activity_without_rooms_has_no_location() {
    let mut a = activity("act-18", &["BPROG_2"]);
    a.rooms = Vec::new();
    a.staff_members = Vec::new();
    let event = activity_to_event(&a, &None);
    assert_eq!(event.location, None);
    assert_eq!(event.description, "PROG1004 Programvareutvikling\n\n\n\n");
}

#[test]
fn build_events_filters_and_keeps_duplicates() {
    let q1 = ResolvedQuery {
        activities: vec![activity("1", &["A"]), activity("2", &["B"])],
        student_groups: strings(&["A"]),
        custom_name: None,
    };
    // The second query resolves an overlapping activity; the duplicate
    // event is kept — no deduplication across queries.
    let q2 = ResolvedQuery {
        activities: vec![activity("1", &["A"]), activity("3", &["A", "C"])],
        student_groups: strings(&["C", "A"]),
        custom_name: Some("Custom".to_string()),
    };
    let events = build_events(&vec![q1, q2]);
    let uids: Vec<&str> = events.iter().map(|e| e.uid.as_str()).collect();
    assert_eq!(uids, vec!["1", "1", "3"]);
    assert_eq!(events[0].summary, "PROG1004 Programvareutvikling");
    assert_eq!(events[1].summary, "Custom");
    assert_eq!(events[2].summary, "Custom");
}

#[test]
fn empty_target_groups_yield_no_events() {
    let q = ResolvedQuery {
        activities: vec![activity("1", &["A"]), activity("2", &["B"])],
        student_groups: Vec::new(),
        custom_name: None,
    };
    let events = build_events(&vec![q]);
    assert!(events.is_empty());
}

#[test]
fn rendered_calendar_holds_one_event_per_record() {
    let q = ResolvedQuery {
        activities: vec![activity("1", &["A"]), activity("2", &["A"])],
        student_groups: strings(&["A"]),
        custom_name: None,
    };
    let events = build_events(&vec![q]);
    assert_eq!(events.len(), 2);
    let text = events_to_ics(&events);
    assert!(text.starts_with("BEGIN:VCALENDAR\r\n"));
    assert!(text.ends_with("END:VCALENDAR\r\n"));
    assert_eq!(text.matches("BEGIN:VEVENT").count(), 2);
    assert!(text.contains("UID:1"));
    assert!(text.contains("UID:2"));
    // The verbatim-copied timestamps, rendered as UTC date-times.
    assert!(text.contains("DTSTART:20230116T090000Z"));
    assert!(text.contains("DTEND:20230116T110000Z"));
}
