use ntnu_timeplan_api::calendar_export::events_to_ics;
use ntnu_timeplan_api::encode_query::{decode_calendar_query, encode_calendar_query};
use ntnu_timeplan_api::error::AppError;
use ntnu_timeplan_api::models::{CourseModel, RoomModel, SemesterModel, StaffMemberModel};
use ntnu_timeplan_api::projector::{build_events, ResolvedQuery};
use ntnu_timeplan_api::types::{
    Activity, CalendarQueries, CalendarQuery, Course, CourseIdentifier, OldCalendarQuery, Room,
    StaffMember,
};

/// A stub remote source: always returns this one activity list for the
/// course offering under test.
fn stub_activities() -> Vec<Activity> {
    vec![
        Activity {
            id: "evt-1".to_string(),
            course_code: "PROG1004".to_string(),
            week: 2,
            start: 1_673_859_600,
            end: 1_673_866_800,
            title: "Programvareutvikling".to_string(),
            summary: "".to_string(),
            staff_members: vec![StaffMember {
                first_name: "Kari".to_string(),
                last_name: "Nordmann".to_string(),
            }],
            student_groups: vec!["BPROG_2".to_string(), "BPROG_3".to_string()],
            rooms: vec![Room {
                name: "A154".to_string(),
                building_name: "Ametyst".to_string(),
                url: "https://use.mazemap.com/a154".to_string(),
            }],
        },
        Activity {
            id: "evt-2".to_string(),
            course_code: "PROG1004".to_string(),
            week: 2,
            start: 1_673_946_000,
            end: 1_673_953_200,
            title: "\u{00d8}ving".to_string(),
            summary: "".to_string(),
            staff_members: Vec::new(),
            student_groups: vec!["BPROG_1".to_string()],
            rooms: Vec::new(),
        },
    ]
}

#[test]
fn calendar_export_end_to_end() {
    // Encode the one query, as the web client would when building a link.
    let queries = vec![CalendarQuery {
        identifier: CourseIdentifier {
            course_code: "PROG1004".to_string(),
            course_term: 1,
            semester: "23v".to_string(),
        },
        student_groups: vec!["BPROG_2".to_string()],
        custom_name: Some("My class".to_string()),
    }];
    let token = encode_calendar_query(&queries).unwrap();

    // The calendar endpoint decodes the token and resolves each query
    // against the activities source (here a stub).
    let decoded = decode_calendar_query(&token).unwrap();
    assert_eq!(decoded, queries);
    let resolved: Vec<ResolvedQuery> = decoded
        .into_iter()
        .map(|q| ResolvedQuery {
            activities: stub_activities(),
            student_groups: q.student_groups,
            custom_name: q.custom_name,
        })
        .collect();

    // Only the matching activity is projected, under the custom name.
    let events = build_events(&resolved);
    assert_eq!(events.len(), 1);
    assert_eq!(events[0].summary, "My class");

    // The rendered calendar holds exactly one VEVENT with that summary.
    let text = events_to_ics(&events);
    assert_eq!(text.matches("BEGIN:VEVENT").count(), 1);
    assert!(text.contains("SUMMARY:My class"));
    assert!(text.contains("UID:evt-1"));
    assert!(text.contains("LOCATION:A154 (Ametyst)"));
}

#[test]
fn old_query_upgrade_defaults_custom_name() {
    let old = OldCalendarQuery {
        identifier: CourseIdentifier {
            course_code: "PROG1004".to_string(),
            course_term: 1,
            semester: "23v".to_string(),
        },
        student_groups: vec!["BPROG_2".to_string()],
    };
    let upgraded = old.clone().upgrade();
    assert_eq!(upgraded.identifier, old.identifier);
    assert_eq!(upgraded.student_groups, old.student_groups);
    assert_eq!(upgraded.custom_name, None);
}

#[test]
fn small_api_model_types_expose_their_fields() {
    let course = CourseModel {
        course_code: "PROG1004".to_string(),
        course: Course { name: "Programvareutvikling".to_string(), amount_of_terms: 2 },
    };
    assert_eq!(course.id().as_str(), "PROG1004");
    assert_eq!(course.name().as_str(), "Programvareutvikling");
    assert_eq!(course.amount_of_terms(), 2);

    let semester = SemesterModel { code: "23v".to_string(), name: "V\u{00e5}r 2023".to_string() };
    assert_eq!(semester.id().as_str(), "23v");
    assert_eq!(semester.name().as_str(), "V\u{00e5}r 2023");

    let staff = StaffMemberModel(StaffMember {
        first_name: "Kari".to_string(),
        last_name: "Nordmann".to_string(),
    });
    assert_eq!(staff.first_name().as_str(), "Kari");
    assert_eq!(staff.last_name().as_str(), "Nordmann");

    let room = RoomModel(Room {
        name: "A154".to_string(),
        building_name: "Ametyst".to_string(),
        url: "https://example.org".to_string(),
    });
    assert_eq!(room.name().as_str(), "A154");
    assert_eq!(room.building_name().as_str(), "Ametyst");
    assert_eq!(room.url().as_str(), "https://example.org");
}

#[test]
fn app_error_shows_no_internal_detail() {
    assert_eq!(AppError::NetworkError.message().as_str(), "Internal server error");
    assert_eq!(AppError::ParsingError.message().as_str(), "Internal server error");
    assert_eq!(AppError::CodecError.message().as_str(), "Internal server error");
}

#[test]
fn calendar_queries_wraps_a_query_list() {
    let qs = CalendarQueries {
        queries: vec![CalendarQuery {
            identifier: CourseIdentifier {
                course_code: "PROG1004".to_string(),
                course_term: 1,
                semester: "23v".to_string(),
            },
            student_groups: Vec::new(),
            custom_name: None,
        }],
    };
    assert_eq!(qs.queries.len(), 1);
}
