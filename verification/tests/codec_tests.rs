use ntnu_timeplan_api::encode_query::{decode_calendar_query, encode_calendar_query};
use ntnu_timeplan_api::error::AppError;
use ntnu_timeplan_api::msgpack::{decode_queries, encode_queries};
use ntnu_timeplan_api::types::{CalendarQuery, CourseIdentifier};

fn query(
    course_code: &str,
    course_term: i32,
    semester: &str,
    groups: &[&str],
    custom_name: Option<&str>,
) -> CalendarQuery {
    CalendarQuery {
        identifier: CourseIdentifier {
            course_code: course_code.to_string(),
            course_term,
            semester: semester.to_string(),
        },
        student_groups: groups.iter().map(|g| g.to_string()).collect(),
        custom_name: custom_name.map(|n| n.to_string()),
    }
}

#[test]
fn test_encode_decode() {
    let input = vec![CalendarQuery {
        identifier: CourseIdentifier {
            course_code: "PROG1004".to_owned(),
            semester: "23v".to_owned(),
            course_term: 1,
        },
        student_groups: vec!["BPROG_2".to_owned()],
        custom_name: Some("Test".to_string()),
    }];

    let encoded = encode_calendar_query(&input).unwrap();
    let decoded = decode_calendar_query(&encoded).unwrap();

    assert_eq!(input, decoded);
}

#[test]
fn round_trip_empty_list() {
    let input: Vec<CalendarQuery> = Vec::new();
    let token = encode_calendar_query(&input).unwrap();
    // One empty msgpack array is the byte 0x90, which is "kA" in
    // URL-safe base64 without padding.
    assert_eq!(token, "kA");
    let decoded = decode_calendar_query(&token).unwrap();
    assert_eq!(decoded, input);
}

#[test]
fn round_trip_unicode_and_empty_groups() {
    let input = vec![
        query("MATTE\u{00c6}\u{00d8}\u{00c5}", -3, "24h", &[], None),
        query("PROG2006", 2, "24v", &["BPROG_3", "BIT_2"], Some("Nettverk")),
    ];
    let token = encode_calendar_query(&input).unwrap();
    assert!(token
        .chars()
        .all(|c| c.is_ascii_alphanumeric() || c == '-' || c == '_'));
    let decoded = decode_calendar_query(&token).unwrap();
    assert_eq!(decoded, input);
}

#[test]
fn round_trip_large_values() {
    // A term that needs the widest integer marker, and a long group name.
    let long_group = "G".repeat(300);
    let input = vec![query("X", 2147483647, "y", &[&long_group], Some("")),
        query("Z", -2147483648, "w", &["a"], None)];
    let token = encode_calendar_query(&input).unwrap();
    let decoded = decode_calendar_query(&token).unwrap();
    assert_eq!(decoded, input);
}

#[test]
fn decode_rejects_garbage() {
    // Not base64 at all.
    assert_eq!(decode_calendar_query("!!!"), Err(AppError::CodecError));
    // Valid base64, but the bytes match neither schema.
    let bytes = vec![0xc0u8, 0x01, 0x02];
    let token = data_encoding::BASE64URL_NOPAD.encode(&bytes);
    assert_eq!(decode_calendar_query(&token), Err(AppError::CodecError));
    // A current-schema list whose one query has too few fields.
    assert_eq!(decode_calendar_query(""), Err(AppError::CodecError));
}

#[test]
fn legacy_token_decodes_with_absent_custom_name() {
    // A token written by the legacy schema: each query is a two-element
    // array of identifier and groups, with no custom name.
    let mut bytes: Vec<u8> = Vec::new();
    rmp::encode::write_array_len(&mut bytes, 1).unwrap();
    rmp::encode::write_array_len(&mut bytes, 2).unwrap();
    rmp::encode::write_array_len(&mut bytes, 3).unwrap();
    rmp::encode::write_str(&mut bytes, "PROG1004").unwrap();
    rmp::encode::write_sint(&mut bytes, 1).unwrap();
    rmp::encode::write_str(&mut bytes, "23v").unwrap();
    rmp::encode::write_array_len(&mut bytes, 1).unwrap();
    rmp::encode::write_str(&mut bytes, "BPROG_2").unwrap();
    let token = data_encoding::BASE64URL_NOPAD.encode(&bytes);

    let decoded = decode_calendar_query(&token).unwrap();
    assert_eq!(
        decoded,
        vec![query("PROG1004", 1, "23v", &["BPROG_2"], None)]
    );
}

#[test]
fn token_bytes_match_messagepack_writer() {
    // The byte format is exactly what the MessagePack writer produces for
    // the same values: struct as array, compact integers, nil for an
    // absent custom name.
    let input = vec![
        query("PROG1004", 1, "23v", &["BPROG_2"], Some("Test")),
        query("IDATT2000", 300, "24h", &[], None),
    ];
    let ours = encode_queries(&input).unwrap();

    let mut bytes: Vec<u8> = Vec::new();
    rmp::encode::write_array_len(&mut bytes, 2).unwrap();
    rmp::encode::write_array_len(&mut bytes, 3).unwrap();
    rmp::encode::write_array_len(&mut bytes, 3).unwrap();
    rmp::encode::write_str(&mut bytes, "PROG1004").unwrap();
    rmp::encode::write_sint(&mut bytes, 1).unwrap();
    rmp::encode::write_str(&mut bytes, "23v").unwrap();
    rmp::encode::write_array_len(&mut bytes, 1).unwrap();
    rmp::encode::write_str(&mut bytes, "BPROG_2").unwrap();
    rmp::encode::write_str(&mut bytes, "Test").unwrap();
    rmp::encode::write_array_len(&mut bytes, 3).unwrap();
    rmp::encode::write_array_len(&mut bytes, 3).unwrap();
    rmp::encode::write_str(&mut bytes, "IDATT2000").unwrap();
    rmp::encode::write_sint(&mut bytes, 300).unwrap();
    rmp::encode::write_str(&mut bytes, "24h").unwrap();
    rmp::encode::write_array_len(&mut bytes, 0).unwrap();
    rmp::encode::write_nil(&mut bytes).unwrap();

    assert_eq!(ours, bytes);
    // And the byte-level decoder reads them back.
    assert_eq!(decode_queries(&bytes), Some(input));
}

#[test]
fn decode_rejects_trailing_bytes() {
    let input = vec![query("A", 1, "b", &[], None)];
    let mut bytes = encode_queries(&input).unwrap();
    bytes.push(0x90);
    assert_eq!(decode_queries(&bytes), None);
}
