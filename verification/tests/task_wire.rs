use taskw::{Annotation, Date, DateTime, DecodeError, Status, Task};

const TASK_JSON: &str = r#"
        {
            "description": "Dummy Task",
            "entry": "20220110T171619Z",
            "modified": "20220111T074112Z",
            "project": "dummy",
            "status": "pending",
            "uuid": "dde3720b-003f-4776-8e15-61e5d90376af",
            "annotations": [
                {"entry": "20220111T074112Z", "description": "note:dp"}
            ],
            "tags": ["wiki"],
            "user_defined": "custom_field"
        }
        "#;

fn dt(year: u32, month: u32, day: u32, hour: u32, minute: u32, second: u32) -> DateTime {
    DateTime { date: Date { year, month, day }, hour, minute, second }
}

#[test]
fn deserialize_taskwarrior_datetime_format() {
    let datetime = dt(2022, 1, 10, 17, 16, 19);
    let parsed = DateTime::parse("20220110T171619Z").expect("deserialization succeeded");
    assert_eq!(parsed, datetime);
}

#[test]
fn serialize_taskwarrior_datetime_format() {
    let datetime = dt(2022, 1, 10, 17, 16, 19);
    assert_eq!("20220110T171619Z", datetime.render());
}

#[test]
fn deserialize_all_fields_from_json() {
    let task = Task::decode(TASK_JSON).expect("deserialization succeeded");

    assert_eq!(task.uuid, "dde3720b-003f-4776-8e15-61e5d90376af");
    assert_eq!(task.description, "Dummy Task");
    assert_eq!(task.project, Some("dummy".to_string()));
    assert_eq!(task.status, Status::Pending);
    assert_eq!(task.entry, dt(2022, 1, 10, 17, 16, 19));
    assert_eq!(task.modified, dt(2022, 1, 11, 7, 41, 12));
    assert!(task.tags.contains(&String::from("wiki")));
    assert_eq!(
        task.annotations,
        vec![Annotation {
            entry: dt(2022, 1, 11, 7, 41, 12),
            description: String::from("note:dp"),
        }]
    );
    assert_eq!(
        task.unknown_fields,
        vec![("user_defined".to_string(), "\"custom_field\"".to_string())]
    );
}

#[test]
fn serializing_datetimes_follows_taskwarrior_format() {
    let task = Task::decode(TASK_JSON).expect("deserialization succeeded");
    let serialized = task.encode();
    assert!(serialized.contains("20220110T171619Z"));
}

#[test]
fn serializing_uuid_follows_taskwarrior_format() {
    let task = Task::decode(TASK_JSON).expect("deserialization succeeded");
    let serialized = task.encode();
    assert!(serialized.contains("dde3720b-003f-4776-8e15-61e5d90376af"));
}

#[test]
fn task_has_tag() {
    let task = Task::decode(TASK_JSON).expect("deserialization succeeded");
    assert!(task.has_tag("wiki"));
    assert!(!task.has_tag("foobar"));
}

#[test]
fn encode_produces_exact_wire_text() {
    let task = Task::decode(TASK_JSON).expect("deserialization succeeded");
    let expected = "{\"status\":\"pending\",\"uuid\":\"dde3720b-003f-4776-8e15-61e5d90376af\",\"entry\":\"20220110T171619Z\",\"description\":\"Dummy Task\",\"project\":\"dummy\",\"tags\":[\"wiki\"],\"annotations\":[{\"entry\":\"20220111T074112Z\",\"description\":\"note:dp\"}],\"modified\":\"20220111T074112Z\",\"user_defined\":\"custom_field\"}";
    assert_eq!(task.encode(), expected);
}

#[test]
fn decode_encode_round_trip_preserves_every_field() {
    let task = Task::decode(TASK_JSON).expect("deserialization succeeded");
    let wire = task.encode();
    let again = Task::decode(&wire).expect("re-deserialization succeeded");
    assert_eq!(task, again);
    assert_eq!(wire, again.encode());
}

#[test]
fn decode_lowercases_uppercase_identifier() {
    let json = r#"{"status":"pending","uuid":"DDE3720B-003F-4776-8E15-61E5D90376AF","entry":"20220110T171619Z","description":"x","modified":"20220110T171619Z"}"#;
    let task = Task::decode(json).expect("deserialization succeeded");
    assert_eq!(task.uuid, "dde3720b-003f-4776-8e15-61e5d90376af");
}

#[test]
fn decode_rejects_unknown_status_token() {
    let json = r#"{"status":"parked","uuid":"dde3720b-003f-4776-8e15-61e5d90376af","entry":"20220110T171619Z","description":"x","modified":"20220110T171619Z"}"#;
    assert_eq!(Task::decode(json), Err(DecodeError::BadStatus));
}

#[test]
fn decode_rejects_malformed_identifier() {
    let json = r#"{"status":"pending","uuid":"u1","entry":"20220110T171619Z","description":"x","modified":"20220110T171619Z"}"#;
    assert_eq!(Task::decode(json), Err(DecodeError::BadUuid));
}

#[test]
fn decode_rejects_malformed_timestamp() {
    let json = r#"{"status":"pending","uuid":"dde3720b-003f-4776-8e15-61e5d90376af","entry":"2022-01-10T17:16:19Z","description":"x","modified":"20220110T171619Z"}"#;
    assert_eq!(Task::decode(json), Err(DecodeError::BadTimestamp));
}

#[test]
fn decode_rejects_calendar_impossible_timestamp() {
    let json = r#"{"status":"pending","uuid":"dde3720b-003f-4776-8e15-61e5d90376af","entry":"20220230T171619Z","description":"x","modified":"20220110T171619Z"}"#;
    assert_eq!(Task::decode(json), Err(DecodeError::BadTimestamp));
}

#[test]
fn decode_rejects_missing_mandatory_field() {
    let json = r#"{"status":"pending","uuid":"dde3720b-003f-4776-8e15-61e5d90376af","entry":"20220110T171619Z","modified":"20220110T171619Z"}"#;
    assert_eq!(Task::decode(json), Err(DecodeError::MissingField));
}

#[test]
fn decode_rejects_payload_that_is_no_object() {
    assert_eq!(Task::decode("[1,2,3]"), Err(DecodeError::Malformed));
    assert_eq!(Task::decode("not json"), Err(DecodeError::Malformed));
    assert_eq!(Task::decode(""), Err(DecodeError::Malformed));
}

#[test]
fn decode_rejects_wrongly_shaped_named_field() {
    let json = r#"{"status":5,"uuid":"dde3720b-003f-4776-8e15-61e5d90376af","entry":"20220110T171619Z","description":"x","modified":"20220110T171619Z"}"#;
    assert_eq!(Task::decode(json), Err(DecodeError::Malformed));
    let json2 = r#"{"status":"pending","uuid":"dde3720b-003f-4776-8e15-61e5d90376af","entry":"20220110T171619Z","description":"x","modified":"20220110T171619Z","tags":"wiki"}"#;
    assert_eq!(Task::decode(json2), Err(DecodeError::Malformed));
}

#[test]
fn decode_drops_duplicate_tags() {
    let json = r#"{"status":"pending","uuid":"dde3720b-003f-4776-8e15-61e5d90376af","entry":"20220110T171619Z","description":"x","modified":"20220110T171619Z","tags":["a","b","a"]}"#;
    let task = Task::decode(json).expect("deserialization succeeded");
    assert_eq!(task.tags, vec!["a".to_string(), "b".to_string()]);
}

#[test]
fn decode_preserves_nested_unknown_fields_verbatim() {
    let json = r#"{"status":"pending","uuid":"dde3720b-003f-4776-8e15-61e5d90376af","entry":"20220110T171619Z","description":"x","modified":"20220110T171619Z","extra":{"deep":[1,2,{"k":null}]}}"#;
    let task = Task::decode(json).expect("deserialization succeeded");
    let wire = task.encode();
    assert!(wire.contains("\"extra\":{\"deep\":[1,2,{\"k\":null}]}"));
    let again = Task::decode(&wire).expect("re-deserialization succeeded");
    assert_eq!(task, again);
}

#[test]
fn encode_escapes_description_characters() {
    let json = "{\"status\":\"pending\",\"uuid\":\"dde3720b-003f-4776-8e15-61e5d90376af\",\"entry\":\"20220110T171619Z\",\"description\":\"say \\\"hi\\\"\\nplease\",\"modified\":\"20220110T171619Z\"}";
    let task = Task::decode(json).expect("deserialization succeeded");
    assert_eq!(task.description, "say \"hi\"\nplease");
    let wire = task.encode();
    assert!(wire.contains("\"description\":\"say \\\"hi\\\"\\nplease\""));
}

#[test]
fn new_task_carries_fresh_canonical_identifier() {
    let task = Task::new("Dummy Task");
    assert_eq!(task.status, Status::Pending);
    assert_eq!(task.description, "Dummy Task");
    assert!(task.tags.is_empty());
    assert!(task.annotations.is_empty());
    assert_eq!(task.uuid.len(), 36);
    for (i, c) in task.uuid.chars().enumerate() {
        if i == 8 || i == 13 || i == 18 || i == 23 {
            assert_eq!(c, '-');
        } else {
            assert!(c.is_ascii_hexdigit() && !c.is_ascii_uppercase());
        }
    }
    let other = Task::new("Dummy Task");
    assert_ne!(task.uuid, other.uuid);
}

#[test]
fn with_tag_adds_once() {
    let task = Task::new("Dummy Task").with_tag("wiki").with_tag("wiki");
    assert_eq!(task.tags, vec!["wiki".to_string()]);
    assert!(task.has_tag("wiki"));
}

#[test]
fn fresh_annotation_stamps_current_instant() {
    let ann = Annotation::new("note:dp");
    assert_eq!(ann.description, "note:dp");
    assert!(ann.entry.well_formed());
    assert!(ann.entry.date.year >= 2024);
}

#[test]
fn decode_accepts_null_and_absent_project() {
    let with_null = r#"{"status":"pending","uuid":"dde3720b-003f-4776-8e15-61e5d90376af","entry":"20220110T171619Z","description":"x","modified":"20220110T171619Z","project":null}"#;
    let task = Task::decode(with_null).expect("deserialization succeeded");
    assert_eq!(task.project, None);

    let absent = r#"{"status":"pending","uuid":"dde3720b-003f-4776-8e15-61e5d90376af","entry":"20220110T171619Z","description":"x","modified":"20220110T171619Z"}"#;
    let task = Task::decode(absent).expect("deserialization succeeded");
    assert_eq!(task.project, None);
    assert!(task.encode().contains("\"project\":null"));
}

#[test]
fn decode_keeps_last_of_duplicate_wire_keys() {
    let json = r#"{"status":"pending","status":"completed","uuid":"dde3720b-003f-4776-8e15-61e5d90376af","entry":"20220110T171619Z","description":"x","modified":"20220110T171619Z"}"#;
    let task = Task::decode(json).expect("deserialization succeeded");
    assert_eq!(task.status, Status::Completed);
}

#[test]
fn leap_day_timestamp_is_accepted() {
    let leap = DateTime::parse("20240229T000000Z").expect("valid leap day");
    assert_eq!(leap.date, Date { year: 2024, month: 2, day: 29 });
    assert!(DateTime::parse("20230229T000000Z").is_none());
    assert!(DateTime::parse("19000229T000000Z").is_none());
    assert!(DateTime::parse("20000229T000000Z").is_some());
}

#[test]
fn timestamp_render_parse_is_identity() {
    let texts = vec!["20220110T171619Z", "00000101T000000Z", "99991231T235959Z"];
    for t in texts {
        let dt = DateTime::parse(t).expect("valid timestamp");
        assert_eq!(dt.render(), t);
    }
    assert!(DateTime::parse("20220110T171619").is_none());
    assert!(DateTime::parse("20220110 171619Z").is_none());
    assert!(DateTime::parse("20221310T171619Z").is_none());
    assert!(DateTime::parse("20220110T241619Z").is_none());
}
