use std::collections::HashSet;

use backup_api::{
    encode_submission, plan_submission, prepare_artifact, written_status, BackupSubmission,
    DecodeFailure, Identifier, Project, Step, TimeInterval, NO_CONTENT, SERVER_ERROR,
};

fn interval(id: usize, start: usize, stop: usize, is_registered: bool) -> TimeInterval {
    TimeInterval {
        id,
        start_in_milliseconds: start,
        stop_in_milliseconds: stop,
        is_registered,
    }
}

fn demo() -> BackupSubmission {
    BackupSubmission {
        projects: vec![Project {
            id: 1,
            name: "Demo".to_string(),
            time_intervals: vec![interval(1, 1000, 2000, true)],
        }],
    }
}

fn text(s: &BackupSubmission) -> String {
    String::from_utf8(encode_submission(s)).unwrap()
}

fn parsed(bytes: &[u8]) -> serde_json::Value {
    serde_json::from_slice(bytes).unwrap()
}

const SAMPLE_ID: [u8; 16] = [
    0x67, 0xe5, 0x50, 0x44, 0x10, 0xb1, 0x42, 0x6f, 0x92, 0x47, 0xbb, 0x68, 0x0e, 0x5f, 0xe0, 0xc8,
];

#[test]
fn empty_submission_is_stored_as_empty_list() {
    let s = BackupSubmission { projects: vec![] };
    assert_eq!(text(&s), "{\"projects\":[]}");
}

#[test]
fn example_body_is_stored_with_the_same_structure() {
    let body = "{\"projects\":[{\"id\":1,\"name\":\"Demo\",\"time_intervals\":[{\"id\":1,\"start_in_milliseconds\":1000,\"stop_in_milliseconds\":2000,\"is_registered\":true}]}]}";
    assert_eq!(text(&demo()), body);
    assert_eq!(parsed(&encode_submission(&demo())), parsed(body.as_bytes()));
}

#[test]
fn stop_before_start_is_stored_verbatim() {
    let s = BackupSubmission {
        projects: vec![Project {
            id: 3,
            name: "Late".to_string(),
            time_intervals: vec![interval(9, 5000, 10, false)],
        }],
    };
    assert_eq!(
        text(&s),
        "{\"projects\":[{\"id\":3,\"name\":\"Late\",\"time_intervals\":[{\"id\":9,\"start_in_milliseconds\":5000,\"stop_in_milliseconds\":10,\"is_registered\":false}]}]}"
    );
}

#[test]
fn order_and_repeated_ids_are_kept() {
    let s = BackupSubmission {
        projects: vec![
            Project { id: 2, name: "b".to_string(), time_intervals: vec![] },
            Project {
                id: 2,
                name: "a".to_string(),
                time_intervals: vec![interval(7, 1, 2, true), interval(7, 0, 0, false)],
            },
        ],
    };
    assert_eq!(
        text(&s),
        "{\"projects\":[{\"id\":2,\"name\":\"b\",\"time_intervals\":[]},{\"id\":2,\"name\":\"a\",\"time_intervals\":[{\"id\":7,\"start_in_milliseconds\":1,\"stop_in_milliseconds\":2,\"is_registered\":true},{\"id\":7,\"start_in_milliseconds\":0,\"stop_in_milliseconds\":0,\"is_registered\":false}]}]}"
    );
}

#[test]
fn largest_numbers_are_written_in_full() {
    let s = BackupSubmission {
        projects: vec![Project {
            id: usize::MAX,
            name: String::new(),
            time_intervals: vec![interval(0, usize::MAX, 0, true)],
        }],
    };
    let expected = format!(
        "{{\"projects\":[{{\"id\":{},\"name\":\"\",\"time_intervals\":[{{\"id\":0,\"start_in_milliseconds\":{},\"stop_in_milliseconds\":0,\"is_registered\":true}}]}}]}}",
        usize::MAX,
        usize::MAX
    );
    assert_eq!(text(&s), expected);
}

#[test]
fn names_are_escaped_like_json_strings() {
    let s = BackupSubmission {
        projects: vec![Project {
            id: 0,
            name: "q\"b\\n\nt\tc\u{1}\u{1f}r\r\u{8}\u{c}é/".to_string(),
            time_intervals: vec![],
        }],
    };
    assert_eq!(
        text(&s),
        "{\"projects\":[{\"id\":0,\"name\":\"q\\\"b\\\\n\\nt\\tc\\u0001\\u001fr\\r\\b\\fé/\",\"time_intervals\":[]}]}"
    );
    let back = parsed(&encode_submission(&s));
    assert_eq!(back["projects"][0]["name"].as_str().unwrap(), s.projects[0].name);
}

#[test]
fn stored_text_round_trips_through_a_json_reader() {
    let s = BackupSubmission {
        projects: vec![
            Project {
                id: 10,
                name: "Ünïcode ✓ \"quoted\"".to_string(),
                time_intervals: vec![interval(1, 2, 3, true), interval(4, 6, 5, false)],
            },
            Project { id: 11, name: "x".to_string(), time_intervals: vec![] },
        ],
    };
    let v = parsed(&encode_submission(&s));
    let ps = v["projects"].as_array().unwrap();
    assert_eq!(ps.len(), 2);
    for (p, q) in s.projects.iter().zip(ps.iter()) {
        assert_eq!(q["id"].as_u64().unwrap() as usize, p.id);
        assert_eq!(q["name"].as_str().unwrap(), p.name);
        let ts = q["time_intervals"].as_array().unwrap();
        assert_eq!(ts.len(), p.time_intervals.len());
        for (t, u) in p.time_intervals.iter().zip(ts.iter()) {
            assert_eq!(u["id"].as_u64().unwrap() as usize, t.id);
            assert_eq!(u["start_in_milliseconds"].as_u64().unwrap() as usize, t.start_in_milliseconds);
            assert_eq!(u["stop_in_milliseconds"].as_u64().unwrap() as usize, t.stop_in_milliseconds);
            assert_eq!(u["is_registered"].as_bool().unwrap(), t.is_registered);
        }
    }
}

#[test]
fn identifier_text_is_canonical() {
    let id = Identifier::from_bytes(SAMPLE_ID);
    assert_eq!(id.text(), "67e55044-10b1-426f-9247-bb680e5fe0c8");
    assert_eq!(id.file_name(), "67e55044-10b1-426f-9247-bb680e5fe0c8.json");
    let zero = Identifier::from_bytes([0u8; 16]);
    assert_eq!(zero.file_name(), "00000000-0000-0000-0000-000000000000.json");
}

#[test]
fn random_identifiers_are_version_four() {
    let id = Identifier::new_random();
    assert_eq!(id.bytes[6] >> 4, 4);
    assert_eq!(id.bytes[8] >> 6, 2);
    assert_eq!(id.text().as_bytes()[14], b'4');
}

#[test]
fn ten_thousand_file_names_are_distinct() {
    let mut seen = HashSet::new();
    for _ in 0..10_000 {
        assert!(seen.insert(Identifier::new_random().file_name()));
    }
}

#[test]
fn identical_submissions_get_distinct_files() {
    let a = prepare_artifact(&demo(), &Identifier::new_random());
    let b = prepare_artifact(&demo(), &Identifier::new_random());
    assert_ne!(a.file_name, b.file_name);
    assert_eq!(a.contents, b.contents);
    assert_eq!(parsed(&a.contents), parsed(&b.contents));
}

#[test]
fn artifact_has_name_and_content() {
    let a = prepare_artifact(&demo(), &Identifier::from_bytes(SAMPLE_ID));
    assert_eq!(a.file_name, "67e55044-10b1-426f-9247-bb680e5fe0c8.json");
    assert_eq!(a.contents, encode_submission(&demo()));
}

#[test]
fn decode_failures_are_client_errors() {
    let id = Identifier::from_bytes(SAMPLE_ID);
    assert_eq!(plan_submission(Err(DecodeFailure::Syntax), id), Step::Respond(400));
    assert_eq!(plan_submission(Err(DecodeFailure::Shape), id), Step::Respond(422));
    assert_eq!(
        plan_submission(Err(DecodeFailure::MissingContentType), id),
        Step::Respond(415)
    );
    assert_eq!(DecodeFailure::Shape.status(), 422);
}

#[test]
fn decoded_submission_is_stored() {
    let id = Identifier::from_bytes(SAMPLE_ID);
    match plan_submission(Ok(BackupSubmission { projects: vec![] }), id) {
        Step::Store(a) => {
            assert_eq!(a.file_name, "67e55044-10b1-426f-9247-bb680e5fe0c8.json");
            assert_eq!(a.contents, b"{\"projects\":[]}".to_vec());
        }
        Step::Respond(_) => panic!("a decoded submission must be stored"),
    }
}

#[test]
fn write_outcome_sets_status() {
    assert_eq!(written_status(true), NO_CONTENT);
    assert_eq!(written_status(true), 204);
    assert_eq!(written_status(false), SERVER_ERROR);
    assert_eq!(written_status(false), 500);
}

#[test]
fn names_are_written_as_a_json_writer_writes_strings() {
    let names = ["", "plain", "tab\there", "quote\"slash\\", "\u{0}\u{7}\u{1b}\u{7f}", "日本語 ✓", "a/b"];
    for name in names {
        let s = BackupSubmission {
            projects: vec![Project { id: 5, name: name.to_string(), time_intervals: vec![] }],
        };
        let expected = format!(
            "{{\"projects\":[{{\"id\":5,\"name\":{},\"time_intervals\":[]}}]}}",
            serde_json::to_string(name).unwrap()
        );
        assert_eq!(text(&s), expected);
    }
}
