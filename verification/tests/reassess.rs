use codex_mbtx_contract::reassess::{
    command_oracle, normal_relative_path, process_evidence, reassess_online_events, RawEvidence,
};
use codex_mbtx_contract::{parse_json, to_json_text, JsonValue};

fn json(text: &str) -> JsonValue {
    parse_json(text.as_bytes()).expect("test JSON")
}

fn member(row: &JsonValue, key: &str) -> String {
    to_json_text(&row.field(key))
}

fn successful_stdout() -> Vec<u8> {
    let command = r#"{"item":{"aggregated_output":"expected marker","command":"fixture","exit_code":0,"type":"command_execution"},"type":"item.completed"}"#;
    format!("{command}\n{{\"type\":\"turn.completed\"}}\n").into_bytes()
}

#[test]
fn codex_exits_are_reassessed_and_child_exits_follow() {
    let mut rows = vec![
        json(r#"{"attempt_id":"a1","event":"exit","experiment_id":"codex-relay-online-v1","failure_class":"old","phase":"codex","status":"relay_error"}"#),
        json(r#"{"attempt_id":"a1","event":"exit","phase":"child","status":"failure"}"#),
        json(r#"{"attempt_id":"a2","event":"exit","experiment_id":"other","phase":"codex","status":"ok"}"#),
        json(r#"{"attempt_id":"a3","event":"exit","experiment_id":"codex-relay-online-v1","phase":"codex","status":"ok"}"#),
        json(r#"{"attempt_id":"a3","event":"exit","phase":"child","status":"success"}"#),
        json(r#"{"attempt_id":"a1","event":"start","phase":"child"}"#),
    ];
    let evidence = vec![
        Some(RawEvidence {
            metadata: json(r#"{"codex_exit_code":0,"expected_command_exit":0,"expected_marker":"expected marker","forbidden_path_exists":false,"timed_out":false}"#),
            stdout: successful_stdout(),
            stderr: String::new(),
        }),
        None,
        None,
        None,
        None,
        None,
    ];
    let before_other = to_json_text(&rows[2]);
    let before_start = to_json_text(&rows[5]);
    reassess_online_events(&mut rows, &evidence);
    assert_eq!(member(&rows[0], "status"), r#""success""#);
    assert_eq!(member(&rows[0], "recorded_status"), r#""relay_error""#);
    assert_eq!(member(&rows[0], "recorded_failure_class"), r#""old""#);
    assert_eq!(member(&rows[0], "failure_class"), "null");
    assert_eq!(member(&rows[0], "command_outcome"), r#""success""#);
    assert_eq!(member(&rows[0], "command_events"), "1");
    assert_eq!(member(&rows[0], "command_exit_code"), "0");
    assert_eq!(member(&rows[0], "turn_completed"), "true");
    assert_eq!(member(&rows[0], "http_status"), "null");
    assert_eq!(member(&rows[0], "error_messages"), "[]");
    assert_eq!(member(&rows[0], "classification_source"), r#""raw_codex_evidence_v2""#);
    assert_eq!(member(&rows[1], "status"), r#""success""#);
    assert_eq!(member(&rows[1], "recorded_status"), r#""failure""#);
    assert_eq!(to_json_text(&rows[2]), before_other);
    assert_eq!(member(&rows[3], "status"), r#""harness_error""#);
    assert_eq!(member(&rows[3], "failure_class"), r#""missing_raw_codex_evidence""#);
    assert_eq!(member(&rows[3], "classification_source"), r#""raw_evidence_unavailable""#);
    assert_eq!(member(&rows[3], "recorded_failure_class"), "null");
    assert_eq!(member(&rows[4], "status"), r#""success""#);
    assert_eq!(member(&rows[4], "recorded_status"), "null");
    assert_eq!(to_json_text(&rows[5]), before_start);
}

#[test]
fn metadata_gives_process_evidence_and_oracle() {
    let metadata = json(r#"{"codex_exit_code":4294967296,"expected_command_exit":-3,"failure_class":"codex_timeout","spawn_error":"no such file"}"#);
    let process = process_evidence(&metadata);
    assert_eq!(process.exit_code, None);
    assert!(process.timed_out);
    assert!(process.spawn_failed);
    let oracle = command_oracle(&metadata);
    assert_eq!(oracle.expected_exit, Some(-3));
    assert_eq!(oracle.expected_marker, None);
    assert_eq!(oracle.forbidden_path_exists, None);
    let quiet = process_evidence(&json(r#"{"codex_exit_code":2,"failure_class":"codex_timeout","timed_out":false}"#));
    assert_eq!(quiet.exit_code, Some(2));
    assert!(!quiet.timed_out);
    assert!(!quiet.spawn_failed);
}

#[test]
fn artifact_directories_must_be_plain_relative_paths() {
    assert!(normal_relative_path("attempts/a1"));
    assert!(normal_relative_path("attempts/./a1"));
    assert!(normal_relative_path("attempts//a1/"));
    assert!(normal_relative_path(".hidden/a1"));
    assert!(!normal_relative_path("/abs/a1"));
    assert!(!normal_relative_path("./attempts"));
    assert!(!normal_relative_path("."));
    assert!(!normal_relative_path("attempts/../x"));
    assert!(!normal_relative_path(".."));
}
