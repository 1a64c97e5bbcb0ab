use codex_mbtx_contract::attempt::{arm_result, control_due, existing_attempt, observed_end, reused_row, shell_modes, tool_results, ExistingAttempt};
use codex_mbtx_contract::{JsonValue, parse_json, to_json_text};

fn json(text: &str) -> JsonValue {
    parse_json(text.as_bytes()).unwrap()
}

#[test]
fn controlled_cancellation_waits_for_a_ready_receipt() {
    let task = json(r#"{"control":"term","check":"ignore-term"}"#);
    let receipt = json(r#"{"mode":"ignore-term","ready_ns":1000}"#);
    let path = "/o/fixture/abc.ready.json";
    assert!(control_due(&task, path, &receipt, true, false, 1000 + 1_250_000_000, 0));
    assert!(!control_due(&task, path, &receipt, true, false, 1000 + 1_249_999_999, 0));
    assert!(!control_due(&task, path, &receipt, true, true, u64::MAX, 0));
    assert!(!control_due(&task, path, &receipt, false, false, u64::MAX, 0));
    assert!(!control_due(&task, "/o/fixture/abc.receipt.json", &receipt, true, false, u64::MAX, 0));
    let none = json(r#"{"control":"none","check":"ignore-term"}"#);
    assert!(!control_due(&none, path, &receipt, true, false, u64::MAX, 0));
    let absent = json(r#"{"check":"ignore-term"}"#);
    assert!(!control_due(&absent, path, &receipt, true, false, u64::MAX, 0));
    let moded = json(r#"{"control":"kill","check":"x","control_mode":"ignore-term"}"#);
    assert!(control_due(&moded, path, &receipt, true, false, u64::MAX, 0));
    let other = json(r#"{"control":"kill","check":"ignore-term","control_mode":"other"}"#);
    assert!(!control_due(&other, path, &receipt, true, false, u64::MAX, 0));
    let untimed = json(r#"{"mode":"ignore-term"}"#);
    assert!(control_due(&task, path, &untimed, true, false, 1_250_000_005, 5));
    assert!(!control_due(&task, path, &untimed, true, false, 1_250_000_004, 5));
}

#[test]
fn arm_ends_with_the_later_of_exit_and_output() {
    assert_eq!(observed_end(Some(10), Some(12), Some(11)), Some(12));
    assert_eq!(observed_end(Some(20), Some(12), Some(11)), Some(20));
    assert_eq!(observed_end(Some(20), None, Some(11)), None);
    assert_eq!(observed_end(None, Some(1), Some(1)), None);
}

#[test]
fn trace_rows_kept_in_the_result() {
    let rows: Vec<JsonValue> = [
        r#"{"phase":"tool","event":"result_ready","n":1}"#,
        r#"{"phase":"tool","event":"arguments"}"#,
        r#"{"event":"execution_path","shell_mode":"Direct"}"#,
        r#"{"phase":"tool","event":"result_ready","n":2}"#,
        r#"{"event":"execution_path"}"#,
    ]
    .iter()
    .map(|t| json(t))
    .collect();
    let results = tool_results(&rows);
    assert_eq!(results.len(), 2);
    assert_eq!(to_json_text(&results[1]), r#"{"event":"result_ready","n":2,"phase":"tool"}"#);
    let modes = shell_modes(&rows);
    assert_eq!(modes.iter().map(to_json_text).collect::<Vec<_>>(), vec!["\"Direct\"".to_string(), "null".to_string()]);
}

#[test]
fn reused_rows_are_marked() {
    let row = reused_row(json(r#"{"status":"success","reused":false}"#));
    assert_eq!(to_json_text(&row), r#"{"reused":true,"status":"success"}"#);
    assert_eq!(to_json_text(&reused_row(JsonValue::Null)), r#"{"reused":true}"#);
}

#[test]
fn existing_attempts_are_reused_only_when_their_seal_checks_out() {
    let ok = parse_json(b"{\"status\":\"success\"}").unwrap();
    let bad = parse_json(b"{\"status\":\"mismatch\"}").unwrap();
    assert!(matches!(existing_attempt(true, &ok), Ok(ExistingAttempt::Reuse)));
    assert_eq!(existing_attempt(true, &bad).err().unwrap(), "sealed attempt was modified");
    assert!(matches!(existing_attempt(false, &bad), Ok(ExistingAttempt::Censor)));
}

fn evidence() -> codex_mbtx_contract::attempt::AttemptEvidence {
    codex_mbtx_contract::attempt::AttemptEvidence {
        task: json("{\"id\":\"t\"}"),
        platform: "linux".into(),
        collector_pid_namespace: json("\"pid:[1]\""),
        actual_steps: vec![],
        commands: vec![json("{\"exit_code\":0}")],
        tool_results: vec![],
        receipts: vec![],
        streams: vec![],
        trace: vec![],
        codex_reported_usage: None,
        relay_snapshot_complete: true,
        infrastructure: "none".into(),
        turn_completed: true,
        processes_clean: Some(true),
        unidentified_live: vec![],
        workspace: "/w".into(),
        home: "/h".into(),
        fixture: "/f".into(),
    }
}

#[test]
fn facts_record_what_the_arm_observed() {
    let text = to_json_text(&codex_mbtx_contract::attempt::attempt_facts(&evidence()));
    assert!(text.starts_with("{\"actual_steps\":[],\"cleanup_scope\":\"observed fixture processes; detached/unobserved descendants are not inferred reaped\",\"codex_reported_usage\":null,"));
    assert!(text.contains("\"commands\":[{\"exit_code\":0}]"));
    assert!(text.contains("\"processes_clean\":true"));
    assert!(text.ends_with("\"workspace\":\"/w\"}"));
}

#[test]
fn arm_result_adds_context_and_measurements() {
    let context = json("{\"pair_id\":\"p\",\"status\":\"ignored\"}");
    let rows = vec![json("{\"event\":\"execution_path\",\"shell_mode\":\"direct\"}")];
    let assessment = json("{\"status\":\"success\",\"strict_comparable\":true}");
    let result = arm_result(assessment, &context, json("1.5"), 10, Some(20), Some(0), None, "p-shell", &rows).unwrap();
    let text = to_json_text(&result);
    assert!(text.contains("\"pair_id\":\"p\""));
    assert!(text.contains("\"status\":\"ignored\""));
    assert!(text.contains("\"elapsed_ms\":1.5"));
    assert!(text.contains("\"begin_ns\":10"));
    assert!(text.contains("\"end_ns\":20"));
    assert!(text.contains("\"signal\":null"));
    assert!(text.contains("\"artifact_dir\":\"attempts/p-shell\""));
    assert!(text.contains("\"shell_modes\":[\"direct\"]"));
    let refused = arm_result(json("{\"x\":1}"), &context, json("null"), 0, None, None, None, "p", &rows);
    assert_eq!(refused.unwrap_err(), "evaluation model rejected facts: {\"x\":1}");
}
