use codex_mbtx_contract::arm_record::{arm_checks, arm_record, classify_request, AgentResult, WorkspaceState};
use codex_mbtx_contract::events::parse_events;
use codex_mbtx_contract::m5_runner::{local_classify, AttemptRecord, HelperStreams, TaskSpec};
use codex_mbtx_contract::trace_summary::summarize_traces;
use codex_mbtx_contract::{parse_json, to_json_text, JsonValue};

fn json(text: &str) -> JsonValue {
    parse_json(text.as_bytes()).expect("test JSON")
}

fn task() -> TaskSpec {
    TaskSpec {
        id: "sum".to_string(),
        cohort: "core".to_string(),
        prompt: "add".to_string(),
        inputs: vec![],
        expected: json(r#"{"sum":6}"#),
        expected_stdout: "ok\n".to_string(),
        expected_stderr: String::new(),
        expected_exit_code: 0,
        expected_manifest: vec![],
        editable: None,
        background: false,
        fixture_nonce: "n-1".to_string(),
        receipt_path: "receipt.json".to_string(),
        oracle: "exact".to_string(),
    }
}

fn agent(first_tool: Option<i64>) -> AgentResult {
    AgentResult {
        stdout: String::new(),
        stderr: String::new(),
        exit_code: 0,
        timed_out: false,
        elapsed_ms: 900,
        process_launch_ms: 40,
        process_exit_ms: 60,
        first_stdout_ms: Some(1),
        first_stderr_ms: None,
        first_response_ms: Some(20),
        first_tool_ms: first_tool,
        last_tool_ms: first_tool,
        turn_completed_ms: Some(800),
    }
}

fn workspace_state() -> WorkspaceState {
    WorkspaceState {
        manifest_matches: true,
        entries_safe: true,
        diff: json(r#"{"entries":[],"permissions_unchanged":true,"symlinks_unchanged":true}"#),
        inputs_preserved: true,
    }
}

#[test]
fn a_clean_shell_arm_is_recorded_with_its_checks() {
    let events = parse_events(concat_lines(&[
        r#"{"type":"item.completed","item":{"id":"c1","type":"command_execution","command":"python3 /work/solve.py"}}"#,
        r#"{"type":"function_call","name":"exec_command","call_id":"x1"}"#,
        r#"{"type":"response.completed","response":{}}"#,
        r#"{"type":"turn.completed"}"#,
    ]).as_str());
    let attempts = vec![AttemptRecord {
        value: json(r#"{"cached_input_tokens":2,"input_tokens":10,"output_tokens":3}"#),
        provider_error: false,
        transport_error: false,
        successful: true,
        usage_complete: true,
    }];
    let trace = summarize_traces(
        &vec![
            json(r#"{"event":"command_start","started_unix_ns":5}"#),
            json(r#"{"event":"command_exit","exit_code":0,"finished_unix_ns":9}"#),
        ],
        &vec![],
    );
    let streams = HelperStreams { stdout: "ok\n".to_string(), stderr: String::new() };
    let result = json(r#"{"sum":6}"#);
    let receipt = json(r#"{"helper":"h","nonce":"n-1","status":"completed","task":"sum"}"#);
    let t = task();
    let a = agent(Some(30));
    let state = workspace_state();
    let checks = arm_checks(&t, "shell", &a, &events, &attempts, &trace, &streams, &result, true, &receipt,
        &state, true, "/work", "/opt/launcher", "/opt/mbtx");
    assert_eq!(checks.relay_status, "clean");
    assert_eq!(checks.observability, "complete");
    assert_eq!(checks.backend_observation, "compliant");
    assert!(checks.completed && checks.usage_complete && checks.correct_output);
    assert!(checks.workspace_clean && checks.receipt_valid && checks.trace_complete);
    assert!(checks.approval_original_command);
    assert_eq!(checks.exit_code, 0);

    let request = to_json_text(&classify_request(&checks));
    assert!(request.starts_with(r#"{"approval_original_command":true,"argv_cwd_valid":"#));
    assert!(request.contains(r#""relay_status":"clean""#));
    assert!(request.contains(r#""timeout":false"#));

    let record = arm_record("b1", &t, "shell", &a, &events, &attempts, &trace, &checks,
        Some(br#"{"failure_category":"none"}"#), "ok\n", "", &vec!["result.json".to_string()],
        json(r#"{"entries":[]}"#), receipt, result);
    let text = to_json_text(&record);
    for part in [
        r#""run_id":"b1-shell""#,
        r#""monotonic_end_ms":900"#,
        r#""first_response_ms":20"#,
        r#""first_tool_ms":30"#,
        r#""turn_completed_ms":800"#,
        r#""process_launch_ms":40"#,
        r#""process_exit_ms":60"#,
        r#""input_tokens":10"#,
        r#""cached_input_tokens":2"#,
        r#""output_tokens":3"#,
        r#""tool_counts":{"exec_command":2}"#,
        r#""process_trace":["command_start","command_exit"]"#,
        r#""workspace_manifest":["result.json"]"#,
        r#""failure_category":"none""#,
        r#""exit_code":0"#,
        r#""stdout":"ok\n""#,
        r#""timing_quality":"agent event capture monotonic; proxy exchange wall-clock filename""#,
    ] {
        assert!(text.contains(part), "missing {part} in {text}");
    }
}

#[test]
fn markers_without_their_events_are_left_out() {
    let events = parse_events("");
    let trace = summarize_traces(&vec![], &vec![]);
    let t = task();
    let a = agent(Some(30));
    let state = workspace_state();
    let result = json("null");
    let receipt = json("{}");
    let streams = HelperStreams { stdout: String::new(), stderr: String::new() };
    let checks = arm_checks(&t, "shell", &a, &events, &[], &trace, &streams, &result, false, &receipt,
        &state, true, "/work", "/opt/launcher", "/opt/mbtx");
    assert_eq!(checks.observability, "unobserved");
    assert_eq!(checks.backend_observation, "unknown");
    assert_eq!(checks.exit_code, -1);
    let local = local_classify(checks.relay_status, checks.observability, checks.backend_observation, checks.completed,
        checks.usage_complete, checks.correct_output, checks.inputs_preserved, checks.workspace_clean,
        checks.child_processes_clean, checks.receipt_valid, checks.trace_complete, checks.argv_cwd_valid,
        checks.approval_original_command, checks.timed_out);
    let record = arm_record("b2", &t, "shell", &a, &events, &[], &trace, &checks, None, "", "", &vec![],
        json("{}"), receipt, result);
    let text = to_json_text(&record);
    assert!(!text.contains("first_tool_ms"));
    assert!(!text.contains("turn_completed_ms"));
    assert!(!text.contains("process_launch_ms"));
    assert!(text.contains(r#""first_response_ms":20"#));
    assert!(text.contains(&format!(r#""failure_category":"{local}""#)));
    assert!(text.contains(r#""process_trace":[]"#));
}

fn concat_lines(parts: &[&str]) -> String {
    let mut text = String::new();
    for part in parts {
        text.push_str(part);
        text.push('\n');
    }
    text
}
